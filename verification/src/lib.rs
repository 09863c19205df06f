//! Verified core of a visual-document text extractor.
//!
//! A document tree (pages containing nested frames, groups, shapes and text)
//! is decoded from generic JSON, walked depth-first pre-order by a visitor,
//! and flattened into a list of extracted text entries plus a per-page
//! structural summary.  Everything here is plain, synchronous computation
//! over exclusively-owned values; networking, caching and presentation live
//! in the surrounding application.

pub mod api;
pub mod config;
pub mod decode;
pub mod document;
pub mod extraction;
pub mod filter;
pub mod extractor;
pub mod json;
pub mod orchestrator;
pub mod retry;
pub mod strutil;
pub mod traversal;
pub mod validate;
