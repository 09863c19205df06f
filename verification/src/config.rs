//! Plain configuration records with their documented defaults, and the
//! token holder that wipes its contents on request.

use vstd::prelude::*;

verus! {

/// Extraction tuning: API depth bounds and which extras to keep.
#[derive(Debug, Clone, Copy, PartialEq, Eq, Structural)]
pub struct ExtractionConfig {
    pub depth: u32,
    pub max_depth: u32,
    pub styles: bool,
    pub components: bool,
    pub vectors: bool,
}

pub const DEFAULT_DEPTH: u32 = 5;

pub const DEFAULT_MAX_DEPTH: u32 = 10;

impl Default for ExtractionConfig {
    fn default() -> (r: Self)
        ensures
            r == (ExtractionConfig {
                depth: DEFAULT_DEPTH,
                max_depth: DEFAULT_MAX_DEPTH,
                styles: true,
                components: true,
                vectors: false,
            }),
    {
        ExtractionConfig {
            depth: DEFAULT_DEPTH,
            max_depth: DEFAULT_MAX_DEPTH,
            styles: true,
            components: true,
            vectors: false,
        }
    }
}

/// Concurrency tuning for the surrounding application.
#[derive(Debug, Clone, Copy, PartialEq, Eq, Structural)]
pub struct PerformanceConfig {
    pub concurrent: usize,
    pub chunk_size: usize,
}

pub const DEFAULT_CONCURRENT: usize = 50;

pub const DEFAULT_CHUNK_SIZE: usize = 100;

impl Default for PerformanceConfig {
    fn default() -> (r: Self)
        ensures
            r == (PerformanceConfig {
                concurrent: DEFAULT_CONCURRENT,
                chunk_size: DEFAULT_CHUNK_SIZE,
            }),
    {
        PerformanceConfig { concurrent: DEFAULT_CONCURRENT, chunk_size: DEFAULT_CHUNK_SIZE }
    }
}

/// A string holder for secrets that can zero its contents.
#[derive(Debug, Clone)]
pub struct SecureString {
    value: String,
}

impl SecureString {
    pub closed spec fn view_chars(&self) -> Seq<char> {
        self.value@
    }

    pub fn new(s: String) -> (r: Self)
        ensures
            r.view_chars() == s@,
    {
        SecureString { value: s }
    }

    pub fn as_str(&self) -> (r: &str)
        ensures
            r@ == self.view_chars(),
    {
        self.value.as_str()
    }

    /// Relies on zeroize::Zeroize for String: the buffer is zeroed and the
    /// string is left empty.
    #[verifier::external_body]
    pub fn wipe(&mut self)
        ensures
            final(self).view_chars() == Seq::<char>::empty(),
    {
        zeroize::Zeroize::zeroize(&mut self.value);
    }
}

} // verus!
