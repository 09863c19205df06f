//! Filter criteria: a pure predicate over page names, page ids and frame
//! names, used to bound the traversal's scope before it starts.
//!
//! Patterns are compiled once, at construction, and reused; what a match
//! returns is a function of the pattern text and the input alone.

use vstd::prelude::*;
use crate::json::str_eq;
use crate::strutil::{contains_seq, contains_str};

verus! {

#[verifier::external_type_specification]
#[verifier::external_body]
pub struct ExRegex(regex::Regex);

/// Whether a pattern is a valid regular expression: what `Regex::new`
/// decides, a function of the pattern text alone.
pub uninterp spec fn regex_valid(pattern: Seq<char>) -> bool;

/// Whether a compiled pattern matches anywhere in a text: what
/// `Regex::is_match` returns, a function of the pattern text and the
/// input alone.
pub uninterp spec fn regex_match(pattern: Seq<char>, text: Seq<char>) -> bool;

/// A compiled pattern together with its source text.  The only
/// constructor is [`Pattern::compile`], so the two always agree.
#[derive(Debug)]
pub struct Pattern {
    source: String,
    re: regex::Regex,
}

impl Pattern {
    /// The pattern text this was compiled from.
    pub closed spec fn source_view(&self) -> Seq<char> {
        self.source@
    }

    /// Relies on regex::Regex::new: compilation succeeds exactly when the
    /// pattern is a valid regular expression, and depends on the pattern
    /// text alone.
    #[verifier::external_body]
    pub fn compile(src: &str) -> (r: Option<Pattern>)
        ensures
            r is Some <==> regex_valid(src@),
            r matches Some(p) ==> p.source_view() == src@,
    {
        match regex::Regex::new(src) {
            Ok(re) => Some(Pattern { source: src.to_owned(), re }),
            Err(_) => None,
        }
    }

    /// Relies on regex::Regex::is_match: whether the pattern matches
    /// anywhere in the text, a function of the pattern text and the input
    /// alone.
    #[verifier::external_body]
    pub fn is_match(&self, text: &str) -> (r: bool)
        ensures
            r == regex_match(self.source_view(), text@),
    {
        self.re.is_match(text)
    }

    /// Borrow the pattern text.
    pub fn source(&self) -> (r: &str)
        ensures
            r@ == self.source_view(),
    {
        self.source.as_str()
    }
}

/// The scope filter: optional page-name allow-list, optional page-id
/// allow-list, optional page and frame name patterns, and whether hidden
/// nodes are included.  Empty criteria accept everything.
#[derive(Debug)]
pub struct FilterCriteria {
    pub page_names: Option<Vec<String>>,
    pub page_ids: Option<Vec<String>>,
    pub page_pattern: Option<Pattern>,
    pub frame_pattern: Option<Pattern>,
    pub include_hidden: bool,
}

impl FilterCriteria {
    /// A page name passes when it equals or contains an allow-listed name
    /// (or there is no list), and matches the page pattern (or there is
    /// none).
    pub open spec fn spec_matches_page(&self, name: Seq<char>) -> bool {
        &&& (match self.page_names {
            Some(ps) => exists|i: int|
                0 <= i < ps@.len() && ((#[trigger] ps@[i])@ == name || contains_seq(
                    name,
                    ps@[i]@,
                )),
            None => true,
        })
        &&& (match self.page_pattern {
            Some(p) => regex_match(p.source_view(), name),
            None => true,
        })
    }

    /// A page id passes by exact membership, or when there is no list.
    pub open spec fn spec_matches_page_id(&self, id: Seq<char>) -> bool {
        match self.page_ids {
            Some(ids) => exists|i: int| 0 <= i < ids@.len() && (#[trigger] ids@[i])@ == id,
            None => true,
        }
    }

    /// A frame name passes the frame pattern, or there is none.
    pub open spec fn spec_matches_frame(&self, name: Seq<char>) -> bool {
        match self.frame_pattern {
            Some(p) => regex_match(p.source_view(), name),
            None => true,
        }
    }

    /// No lists, no patterns, hidden nodes excluded.
    pub open spec fn spec_is_empty(&self) -> bool {
        &&& self.page_names is None
        &&& self.page_ids is None
        &&& self.page_pattern is None
        &&& self.frame_pattern is None
        &&& !self.include_hidden
    }

    pub fn new() -> (r: Self)
        ensures
            r.spec_is_empty(),
    {
        FilterCriteria {
            page_names: None,
            page_ids: None,
            page_pattern: None,
            frame_pattern: None,
            include_hidden: false,
        }
    }

    pub fn with_pages(self, pages: Vec<String>) -> (r: Self)
        ensures
            r == (FilterCriteria { page_names: Some(pages), ..self }),
    {
        FilterCriteria { page_names: Some(pages), ..self }
    }

    pub fn with_page_ids(self, page_ids: Vec<String>) -> (r: Self)
        ensures
            r == (FilterCriteria { page_ids: Some(page_ids), ..self }),
    {
        FilterCriteria { page_ids: Some(page_ids), ..self }
    }

    pub fn with_page_pattern(self, pattern: Pattern) -> (r: Self)
        ensures
            r == (FilterCriteria { page_pattern: Some(pattern), ..self }),
    {
        FilterCriteria { page_pattern: Some(pattern), ..self }
    }

    pub fn with_frame_pattern(self, pattern: Pattern) -> (r: Self)
        ensures
            r == (FilterCriteria { frame_pattern: Some(pattern), ..self }),
    {
        FilterCriteria { frame_pattern: Some(pattern), ..self }
    }

    pub fn with_include_hidden(self, hidden: bool) -> (r: Self)
        ensures
            r == (FilterCriteria { include_hidden: hidden, ..self }),
    {
        FilterCriteria { include_hidden: hidden, ..self }
    }

    pub fn matches_page(&self, page_name: &str) -> (r: bool)
        ensures
            r == self.spec_matches_page(page_name@),
    {
        let list_ok: bool = match &self.page_names {
            Some(ps) => {
                let n = ps.len();
                let mut i: usize = 0;
                let mut found = false;
                while i < n
                    invariant
                        0 <= i <= n,
                        n == ps@.len(),
                        self.page_names matches Some(ps2) && ps2 == *ps,
                        !found ==> forall|j: int|
                            0 <= j < i ==> !((#[trigger] ps@[j])@ == page_name@ || contains_seq(
                                page_name@,
                                ps@[j]@,
                            )),
                        found ==> exists|j: int|
                            0 <= j < ps@.len() && ((#[trigger] ps@[j])@ == page_name@
                                || contains_seq(page_name@, ps@[j]@)),
                    decreases n - i,
                {
                    if str_eq(ps[i].as_str(), page_name) || contains_str(page_name, ps[i].as_str())
                    {
                        found = true;
                    }
                    i = i + 1;
                }
                found
            },
            None => true,
        };
        if !list_ok {
            return false;
        }
        match &self.page_pattern {
            Some(p) => p.is_match(page_name),
            None => true,
        }
    }

    pub fn matches_page_id(&self, page_id: &str) -> (r: bool)
        ensures
            r == self.spec_matches_page_id(page_id@),
    {
        match &self.page_ids {
            Some(ids) => {
                let n = ids.len();
                let mut i: usize = 0;
                while i < n
                    invariant
                        0 <= i <= n,
                        n == ids@.len(),
                        self.page_ids matches Some(ids2) && ids2 == *ids,
                        forall|j: int| 0 <= j < i ==> (#[trigger] ids@[j])@ != page_id@,
                    decreases n - i,
                {
                    if str_eq(ids[i].as_str(), page_id) {
                        return true;
                    }
                    i = i + 1;
                }
                false
            },
            None => true,
        }
    }

    pub fn matches_frame(&self, frame_name: &str) -> (r: bool)
        ensures
            r == self.spec_matches_frame(frame_name@),
    {
        match &self.frame_pattern {
            Some(p) => p.is_match(frame_name),
            None => true,
        }
    }

    /// True exactly when no criterion is set.
    pub fn is_empty(&self) -> (r: bool)
        ensures
            r == self.spec_is_empty(),
    {
        self.page_names.is_none() && self.page_ids.is_none() && self.page_pattern.is_none()
            && self.frame_pattern.is_none() && !self.include_hidden
    }
}

/// Empty criteria accept every page name, every page id and every frame
/// name.
pub proof fn lemma_empty_filter_accepts_all(
    f: FilterCriteria,
    name: Seq<char>,
    id: Seq<char>,
    frame: Seq<char>,
)
    requires
        f.spec_is_empty(),
    ensures
        f.spec_matches_page(name),
        f.spec_matches_page_id(id),
        f.spec_matches_frame(frame),
{
}

} // verus!
