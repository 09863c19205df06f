//! The text extractor: a visitor that collects text-bearing nodes.
//!
//! Text and sticky nodes always qualify; an unrecognized-variant node
//! qualifies only when it carries characters.  Entries whose characters
//! are blank are skipped without consuming a sequence number.  Each entry
//! carries a hierarchy path built from the ancestor names at the moment
//! of the visit, with the document name dropped and the first
//! section-looking segment classified as the section.

use vstd::prelude::*;
use crate::document::{Node, NodeData, TypeStyle};
use crate::extraction::{ExtractedText, HierarchyPath, TextNodeType, TextStyleInfo};
use crate::json::JsonNumber;
use crate::strutil::{
    contains_seq, contains_str, is_blank, lower_of, seq_is_blank, starts_with_seq, starts_with_str,
    to_lowercase_str,
};
use crate::traversal::{visitor_runs, NodeVisitor, VisitEvent};

verus! {

/// A name is section-like when its lowercase form contains `section`, or
/// it contains `" > "`, or it starts with `"> "`.
pub open spec fn is_section_name_spec(name: Seq<char>) -> bool {
    ||| contains_seq(lower_of(name), "section"@)
    ||| contains_seq(name, " > "@)
    ||| starts_with_seq(name, "> "@)
}

/// The section heuristic on a concrete name.
pub fn is_section_name(name: &str) -> (r: bool)
    ensures
        r == is_section_name_spec(name@),
{
    let lowered = to_lowercase_str(name);
    contains_str(lowered.as_str(), "section") || contains_str(name, " > ") || starts_with_str(
        name,
        "> ",
    )
}

/// Scan the segments after the page in order: the first section-like one
/// becomes the section; every other segment is a frame name.
pub open spec fn classify_rest(
    names: Seq<String>,
    section: Option<String>,
    frames: Seq<String>,
) -> (Option<String>, Seq<String>)
    decreases names.len(),
{
    if names.len() == 0 {
        (section, frames)
    } else if section is None && is_section_name_spec(names[0]@) {
        classify_rest(names.skip(1), Some(names[0]), frames)
    } else {
        classify_rest(names.skip(1), section, frames.push(names[0]))
    }
}

/// A hierarchy path is what the ancestor names say: the document name
/// (index 0) is dropped, the next segment is the page (`"Unknown"` when
/// there is none), and the rest classify into section and frames.
pub open spec fn path_built_from(path: Seq<String>, h: HierarchyPath) -> bool {
    &&& if path.len() >= 2 {
        h.page_name == path[1]
    } else {
        h.page_name@ == "Unknown"@
    }
    &&& (h.section_name, h.frame_names@) == classify_rest(
        if path.len() >= 2 {
            path.skip(2)
        } else {
            Seq::<String>::empty()
        },
        None,
        Seq::<String>::empty(),
    )
    &&& h.group_names is None
}

/// Build the hierarchy path for a visit at the given ancestor names.
pub fn build_hierarchy_path(path: &Vec<String>) -> (r: HierarchyPath)
    ensures
        path_built_from(path@, r),
{
    let n = path.len();
    let page_name: String = if n >= 2 {
        path[1].clone()
    } else {
        "Unknown".to_owned()
    };
    let mut section_name: Option<String> = None;
    let mut frame_names: Vec<String> = Vec::new();
    if n < 2 {
        return HierarchyPath { page_name, section_name, frame_names, group_names: None };
    }
    let mut i: usize = 2;
    while i < n
        invariant
            2 <= i <= n,
            n == path@.len(),
            classify_rest(path@.skip(2), None, Seq::<String>::empty()) == classify_rest(
                path@.skip(i as int),
                section_name,
                frame_names@,
            ),
        decreases n - i,
    {
        proof {
            assert(path@.skip(i as int)[0] == path@[i as int]);
            assert(path@.skip(i as int).skip(1) =~= path@.skip(i + 1));
        }
        let name = &path[i];
        if section_name.is_none() && is_section_name(name.as_str()) {
            section_name = Some(name.clone());
        } else {
            frame_names.push(name.clone());
        }
        i = i + 1;
    }
    proof {
        assert(path@.skip(n as int) =~= Seq::<String>::empty());
    }
    HierarchyPath { page_name, section_name, frame_names, group_names: None }
}

/// Whether a visit of this node emits an entry, and what it carries: the
/// kind, the characters, and the style for text nodes that have one.
pub open spec fn emits(n: Node) -> bool {
    match n.data {
        NodeData::Text { characters, .. } => !seq_is_blank(characters@),
        NodeData::Sticky { characters, .. } => !seq_is_blank(characters@),
        NodeData::Other { characters: Some(chars), .. } => !seq_is_blank(chars@),
        _ => false,
    }
}

pub open spec fn emitted_kind(n: Node) -> TextNodeType {
    match n.data {
        NodeData::Sticky { .. } => TextNodeType::Sticky,
        _ => TextNodeType::Text,
    }
}

pub open spec fn emitted_text(n: Node) -> String
    recommends
        emits(n),
{
    match n.data {
        NodeData::Text { characters, .. } => characters,
        NodeData::Sticky { characters, .. } => characters,
        NodeData::Other { characters: Some(chars), .. } => chars,
        _ => arbitrary(),
    }
}

/// The captured style matches the node's: only text nodes with a style
/// carry one, with the documented defaults filled in.
pub open spec fn style_captured(n: Node, style: Option<TextStyleInfo>) -> bool {
    match n.data {
        NodeData::Text { style: Some(ts), .. } => {
            &&& style matches Some(si)
            &&& (match ts.font_family {
                Some(f) => si.font_family == f,
                None => si.font_family@ == "Unknown"@,
            })
            &&& si.font_size == (match ts.font_size {
                Some(fs) => fs,
                None => JsonNumber::PosInt(16),
            })
            &&& si.font_weight == (match ts.font_weight {
                Some(fw) => fw,
                None => 400u16,
            })
        },
        _ => style is None,
    }
}

/// What one emitted entry holds, given the visited node, the running
/// sequence number, and the ancestor names at the visit.
pub open spec fn entry_matches(n: Node, seq_no: int, path: Seq<String>, t: ExtractedText) -> bool {
    &&& t.node_id == n.base.id
    &&& t.node_type == emitted_kind(n)
    &&& t.text == emitted_text(n)
    &&& path_built_from(path, t.path)
    &&& t.sequence_number == seq_no
    &&& style_captured(n, t.style)
}

/// The visitor that accumulates extracted text entries.
pub struct TextExtractor {
    texts: Vec<ExtractedText>,
    sequence_number: usize,
}

impl TextExtractor {
    /// The entries collected so far, in traversal order.
    pub closed spec fn texts_seq(&self) -> Seq<ExtractedText> {
        self.texts@
    }

    pub fn new() -> (r: Self)
        ensures
            r.inv(),
            r.texts_seq() == Seq::<ExtractedText>::empty(),
    {
        TextExtractor { texts: Vec::new(), sequence_number: 0 }
    }

    /// Hand the accumulated entries out.
    pub fn into_texts(self) -> (r: Vec<ExtractedText>)
        ensures
            r@ == self.texts_seq(),
    {
        self.texts
    }

    /// How many entries have been collected.
    pub fn count(&self) -> (r: usize)
        ensures
            r == self.texts_seq().len(),
    {
        self.texts.len()
    }
}

impl NodeVisitor for TextExtractor {
    /// Sequence numbers are dense: entry `i` carries number `i`, and the
    /// running counter equals the number of entries.
    closed spec fn inv(&self) -> bool {
        &&& self.sequence_number == self.texts@.len()
        &&& forall|i: int|
            0 <= i < self.texts@.len() ==> (#[trigger] self.texts@[i]).sequence_number == i
    }

    /// A qualifying, non-blank node appends one matching entry; any other
    /// node leaves the state unchanged.
    closed spec fn step(pre: Self, node: Node, depth: int, path: Seq<String>, post: Self) -> bool {
        if emits(node) {
            &&& post.texts@.len() == pre.texts@.len() + 1
            &&& post.texts@.take(pre.texts@.len() as int) == pre.texts@
            &&& entry_matches(node, pre.texts@.len() as int, path, post.texts@.last())
            &&& post.sequence_number == post.texts@.len()
        } else {
            post == pre
        }
    }

    fn visit_node(&mut self, node: &Node, depth: usize, path: &Vec<String>) {
        let (node_type, characters, style): (TextNodeType, &String, Option<&TypeStyle>) = match &node.data {
            NodeData::Text { characters, style, .. } => (
                TextNodeType::Text,
                characters,
                match style {
                    Some(ts) => Some(ts),
                    None => None,
                },
            ),
            NodeData::Sticky { characters, .. } => (TextNodeType::Sticky, characters, None),
            NodeData::Other { characters: Some(chars), .. } => (TextNodeType::Text, chars, None),
            _ => {
                return ;
            },
        };
        if is_blank(characters.as_str()) {
            return ;
        }
        let style_info: Option<TextStyleInfo> = match style {
            Some(ts) => Some(
                TextStyleInfo {
                    font_family: match &ts.font_family {
                        Some(f) => f.clone(),
                        None => "Unknown".to_owned(),
                    },
                    font_size: match ts.font_size {
                        Some(fs) => fs,
                        None => JsonNumber::PosInt(16),
                    },
                    font_weight: match ts.font_weight {
                        Some(fw) => fw,
                        None => 400,
                    },
                },
            ),
            None => None,
        };
        let entry = ExtractedText {
            node_id: node.base.id.clone(),
            node_type,
            text: characters.clone(),
            path: build_hierarchy_path(path),
            sequence_number: self.texts.len(),
            style: style_info,
        };
        let ghost pre = self.texts@;
        self.texts.push(entry);
        self.sequence_number = self.texts.len();
        proof {
            assert(self.texts@.take(pre.len() as int) =~= pre);
        }
    }
}

/// The entries are exactly the qualifying events, in order: each emitting
/// event contributes one entry carrying that event's node and path and
/// the running sequence number, and nothing else is emitted.
pub open spec fn entries_match_events(
    events: Seq<VisitEvent>,
    entries: Seq<ExtractedText>,
    next_seq: int,
) -> bool
    decreases events.len(),
{
    if events.len() == 0 {
        entries.len() == 0
    } else if emits(events[0].node) {
        &&& entries.len() > 0
        &&& entry_matches(events[0].node, next_seq, events[0].path, entries[0])
        &&& entries_match_events(events.skip(1), entries.skip(1), next_seq + 1)
    } else {
        entries_match_events(events.skip(1), entries, next_seq)
    }
}

/// Every run of the extractor keeps existing entries and appends exactly
/// the entries of the events it observed, in order; in particular the
/// sequence numbers are exactly the entry positions, with no gaps.
pub proof fn lemma_entries_from_events(
    pre: TextExtractor,
    events: Seq<VisitEvent>,
    post: TextExtractor,
)
    requires
        pre.inv(),
        visitor_runs(pre, events, post),
    ensures
        post.inv(),
        post.texts_seq().len() >= pre.texts_seq().len(),
        post.texts_seq().take(pre.texts_seq().len() as int) == pre.texts_seq(),
        forall|i: int|
            pre.texts_seq().len() <= i < post.texts_seq().len() ==> exists|k: int|
                0 <= k < events.len() && entry_matches(
                    events[k].node,
                    i,
                    events[k].path,
                    #[trigger] post.texts_seq()[i],
                ),
        forall|i: int|
            0 <= i < post.texts_seq().len() ==> (#[trigger] post.texts_seq()[i]).sequence_number
                == i,
        entries_match_events(
            events,
            post.texts_seq().skip(pre.texts_seq().len() as int),
            pre.texts_seq().len() as int,
        ),
    decreases events.len(),
{
    if events.len() == 0 {
        assert(post.texts_seq().skip(pre.texts_seq().len() as int) =~= Seq::<
            ExtractedText,
        >::empty());
    } else {
        let mid = choose|mid: TextExtractor|
            #[trigger] TextExtractor::step(pre, events[0].node, events[0].depth, events[0].path, mid)
                && visitor_runs(mid, events.skip(1), post);
        assert(mid.inv()) by {
            if emits(events[0].node) {
                assert forall|i: int|
                    0 <= i < mid.texts@.len() implies (#[trigger] mid.texts@[i]).sequence_number
                    == i by {
                    if i < pre.texts@.len() {
                        assert(mid.texts@.take(pre.texts@.len() as int)[i] == mid.texts@[i]);
                    } else {
                        assert(mid.texts@[i] == mid.texts@.last());
                    }
                }
            }
        }
        lemma_entries_from_events(mid, events.skip(1), post);
        assert forall|i: int|
            pre.texts_seq().len() <= i < post.texts_seq().len() implies exists|k: int|
            0 <= k < events.len() && entry_matches(
                events[k].node,
                i,
                events[k].path,
                #[trigger] post.texts_seq()[i],
            ) by {
            if i < mid.texts_seq().len() {
                // the entry was emitted by the first event
                assert(emits(events[0].node));
                assert(post.texts_seq().take(mid.texts_seq().len() as int)[i]
                    == post.texts_seq()[i]);
                assert(mid.texts@.take(pre.texts@.len() as int).len() == pre.texts@.len());
                assert(mid.texts@[i] == mid.texts@.last());
                assert(entry_matches(events[0].node, i, events[0].path, post.texts_seq()[i]));
            } else {
                let k0 = choose|k0: int|
                    0 <= k0 < events.skip(1).len() && entry_matches(
                        events.skip(1)[k0].node,
                        i,
                        events.skip(1)[k0].path,
                        #[trigger] post.texts_seq()[i],
                    );
                assert(events.skip(1)[k0] == events[k0 + 1]);
            }
        }
        assert forall|i: int|
            0 <= i < pre.texts_seq().len() implies post.texts_seq().take(
            pre.texts_seq().len() as int,
        )[i] == pre.texts_seq()[i] by {
            assert(mid.texts_seq().take(pre.texts_seq().len() as int)[i] == pre.texts_seq()[i]);
            assert(post.texts_seq().take(mid.texts_seq().len() as int)[i] == mid.texts_seq()[i]);
        }
        assert(post.texts_seq().take(pre.texts_seq().len() as int) =~= pre.texts_seq());
        let new_entries = post.texts_seq().skip(pre.texts_seq().len() as int);
        if emits(events[0].node) {
            assert(new_entries.len() > 0);
            assert(new_entries[0] == post.texts_seq()[pre.texts_seq().len() as int]);
            assert(post.texts_seq().take(mid.texts_seq().len() as int)[pre.texts_seq().len() as int]
                == post.texts_seq()[pre.texts_seq().len() as int]);
            assert(new_entries[0] == mid.texts_seq().last());
            assert(new_entries.skip(1) =~= post.texts_seq().skip(mid.texts_seq().len() as int));
        } else {
            assert(new_entries =~= post.texts_seq().skip(mid.texts_seq().len() as int));
        }
    }
}

/// The page name of every entry emitted from a walk whose paths all start
/// with the document name is the first ancestor segment after it.
pub proof fn lemma_page_name_after_document(path: Seq<String>, h: HierarchyPath)
    requires
        path_built_from(path, h),
        path.len() >= 2,
    ensures
        h.page_name == path[1],
{
}

} // verus!
