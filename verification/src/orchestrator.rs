//! Content extraction over a decoded document: select pages with the
//! filter, summarize their structure, and collect text entries with the
//! extractor.
//!
//! The summarizer counts text nodes whether or not their characters are
//! blank, while the extractor skips blank ones; that difference is part
//! of the design and shows up in the contracts.

use vstd::prelude::*;
use crate::document::{Document, Node, NodeData};
use crate::extraction::{DocumentStructure, ExtractedText, PageInfo};
use crate::extractor::{entry_matches, TextExtractor};
use crate::filter::FilterCriteria;
use crate::traversal::{
    children_height, doc_events, pages_events, traverse_document, traverse_pages, VisitEvent,
};

verus! {

/// How many of these nodes are frames (not recursive).
pub open spec fn spec_count_frames(cs: Seq<Node>) -> int
    decreases cs.len(),
{
    if cs.len() == 0 {
        0
    } else {
        (if cs[0].data is Frame {
            1int
        } else {
            0int
        }) + spec_count_frames(cs.skip(1))
    }
}

/// How many text or sticky nodes these subtrees hold, recursing only
/// through frames, groups, sections, components, component sets and
/// instances.
pub open spec fn text_count_node(n: Node) -> int
    decreases n, 1int,
{
    match n.data {
        NodeData::Text { .. } => 1,
        NodeData::Sticky { .. } => 1,
        NodeData::Frame { children, .. } => text_count_children(children@),
        NodeData::Group { children, .. } => text_count_children(children@),
        NodeData::Section { children, .. } => text_count_children(children@),
        NodeData::Component { children, .. } => text_count_children(children@),
        NodeData::ComponentSet { children, .. } => text_count_children(children@),
        NodeData::Instance { children, .. } => text_count_children(children@),
        _ => 0,
    }
}

pub open spec fn text_count_children(cs: Seq<Node>) -> int
    decreases cs, 0int,
{
    if cs.len() == 0 {
        0
    } else {
        text_count_node(cs[0]) + text_count_children(cs.skip(1))
    }
}

pub proof fn lemma_text_counts_nonneg(n: Node)
    ensures
        text_count_node(n) >= 0,
    decreases n, 1int,
{
    match n.data {
        NodeData::Frame { children, .. } => lemma_text_counts_children_nonneg(children@),
        NodeData::Group { children, .. } => lemma_text_counts_children_nonneg(children@),
        NodeData::Section { children, .. } => lemma_text_counts_children_nonneg(children@),
        NodeData::Component { children, .. } => lemma_text_counts_children_nonneg(children@),
        NodeData::ComponentSet { children, .. } => lemma_text_counts_children_nonneg(children@),
        NodeData::Instance { children, .. } => lemma_text_counts_children_nonneg(children@),
        _ => {},
    }
}

pub proof fn lemma_text_counts_children_nonneg(cs: Seq<Node>)
    ensures
        text_count_children(cs) >= 0,
    decreases cs, 0int,
{
    if cs.len() > 0 {
        lemma_text_counts_nonneg(cs[0]);
        lemma_text_counts_children_nonneg(cs.skip(1));
    }
}

proof fn lemma_text_count_take_step(cs: Seq<Node>, i: int)
    requires
        0 <= i < cs.len(),
    ensures
        text_count_children(cs.take(i + 1)) == text_count_children(cs.take(i)) + text_count_node(
            cs[i],
        ),
    decreases i,
{
    reveal_with_fuel(text_count_children, 3);
    if i == 0 {
        assert(cs.take(1)[0] == cs[0]);
        assert(cs.take(1).skip(1) =~= Seq::<Node>::empty());
        assert(cs.take(0) =~= Seq::<Node>::empty());
    } else {
        lemma_text_count_take_step(cs.skip(1), i - 1);
        assert(cs.take(i + 1).skip(1) =~= cs.skip(1).take(i));
        assert(cs.take(i).skip(1) =~= cs.skip(1).take(i - 1));
        assert(cs.take(i + 1)[0] == cs[0]);
        assert(cs.take(i)[0] == cs[0]);
        assert(cs.skip(1)[i - 1] == cs[i]);
    }
}

proof fn lemma_text_count_take_le(cs: Seq<Node>, k: int)
    requires
        0 <= k <= cs.len(),
    ensures
        text_count_children(cs.take(k)) <= text_count_children(cs),
    decreases cs.len() - k,
{
    if k == cs.len() {
        assert(cs.take(k) =~= cs);
    } else {
        lemma_text_count_take_le(cs, k + 1);
        lemma_text_count_take_step(cs, k);
        lemma_text_counts_nonneg(cs[k]);
    }
}

proof fn lemma_frame_count_take_step(cs: Seq<Node>, i: int)
    requires
        0 <= i < cs.len(),
    ensures
        spec_count_frames(cs.take(i + 1)) == spec_count_frames(cs.take(i)) + (
        if cs[i].data is Frame {
            1int
        } else {
            0int
        }),
    decreases i,
{
    reveal_with_fuel(spec_count_frames, 3);
    if i == 0 {
        assert(cs.take(1)[0] == cs[0]);
        assert(cs.take(1).skip(1) =~= Seq::<Node>::empty());
        assert(cs.take(0) =~= Seq::<Node>::empty());
    } else {
        lemma_frame_count_take_step(cs.skip(1), i - 1);
        assert(cs.take(i + 1).skip(1) =~= cs.skip(1).take(i));
        assert(cs.take(i).skip(1) =~= cs.skip(1).take(i - 1));
        assert(cs.take(i + 1)[0] == cs[0]);
        assert(cs.take(i)[0] == cs[0]);
        assert(cs.skip(1)[i - 1] == cs[i]);
    }
}

/// Count the direct frame children of a node's child list.
pub fn count_frames(nodes: &Vec<Node>) -> (r: usize)
    ensures
        r == spec_count_frames(nodes@),
{
    let n = nodes.len();
    let mut count: usize = 0;
    let mut i: usize = 0;
    proof {
        assert(nodes@.take(0) =~= Seq::<Node>::empty());
    }
    while i < n
        invariant
            0 <= i <= n,
            n == nodes@.len(),
            count <= i,
            count == spec_count_frames(nodes@.take(i as int)),
        decreases n - i,
    {
        proof {
            lemma_frame_count_take_step(nodes@, i as int);
        }
        match &nodes[i].data {
            NodeData::Frame { .. } => {
                count = count + 1;
            },
            _ => {},
        }
        i = i + 1;
    }
    proof {
        assert(nodes@.take(n as int) =~= nodes@);
    }
    count
}

/// Count text and sticky descendants, recursing only through the
/// container kinds the summarizer descends into.
pub fn count_text_nodes(nodes: &Vec<Node>) -> (r: usize)
    requires
        text_count_children(nodes@) <= usize::MAX,
    ensures
        r == text_count_children(nodes@),
    decreases nodes@,
{
    let n = nodes.len();
    let mut count: usize = 0;
    let mut i: usize = 0;
    proof {
        assert(nodes@.take(0) =~= Seq::<Node>::empty());
        lemma_text_counts_children_nonneg(nodes@);
    }
    while i < n
        invariant
            0 <= i <= n,
            n == nodes@.len(),
            text_count_children(nodes@) <= usize::MAX,
            count == text_count_children(nodes@.take(i as int)),
            count <= text_count_children(nodes@),
        decreases n - i,
    {
        proof {
            lemma_text_count_take_step(nodes@, i as int);
            lemma_text_count_take_le(nodes@, i + 1);
            lemma_text_counts_nonneg(nodes@[i as int]);
            lemma_text_counts_children_nonneg(nodes@.take(i as int));
            assert(decreases_to!(nodes@ => nodes@[i as int]));
        }
        let node = &nodes[i];
        let add: usize = match &node.data {
            NodeData::Text { .. } => 1,
            NodeData::Sticky { .. } => 1,
            NodeData::Frame { children, .. } => {
                proof {
                    assert(decreases_to!(nodes@[i as int] => nodes@[i as int].data));
                    assert(decreases_to!(nodes@[i as int].data => children));
                    assert(decreases_to!(children => children@));
                }
                count_text_nodes(children)
            },
            NodeData::Group { children, .. } => {
                proof {
                    assert(decreases_to!(nodes@[i as int] => nodes@[i as int].data));
                    assert(decreases_to!(nodes@[i as int].data => children));
                    assert(decreases_to!(children => children@));
                }
                count_text_nodes(children)
            },
            NodeData::Section { children, .. } => {
                proof {
                    assert(decreases_to!(nodes@[i as int] => nodes@[i as int].data));
                    assert(decreases_to!(nodes@[i as int].data => children));
                    assert(decreases_to!(children => children@));
                }
                count_text_nodes(children)
            },
            NodeData::Component { children, .. } => {
                proof {
                    assert(decreases_to!(nodes@[i as int] => nodes@[i as int].data));
                    assert(decreases_to!(nodes@[i as int].data => children));
                    assert(decreases_to!(children => children@));
                }
                count_text_nodes(children)
            },
            NodeData::ComponentSet { children, .. } => {
                proof {
                    assert(decreases_to!(nodes@[i as int] => nodes@[i as int].data));
                    assert(decreases_to!(nodes@[i as int].data => children));
                    assert(decreases_to!(children => children@));
                }
                count_text_nodes(children)
            },
            NodeData::Instance { children, .. } => {
                proof {
                    assert(decreases_to!(nodes@[i as int] => nodes@[i as int].data));
                    assert(decreases_to!(nodes@[i as int].data => children));
                    assert(decreases_to!(children => children@));
                }
                count_text_nodes(children)
            },
            _ => 0,
        };
        count = count + add;
        i = i + 1;
    }
    proof {
        assert(nodes@.take(n as int) =~= nodes@);
    }
    count
}

/// The canvas children the filter retains, in document order.
pub open spec fn retained_pages(cs: Seq<Node>, f: FilterCriteria) -> Seq<Node>
    decreases cs.len(),
{
    if cs.len() == 0 {
        Seq::empty()
    } else {
        let head = if cs[0].data is Canvas && f.spec_matches_page(cs[0].base.name@)
            && f.spec_matches_page_id(cs[0].base.id@) {
            seq![cs[0]]
        } else {
            Seq::<Node>::empty()
        };
        head + retained_pages(cs.skip(1), f)
    }
}

proof fn lemma_retained_take_step(cs: Seq<Node>, f: FilterCriteria, i: int)
    requires
        0 <= i < cs.len(),
    ensures
        retained_pages(cs.take(i + 1), f) == retained_pages(cs.take(i), f) + (
        if cs[i].data is Canvas && f.spec_matches_page(cs[i].base.name@) && f.spec_matches_page_id(
            cs[i].base.id@,
        ) {
            seq![cs[i]]
        } else {
            Seq::<Node>::empty()
        }),
    decreases i,
{
    reveal_with_fuel(retained_pages, 3);
    let tail = if cs[i].data is Canvas && f.spec_matches_page(cs[i].base.name@)
        && f.spec_matches_page_id(cs[i].base.id@) {
        seq![cs[i]]
    } else {
        Seq::<Node>::empty()
    };
    if i == 0 {
        assert(cs.take(1)[0] == cs[0]);
        assert(cs.take(1).skip(1) =~= Seq::<Node>::empty());
        assert(cs.take(0) =~= Seq::<Node>::empty());
        assert(retained_pages(cs.take(1), f) =~= tail);
        assert(retained_pages(cs.take(0), f) + tail =~= tail);
    } else {
        lemma_retained_take_step(cs.skip(1), f, i - 1);
        assert(cs.take(i + 1).skip(1) =~= cs.skip(1).take(i));
        assert(cs.take(i).skip(1) =~= cs.skip(1).take(i - 1));
        assert(cs.take(i + 1)[0] == cs[0]);
        assert(cs.take(i)[0] == cs[0]);
        assert(cs.skip(1)[i - 1] == cs[i]);
        let head0 = if cs[0].data is Canvas && f.spec_matches_page(cs[0].base.name@)
            && f.spec_matches_page_id(cs[0].base.id@) {
            seq![cs[0]]
        } else {
            Seq::<Node>::empty()
        };
        assert(retained_pages(cs.take(i + 1), f) == head0 + retained_pages(cs.skip(1).take(i), f));
        assert(retained_pages(cs.take(i), f) + tail =~= head0 + (retained_pages(
            cs.skip(1).take(i - 1),
            f,
        ) + tail));
    }
}

/// The page ids of a list of nodes.
pub open spec fn ids_of(cs: Seq<Node>) -> Seq<String> {
    cs.map_values(|n: Node| n.base.id)
}

/// One summary entry describes one retained page.
pub open spec fn page_info_matches(page: Node, info: PageInfo) -> bool {
    &&& info.id == page.base.id
    &&& info.name == page.base.name
    &&& page.spec_children() matches Some(cs) && info.frame_count == spec_count_frames(cs)
        && info.text_node_count == text_count_children(cs)
}

/// The machine limits the extraction needs: depth counters and text-node
/// counts fit in a word.
pub open spec fn extraction_fits(doc: Document) -> bool {
    &&& 1 + children_height(doc.children@) <= usize::MAX
    &&& forall|i: int|
        0 <= i < doc.children@.len() && (#[trigger] doc.children@[i]).data is Canvas
            ==> text_count_children(doc.children@[i].spec_children().unwrap()) <= usize::MAX
}

/// The events the extractor observes: the full walk for empty criteria,
/// the page-scoped walk otherwise.
pub open spec fn extraction_events(doc: Document, f: FilterCriteria) -> Seq<VisitEvent> {
    if f.spec_is_empty() {
        doc_events(doc)
    } else {
        pages_events(doc.children@, ids_of(retained_pages(doc.children@, f)), seq![doc.name])
    }
}

/// Extract content from a decoded document: the ordered text entries of
/// the filtered walk, and one summary entry per retained page, in
/// document order.
pub fn extract_content(document: &Document, filter: &FilterCriteria) -> (r: (
    Vec<ExtractedText>,
    DocumentStructure,
))
    requires
        extraction_fits(*document),
    ensures
        ({
            let pages = retained_pages(document.children@, *filter);
            &&& r.1.pages@.len() == pages.len()
            &&& forall|i: int|
                0 <= i < pages.len() ==> page_info_matches(pages[i], #[trigger] r.1.pages@[i])
        }),
        forall|i: int|
            0 <= i < r.0@.len() ==> (#[trigger] r.0@[i]).sequence_number == i,
        forall|i: int|
            0 <= i < r.0@.len() ==> exists|k: int|
                0 <= k < extraction_events(*document, *filter).len() && entry_matches(
                    extraction_events(*document, *filter)[k].node,
                    i,
                    extraction_events(*document, *filter)[k].path,
                    #[trigger] r.0@[i],
                ),
        crate::extractor::entries_match_events(extraction_events(*document, *filter), r.0@, 0),
{
    let cs = &document.children;
    let n = cs.len();
    let mut pages: Vec<PageInfo> = Vec::new();
    let mut filtered_page_ids: Vec<String> = Vec::new();
    let mut i: usize = 0;
    proof {
        assert(cs@.take(0) =~= Seq::<Node>::empty());
    }
    while i < n
        invariant
            0 <= i <= n,
            n == cs@.len(),
            cs == document.children,
            extraction_fits(*document),
            pages@.len() == retained_pages(cs@.take(i as int), *filter).len(),
            forall|j: int|
                0 <= j < pages@.len() ==> page_info_matches(
                    retained_pages(cs@.take(i as int), *filter)[j],
                    #[trigger] pages@[j],
                ),
            filtered_page_ids@ == ids_of(retained_pages(cs@.take(i as int), *filter)),
        decreases n - i,
    {
        proof {
            lemma_retained_take_step(cs@, *filter, i as int);
        }
        let child = &cs[i];
        let is_canvas = match &child.data {
            NodeData::Canvas { .. } => true,
            _ => false,
        };
        if is_canvas && filter.matches_page(child.name()) && filter.matches_page_id(child.id()) {
            let children = match child.children() {
                Some(c) => c,
                None => {
                    proof {
                        assert(false);
                    }
                    cs
                },
            };
            let info = PageInfo {
                id: child.base.id.clone(),
                name: child.base.name.clone(),
                frame_count: count_frames(children),
                text_node_count: count_text_nodes(children),
            };
            pages.push(info);
            filtered_page_ids.push(child.base.id.clone());
            proof {
                let prev = retained_pages(cs@.take(i as int), *filter);
                let now = retained_pages(cs@.take(i + 1), *filter);
                assert(now =~= prev.push(cs@[i as int]));
                assert(forall|j: int| 0 <= j < prev.len() ==> now[j] == prev[j]);
                assert(ids_of(now) =~= ids_of(prev).push(cs@[i as int].base.id));
            }
        } else {
            proof {
                assert(retained_pages(cs@.take(i as int), *filter) + Seq::<Node>::empty()
                    =~= retained_pages(cs@.take(i as int), *filter));
            }
        }
        i = i + 1;
    }
    proof {
        assert(cs@.take(n as int) =~= cs@);
    }
    let structure = DocumentStructure { pages };
    let mut extractor = TextExtractor::new();
    let ghost pre = extractor;
    if filter.is_empty() {
        traverse_document(document, &mut extractor);
    } else {
        traverse_pages(document, &filtered_page_ids, &mut extractor);
    }
    proof {
        crate::extractor::lemma_entries_from_events(
            pre,
            extraction_events(*document, *filter),
            extractor,
        );
    }
    let texts = extractor.into_texts();
    proof {
        assert(extractor.texts_seq().skip(0) =~= extractor.texts_seq());
    }
    (texts, structure)
}


/// Text counts never exceed node counts.
proof fn lemma_text_count_le_node_count(n: Node)
    ensures
        text_count_node(n) <= crate::traversal::node_count(n),
    decreases n, 1int,
{
    match n.data {
        NodeData::Frame { children, .. } => {
            lemma_text_count_le_children_count(children@);
            crate::traversal::lemma_children_height_le_count(children@);
            assert(n.spec_children() == Some(children@));
        },
        NodeData::Group { children, .. } => {
            lemma_text_count_le_children_count(children@);
            crate::traversal::lemma_children_height_le_count(children@);
            assert(n.spec_children() == Some(children@));
        },
        NodeData::Section { children, .. } => {
            lemma_text_count_le_children_count(children@);
            crate::traversal::lemma_children_height_le_count(children@);
            assert(n.spec_children() == Some(children@));
        },
        NodeData::Component { children, .. } => {
            lemma_text_count_le_children_count(children@);
            crate::traversal::lemma_children_height_le_count(children@);
            assert(n.spec_children() == Some(children@));
        },
        NodeData::ComponentSet { children, .. } => {
            lemma_text_count_le_children_count(children@);
            crate::traversal::lemma_children_height_le_count(children@);
            assert(n.spec_children() == Some(children@));
        },
        NodeData::Instance { children, .. } => {
            lemma_text_count_le_children_count(children@);
            crate::traversal::lemma_children_height_le_count(children@);
            assert(n.spec_children() == Some(children@));
        },
        _ => {
            lemma_text_counts_nonneg(n);
            if n.spec_children() is Some {
                crate::traversal::lemma_children_height_le_count(n.spec_children().unwrap());
            }
        },
    }
}

proof fn lemma_text_count_le_children_count(cs: Seq<Node>)
    ensures
        text_count_children(cs) <= crate::traversal::children_count(cs),
    decreases cs, 0int,
{
    if cs.len() > 0 {
        lemma_text_count_le_node_count(cs[0]);
        lemma_text_count_le_children_count(cs.skip(1));
    }
}

/// Whether the document is small enough for [`extract_content`]'s depth
/// counters and summary counts: true exactly when the total node count
/// fits below the machine-word limit, which bounds every height and
/// summary count the extraction computes.
pub fn extraction_capacity_ok(document: &Document) -> (r: bool)
    ensures
        r == (crate::traversal::children_count(document.children@) < usize::MAX),
        r ==> extraction_fits(*document),
{
    match crate::traversal::count_nodes_checked(&document.children) {
        Some(total) => {
            if total < usize::MAX {
                proof {
                    crate::traversal::lemma_children_height_le_count(document.children@);
                    assert forall|i: int|
                        0 <= i < document.children@.len() && (#[trigger] document.children@[i]).data
                            is Canvas implies text_count_children(
                        document.children@[i].spec_children().unwrap(),
                    ) <= usize::MAX by {
                        let child = document.children@[i];
                        crate::traversal::lemma_node_count_le_children(document.children@, i);
                        match child.data {
                            NodeData::Canvas { children, .. } => {
                                lemma_text_count_le_children_count(children@);
                                crate::traversal::lemma_children_height_le_count(children@);
                            },
                            _ => {},
                        }
                    }
                }
                true
            } else {
                false
            }
        },
        None => false,
    }
}

} // verus!
