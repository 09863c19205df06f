//! Depth-first pre-order traversal of a document tree.
//!
//! The walk drives a pluggable visitor; each callback receives the node,
//! its depth (1 for the document's direct children), and the ordered list
//! of ancestor names starting with the document's own name.  Container
//! names are pushed before descending and popped afterwards, so the path
//! each visitor call sees is exactly the node's true ancestry.
//!
//! What the walk does is written down as the event sequence
//! [`doc_events`]; the contracts state that a visitor observes exactly
//! those events, in order.

use vstd::prelude::*;
use crate::document::{Document, Node, NodeData};

verus! {

/// One visitor callback: the node visited, its depth, and the ancestor
/// names at the moment of the call.
pub struct VisitEvent {
    pub node: Node,
    pub depth: int,
    pub path: Seq<String>,
}

/// A node's children sit strictly inside it in the well-founded order
/// used for `decreases`.
proof fn lemma_spec_children_decreases(n: Node)
    requires
        n.spec_children() is Some,
    ensures
        decreases_to!(n => n.spec_children().unwrap()),
{
    match n.data {
        NodeData::Canvas { children, .. } => {
            assert(decreases_to!(n => n.data));
            assert(decreases_to!(n.data => children));
            assert(decreases_to!(children => children@));
        },
        NodeData::Section { children, .. } => {
            assert(decreases_to!(n => n.data));
            assert(decreases_to!(n.data => children));
            assert(decreases_to!(children => children@));
        },
        NodeData::Frame { children, .. } => {
            assert(decreases_to!(n => n.data));
            assert(decreases_to!(n.data => children));
            assert(decreases_to!(children => children@));
        },
        NodeData::Group { children, .. } => {
            assert(decreases_to!(n => n.data));
            assert(decreases_to!(n.data => children));
            assert(decreases_to!(children => children@));
        },
        NodeData::Component { children, .. } => {
            assert(decreases_to!(n => n.data));
            assert(decreases_to!(n.data => children));
            assert(decreases_to!(children => children@));
        },
        NodeData::ComponentSet { children, .. } => {
            assert(decreases_to!(n => n.data));
            assert(decreases_to!(n.data => children));
            assert(decreases_to!(children => children@));
        },
        NodeData::Instance { children, .. } => {
            assert(decreases_to!(n => n.data));
            assert(decreases_to!(n.data => children));
            assert(decreases_to!(children => children@));
        },
        NodeData::BooleanOperation { children, .. } => {
            assert(decreases_to!(n => n.data));
            assert(decreases_to!(n.data => children));
            assert(decreases_to!(children => children@));
        },
        NodeData::Table { children, .. } => {
            assert(decreases_to!(n => n.data));
            assert(decreases_to!(n.data => children));
            assert(decreases_to!(children => children@));
        },
        NodeData::TableCell { children, .. } => {
            assert(decreases_to!(n => n.data));
            assert(decreases_to!(n.data => children));
            assert(decreases_to!(children => children@));
        },
        _ => {
            assert(false);
        },
    }
}

/// The events a pre-order walk of one node produces: the node itself
/// first, then — for a container with children — the events of each
/// child in order, one level deeper, under the node's own name.
pub open spec fn node_events(n: Node, depth: int, path: Seq<String>) -> Seq<VisitEvent>
    decreases n, 1int,
    via node_events_dec
{
    let head = seq![VisitEvent { node: n, depth, path }];
    match n.spec_children() {
        Some(cs) => if cs.len() > 0 {
            head + children_events(cs, depth + 1, path.push(n.base.name))
        } else {
            head
        },
        None => head,
    }
}

#[via_fn]
proof fn node_events_dec(n: Node, depth: int, path: Seq<String>) {
    if n.spec_children() is Some {
        lemma_spec_children_decreases(n);
    }
}

/// The events of a list of subtrees, in order.
pub open spec fn children_events(cs: Seq<Node>, depth: int, path: Seq<String>) -> Seq<VisitEvent>
    decreases cs, 0int,
{
    if cs.len() == 0 {
        Seq::empty()
    } else {
        node_events(cs[0], depth, path) + children_events(cs.skip(1), depth, path)
    }
}

/// The events of a full document walk: every direct child, at depth 1,
/// under the document's name.
pub open spec fn doc_events(doc: Document) -> Seq<VisitEvent> {
    children_events(doc.children@, 1, seq![doc.name])
}

/// Whether one of `ids` has these characters.
pub open spec fn ids_contain(ids: Seq<String>, id: Seq<char>) -> bool {
    exists|i: int| 0 <= i < ids.len() && #[trigger] ids[i]@ == id
}

/// The events of a page-scoped walk: only canvas children whose id is
/// listed are walked, in original document order.
pub open spec fn pages_events(cs: Seq<Node>, page_ids: Seq<String>, path: Seq<String>) -> Seq<
    VisitEvent,
>
    decreases cs,
{
    if cs.len() == 0 {
        Seq::empty()
    } else {
        let head = if cs[0].data is Canvas && ids_contain(page_ids, cs[0].base.id@) {
            node_events(cs[0], 1, path)
        } else {
            Seq::empty()
        };
        head + pages_events(cs.skip(1), page_ids, path)
    }
}

/// The height of a subtree: 1 for a leaf or an empty container.  Bounds
/// the depth values a walk can reach.
pub open spec fn node_height(n: Node) -> int
    decreases n, 1int,
    via node_height_dec
{
    match n.spec_children() {
        Some(cs) => 1 + children_height(cs),
        None => 1,
    }
}

#[via_fn]
proof fn node_height_dec(n: Node) {
    if n.spec_children() is Some {
        lemma_spec_children_decreases(n);
    }
}

pub open spec fn children_height(cs: Seq<Node>) -> int
    decreases cs, 0int,
{
    if cs.len() == 0 {
        0
    } else {
        let rest = children_height(cs.skip(1));
        let first = node_height(cs[0]);
        if first >= rest {
            first
        } else {
            rest
        }
    }
}

proof fn lemma_heights_nonneg(n: Node)
    ensures
        node_height(n) >= 1,
    decreases n, 1int,
{
    if n.spec_children() is Some {
        lemma_spec_children_decreases(n);
        lemma_children_heights_nonneg(n.spec_children().unwrap());
    }
}

proof fn lemma_children_heights_nonneg(cs: Seq<Node>)
    ensures
        children_height(cs) >= 0,
    decreases cs, 0int,
{
    if cs.len() > 0 {
        lemma_heights_nonneg(cs[0]);
        lemma_children_heights_nonneg(cs.skip(1));
    }
}

proof fn lemma_child_height_le(cs: Seq<Node>, i: int)
    requires
        0 <= i < cs.len(),
    ensures
        node_height(cs[i]) <= children_height(cs),
    decreases i,
{
    lemma_children_heights_nonneg(cs);
    if i == 0 {
        lemma_children_heights_nonneg(cs.skip(1));
    } else {
        lemma_child_height_le(cs.skip(1), i - 1);
        assert(cs.skip(1)[i - 1] == cs[i]);
        lemma_heights_nonneg(cs[0]);
    }
}

/// A visitor over document nodes.  `inv` is whatever well-formedness the
/// visitor maintains; `step` says how one callback changes its state.
pub trait NodeVisitor: Sized {
    spec fn inv(&self) -> bool;

    spec fn step(pre: Self, node: Node, depth: int, path: Seq<String>, post: Self) -> bool;

    fn visit_node(&mut self, node: &Node, depth: usize, path: &Vec<String>)
        requires
            old(self).inv(),
        ensures
            final(self).inv(),
            Self::step(*old(self), *node, depth as int, path@, *final(self)),
    ;
}

/// The visitor stepped once for each event, in order.
pub open spec fn visitor_runs<V: NodeVisitor>(pre: V, events: Seq<VisitEvent>, post: V) -> bool
    decreases events.len(),
{
    if events.len() == 0 {
        post == pre
    } else {
        exists|mid: V|
            #[trigger] V::step(pre, events[0].node, events[0].depth, events[0].path, mid)
                && visitor_runs(mid, events.skip(1), post)
    }
}

/// Runs compose over concatenated event sequences.
pub proof fn lemma_runs_concat<V: NodeVisitor>(a: V, e1: Seq<VisitEvent>, b: V, e2: Seq<
    VisitEvent,
>, c: V)
    requires
        visitor_runs(a, e1, b),
        visitor_runs(b, e2, c),
    ensures
        visitor_runs(a, e1 + e2, c),
    decreases e1.len(),
{
    if e1.len() == 0 {
        assert(e1 + e2 =~= e2);
    } else {
        let mid = choose|mid: V|
            #[trigger] V::step(a, e1[0].node, e1[0].depth, e1[0].path, mid) && visitor_runs(
                mid,
                e1.skip(1),
                b,
            );
        lemma_runs_concat(mid, e1.skip(1), b, e2, c);
        assert((e1 + e2).skip(1) =~= e1.skip(1) + e2);
        assert((e1 + e2)[0] == e1[0]);
    }
}

/// A single step is a run of one event.
proof fn lemma_runs_single<V: NodeVisitor>(a: V, ev: VisitEvent, b: V)
    requires
        V::step(a, ev.node, ev.depth, ev.path, b),
    ensures
        visitor_runs(a, seq![ev], b),
{
    assert(seq![ev].skip(1) =~= Seq::<VisitEvent>::empty());
    assert(visitor_runs(b, seq![ev].skip(1), b));
    assert(seq![ev][0] == ev);
}

fn traverse_node<V: NodeVisitor>(node: &Node, visitor: &mut V, depth: usize, path: &mut Vec<String>)
    requires
        old(visitor).inv(),
        depth + node_height(*node) <= usize::MAX,
    ensures
        final(visitor).inv(),
        final(path)@ == old(path)@,
        visitor_runs(
            *old(visitor),
            node_events(*node, depth as int, old(path)@),
            *final(visitor),
        ),
    decreases *node,
{
    let ghost v0 = *visitor;
    let ghost p0 = path@;
    visitor.visit_node(node, depth, path);
    let ghost ev = VisitEvent { node: *node, depth: depth as int, path: p0 };
    proof {
        lemma_runs_single(v0, ev, *visitor);
    }
    let children = match node.children() {
        Some(children) => children,
        None => {
            return ;
        },
    };
    if children.len() == 0 {
        return ;
    }
    proof {
        lemma_spec_children_decreases(*node);
        lemma_heights_nonneg(*node);
        lemma_children_heights_nonneg(children@);
    }
    path.push(node.base.name.clone());
    let ghost v1 = *visitor;
    let ghost inner = p0.push(node.base.name);
    let n = children.len();
    let mut i: usize = 0;
    proof {
        assert(children@.take(0) =~= Seq::<Node>::empty());
    }
    while i < n
        invariant
            0 <= i <= n,
            n == children@.len(),
            visitor.inv(),
            path@ == inner,
            depth + 1 + children_height(children@) <= usize::MAX,
            node.spec_children() == Some(children@),
            visitor_runs(v1, children_events(children@.take(i as int), depth + 1, inner), *visitor),
        decreases n - i,
    {
        let ghost v_before = *visitor;
        proof {
            lemma_child_height_le(children@, i as int);
            lemma_heights_nonneg(children@[i as int]);
            lemma_spec_children_decreases(*node);
            assert(decreases_to!(children@ => children@[i as int]));
        }
        traverse_node(&children[i], visitor, depth + 1, path);
        proof {
            lemma_runs_concat(
                v1,
                children_events(children@.take(i as int), depth + 1, inner),
                v_before,
                node_events(children@[i as int], depth + 1, inner),
                *visitor,
            );
            lemma_children_events_take_step(children@, i as int, depth + 1, inner);
        }
        i = i + 1;
    }
    path.pop();
    proof {
        assert(children@.take(n as int) =~= children@);
        assert(path@ =~= p0);
        lemma_runs_concat(
            v0,
            seq![ev],
            v1,
            children_events(children@, depth + 1, inner),
            *visitor,
        );
        assert(seq![ev] + children_events(children@, depth + 1, inner) =~= node_events(
            *node,
            depth as int,
            p0,
        ));
    }
}

/// Appending one more child extends the event sequence by that child's
/// events.
proof fn lemma_children_events_take_step(cs: Seq<Node>, i: int, depth: int, path: Seq<String>)
    requires
        0 <= i < cs.len(),
    ensures
        children_events(cs.take(i + 1), depth, path) == children_events(cs.take(i), depth, path)
            + node_events(cs[i], depth, path),
    decreases i,
{
    reveal_with_fuel(children_events, 3);
    if i == 0 {
        assert(cs.take(1)[0] == cs[0]);
        assert(cs.take(1).skip(1) =~= Seq::<Node>::empty());
        assert(cs.take(0) =~= Seq::<Node>::empty());
        assert(children_events(cs.take(1), depth, path) =~= node_events(cs[0], depth, path));
        assert(children_events(cs.take(0), depth, path) + node_events(cs[0], depth, path)
            =~= node_events(cs[0], depth, path));
    } else {
        lemma_children_events_take_step(cs.skip(1), i - 1, depth, path);
        assert(cs.take(i + 1).skip(1) =~= cs.skip(1).take(i));
        assert(cs.take(i).skip(1) =~= cs.skip(1).take(i - 1));
        assert(cs.take(i + 1)[0] == cs[0]);
        assert(cs.take(i)[0] == cs[0]);
        assert(cs.skip(1)[i - 1] == cs[i]);
        assert(children_events(cs.take(i + 1), depth, path) == node_events(cs[0], depth, path)
            + children_events(cs.skip(1).take(i), depth, path));
        assert(children_events(cs.take(i), depth, path) + node_events(cs[i], depth, path)
            =~= node_events(cs[0], depth, path) + (children_events(cs.skip(1).take(i - 1), depth, path)
            + node_events(cs[i], depth, path)));
    }
}

/// Walk every direct child of the document, depth-first and pre-order,
/// driving the visitor; the visitor observes exactly [`doc_events`].
pub fn traverse_document<V: NodeVisitor>(document: &Document, visitor: &mut V)
    requires
        old(visitor).inv(),
        1 + children_height(document.children@) <= usize::MAX,
    ensures
        final(visitor).inv(),
        visitor_runs(*old(visitor), doc_events(*document), *final(visitor)),
{
    let mut path: Vec<String> = Vec::new();
    path.push(document.name.clone());
    let ghost p0 = path@;
    let ghost v0 = *visitor;
    let n = document.children.len();
    let mut i: usize = 0;
    proof {
        assert(document.children@.take(0) =~= Seq::<Node>::empty());
        lemma_children_heights_nonneg(document.children@);
    }
    while i < n
        invariant
            0 <= i <= n,
            n == document.children@.len(),
            visitor.inv(),
            path@ == p0,
            1 + children_height(document.children@) <= usize::MAX,
            visitor_runs(
                v0,
                children_events(document.children@.take(i as int), 1, p0),
                *visitor,
            ),
        decreases n - i,
    {
        let ghost v_before = *visitor;
        proof {
            lemma_child_height_le(document.children@, i as int);
            lemma_heights_nonneg(document.children@[i as int]);
        }
        traverse_node(&document.children[i], visitor, 1, &mut path);
        proof {
            lemma_runs_concat(
                v0,
                children_events(document.children@.take(i as int), 1, p0),
                v_before,
                node_events(document.children@[i as int], 1, p0),
                *visitor,
            );
            lemma_children_events_take_step(document.children@, i as int, 1, p0);
        }
        i = i + 1;
    }
    proof {
        assert(document.children@.take(n as int) =~= document.children@);
        assert(p0 =~= seq![document.name]);
    }
}

/// Walk only the canvas children whose id is listed, in document order;
/// the visitor observes exactly [`pages_events`].
pub fn traverse_pages<V: NodeVisitor>(document: &Document, page_ids: &Vec<String>, visitor: &mut V)
    requires
        old(visitor).inv(),
        1 + children_height(document.children@) <= usize::MAX,
    ensures
        final(visitor).inv(),
        visitor_runs(
            *old(visitor),
            pages_events(document.children@, page_ids@, seq![document.name]),
            *final(visitor),
        ),
{
    let mut path: Vec<String> = Vec::new();
    path.push(document.name.clone());
    let ghost p0 = path@;
    let ghost v0 = *visitor;
    let n = document.children.len();
    let mut i: usize = 0;
    proof {
        lemma_children_heights_nonneg(document.children@);
        lemma_pages_events_take_zero(document.children@, page_ids@, p0);
    }
    while i < n
        invariant
            0 <= i <= n,
            n == document.children@.len(),
            visitor.inv(),
            path@ == p0,
            1 + children_height(document.children@) <= usize::MAX,
            visitor_runs(
                v0,
                pages_events(document.children@.take(i as int), page_ids@, p0),
                *visitor,
            ),
        decreases n - i,
    {
        let child = &document.children[i];
        let is_page = match &child.data {
            NodeData::Canvas { .. } => id_listed(page_ids, child.id()),
            _ => false,
        };
        let ghost v_before = *visitor;
        if is_page {
            proof {
                lemma_child_height_le(document.children@, i as int);
                lemma_heights_nonneg(document.children@[i as int]);
            }
            traverse_node(child, visitor, 1, &mut path);
            proof {
                lemma_runs_concat(
                    v0,
                    pages_events(document.children@.take(i as int), page_ids@, p0),
                    v_before,
                    node_events(document.children@[i as int], 1, p0),
                    *visitor,
                );
            }
        } else {
            proof {
                assert(pages_events(document.children@.take(i as int), page_ids@, p0)
                    + Seq::<VisitEvent>::empty() =~= pages_events(
                    document.children@.take(i as int),
                    page_ids@,
                    p0,
                ));
            }
        }
        proof {
            lemma_pages_events_take_step(document.children@, i as int, page_ids@, p0);
        }
        i = i + 1;
    }
    proof {
        assert(document.children@.take(n as int) =~= document.children@);
        assert(p0 =~= seq![document.name]);
    }
}

proof fn lemma_pages_events_take_zero(cs: Seq<Node>, ids: Seq<String>, path: Seq<String>)
    ensures
        pages_events(cs.take(0), ids, path) == Seq::<VisitEvent>::empty(),
{
    assert(cs.take(0) =~= Seq::<Node>::empty());
}

proof fn lemma_pages_events_take_step(cs: Seq<Node>, i: int, ids: Seq<String>, path: Seq<String>)
    requires
        0 <= i < cs.len(),
    ensures
        pages_events(cs.take(i + 1), ids, path) == pages_events(cs.take(i), ids, path) + (
        if cs[i].data is Canvas && ids_contain(ids, cs[i].base.id@) {
            node_events(cs[i], 1, path)
        } else {
            Seq::<VisitEvent>::empty()
        }),
    decreases i,
{
    let tail = if cs[i].data is Canvas && ids_contain(ids, cs[i].base.id@) {
        node_events(cs[i], 1, path)
    } else {
        Seq::<VisitEvent>::empty()
    };
    reveal_with_fuel(pages_events, 3);
    if i == 0 {
        assert(cs.take(1)[0] == cs[0]);
        assert(cs.take(1).skip(1) =~= Seq::<Node>::empty());
        assert(cs.take(0) =~= Seq::<Node>::empty());
        assert(pages_events(cs.take(1), ids, path) =~= tail);
        assert(pages_events(cs.take(0), ids, path) + tail =~= tail);
    } else {
        lemma_pages_events_take_step(cs.skip(1), i - 1, ids, path);
        assert(cs.take(i + 1).skip(1) =~= cs.skip(1).take(i));
        assert(cs.take(i).skip(1) =~= cs.skip(1).take(i - 1));
        assert(cs.take(i + 1)[0] == cs[0]);
        assert(cs.take(i)[0] == cs[0]);
        assert(cs.skip(1)[i - 1] == cs[i]);
        let head0 = if cs[0].data is Canvas && ids_contain(ids, cs[0].base.id@) {
            node_events(cs[0], 1, path)
        } else {
            Seq::<VisitEvent>::empty()
        };
        assert(pages_events(cs.take(i + 1), ids, path) == head0 + pages_events(
            cs.skip(1).take(i),
            ids,
            path,
        ));
        assert(pages_events(cs.take(i), ids, path) + tail =~= head0 + (pages_events(
            cs.skip(1).take(i - 1),
            ids,
            path,
        ) + tail));
    }
}

/// Whether `id` equals one of the listed ids, character for character.
fn id_listed(ids: &Vec<String>, id: &str) -> (r: bool)
    ensures
        r == ids_contain(ids@, id@),
{
    let n = ids.len();
    let mut i: usize = 0;
    while i < n
        invariant
            0 <= i <= n,
            n == ids@.len(),
            forall|j: int| 0 <= j < i ==> #[trigger] ids@[j]@ != id@,
        decreases n - i,
    {
        if crate::json::str_eq(ids[i].as_str(), id) {
            return true;
        }
        i = i + 1;
    }
    false
}

/// A visitor that records, for each callback, the visited node's id and
/// the depth it was visited at, in order.
pub struct RecordingVisitor {
    pub visits: Vec<(String, usize)>,
}

impl NodeVisitor for RecordingVisitor {
    open spec fn inv(&self) -> bool {
        true
    }

    open spec fn step(pre: Self, node: Node, depth: int, path: Seq<String>, post: Self) -> bool {
        &&& post.visits@.len() == pre.visits@.len() + 1
        &&& post.visits@.take(pre.visits@.len() as int) == pre.visits@
        &&& post.visits@.last().0 == node.base.id
        &&& post.visits@.last().1 == depth
    }

    fn visit_node(&mut self, node: &Node, depth: usize, path: &Vec<String>) {
        let ghost pre = self.visits@;
        self.visits.push((node.base.id.clone(), depth));
        proof {
            assert(self.visits@.take(pre.len() as int) =~= pre);
        }
    }
}

/// A visitor that only counts its callbacks.
pub struct CountingVisitor {
    pub count: usize,
}

impl NodeVisitor for CountingVisitor {
    open spec fn inv(&self) -> bool {
        true
    }

    open spec fn step(pre: Self, node: Node, depth: int, path: Seq<String>, post: Self) -> bool {
        post.count == if pre.count < usize::MAX {
            pre.count + 1
        } else {
            pre.count as int
        }
    }

    fn visit_node(&mut self, node: &Node, depth: usize, path: &Vec<String>) {
        if self.count < usize::MAX {
            self.count = self.count + 1;
        }
    }
}


/// The number of nodes in a subtree.
pub open spec fn node_count(n: Node) -> int
    decreases n, 1int,
    via node_count_dec
{
    match n.spec_children() {
        Some(cs) => 1 + children_count(cs),
        None => 1,
    }
}

#[via_fn]
proof fn node_count_dec(n: Node) {
    if n.spec_children() is Some {
        lemma_spec_children_decreases(n);
    }
}

pub open spec fn children_count(cs: Seq<Node>) -> int
    decreases cs, 0int,
{
    if cs.len() == 0 {
        0
    } else {
        node_count(cs[0]) + children_count(cs.skip(1))
    }
}

/// A walk of one subtree is pre-order and visits every node exactly
/// once: it produces exactly one event per node, the subtree's root comes
/// first at its own depth, every descendant's event comes after it at a
/// strictly greater depth, and every event's ancestor path extends the
/// path at the root.
pub proof fn lemma_preorder_visits(n: Node, depth: int, path: Seq<String>)
    ensures
        node_events(n, depth, path).len() == node_count(n),
        node_count(n) >= 1,
        node_events(n, depth, path)[0] == (VisitEvent { node: n, depth, path }),
        forall|i: int|
            1 <= i < node_events(n, depth, path).len() ==> (#[trigger] node_events(
                n,
                depth,
                path,
            )[i]).depth > depth,
        forall|i: int|
            0 <= i < node_events(n, depth, path).len() ==> (#[trigger] node_events(
                n,
                depth,
                path,
            )[i]).path.len() >= path.len() && node_events(n, depth, path)[i].path.take(
                path.len() as int,
            ) == path,
    decreases n, 1int,
{
    assert(path.take(path.len() as int) =~= path);
    match n.spec_children() {
        Some(cs) => {
            if cs.len() > 0 {
                lemma_spec_children_decreases(n);
                let inner = path.push(n.base.name);
                lemma_children_preorder(cs, depth + 1, inner);
                assert(inner.take(path.len() as int) =~= path);
                let evs = node_events(n, depth, path);
                let ces = children_events(cs, depth + 1, inner);
                assert forall|i: int|
                    0 <= i < evs.len() implies (#[trigger] evs[i]).path.len() >= path.len()
                    && evs[i].path.take(path.len() as int) == path by {
                    if i >= 1 {
                        assert(evs[i] == ces[i - 1]);
                        assert(ces[i - 1].path.take(inner.len() as int) == inner);
                        assert(ces[i - 1].path.take(inner.len() as int).take(path.len() as int)
                            =~= ces[i - 1].path.take(path.len() as int));
                    }
                }
            }
        },
        None => {},
    }
}

/// A walk of a list of subtrees produces one event per node; every event
/// sits at this depth or deeper, under this path.
pub proof fn lemma_children_preorder(cs: Seq<Node>, depth: int, path: Seq<String>)
    ensures
        children_events(cs, depth, path).len() == children_count(cs),
        children_count(cs) >= 0,
        forall|i: int|
            0 <= i < children_events(cs, depth, path).len() ==> (#[trigger] children_events(
                cs,
                depth,
                path,
            )[i]).depth >= depth,
        forall|i: int|
            0 <= i < children_events(cs, depth, path).len() ==> (#[trigger] children_events(
                cs,
                depth,
                path,
            )[i]).path.len() >= path.len() && children_events(cs, depth, path)[i].path.take(
                path.len() as int,
            ) == path,
    decreases cs, 0int,
{
    if cs.len() > 0 {
        lemma_preorder_visits(cs[0], depth, path);
        lemma_children_preorder(cs.skip(1), depth, path);
        let evs = children_events(cs, depth, path);
        let head = node_events(cs[0], depth, path);
        let rest = children_events(cs.skip(1), depth, path);
        assert forall|i: int| 0 <= i < evs.len() implies (#[trigger] evs[i]).depth >= depth by {
            if i < head.len() {
                assert(evs[i] == head[i]);
            } else {
                assert(evs[i] == rest[i - head.len()]);
            }
        }
        assert forall|i: int|
            0 <= i < evs.len() implies (#[trigger] evs[i]).path.len() >= path.len()
            && evs[i].path.take(path.len() as int) == path by {
            if i < head.len() {
                assert(evs[i] == head[i]);
            } else {
                assert(evs[i] == rest[i - head.len()]);
            }
        }
    }
}

/// A full document walk visits every reachable node exactly once, and
/// every event's ancestor path starts with the document's own name.
pub proof fn lemma_doc_walk_visits_all(doc: Document)
    ensures
        doc_events(doc).len() == children_count(doc.children@),
        forall|k: int|
            0 <= k < doc_events(doc).len() ==> (#[trigger] doc_events(doc)[k]).path.len() >= 1
                && doc_events(doc)[k].path[0] == doc.name,
{
    lemma_children_preorder(doc.children@, 1, seq![doc.name]);
    assert forall|k: int|
        0 <= k < doc_events(doc).len() implies (#[trigger] doc_events(doc)[k]).path.len() >= 1
        && doc_events(doc)[k].path[0] == doc.name by {
        let p = doc_events(doc)[k].path;
        assert(p.take(1)[0] == p[0]);
    }
}


/// A subtree's height never exceeds its node count.
pub proof fn lemma_height_le_count(n: Node)
    ensures
        node_height(n) <= node_count(n),
    decreases n, 1int,
{
    lemma_heights_nonneg(n);
    if n.spec_children() is Some {
        lemma_spec_children_decreases(n);
        lemma_children_height_le_count(n.spec_children().unwrap());
    }
}

pub proof fn lemma_children_height_le_count(cs: Seq<Node>)
    ensures
        children_height(cs) <= children_count(cs),
        children_count(cs) >= 0,
    decreases cs, 0int,
{
    if cs.len() > 0 {
        lemma_height_le_count(cs[0]);
        lemma_children_height_le_count(cs.skip(1));
        lemma_heights_nonneg(cs[0]);
        lemma_children_heights_nonneg(cs.skip(1));
    }
}

/// Every prefix counts at most as much as the whole list.
proof fn lemma_children_count_take_le(cs: Seq<Node>, k: int)
    requires
        0 <= k <= cs.len(),
    ensures
        children_count(cs.take(k)) <= children_count(cs),
    decreases cs.len() - k,
{
    if k == cs.len() {
        assert(cs.take(k) =~= cs);
    } else {
        lemma_children_count_take_le(cs, k + 1);
        lemma_children_count_take_step(cs, k);
        lemma_heights_nonneg(cs[k]);
        lemma_height_le_count(cs[k]);
    }
}

/// Count the nodes of these subtrees; `None` exactly when the count does
/// not fit in a machine word.
pub fn count_nodes_checked(nodes: &Vec<Node>) -> (r: Option<usize>)
    ensures
        r matches Some(c) ==> c == children_count(nodes@),
        r is None ==> children_count(nodes@) >= usize::MAX,
    decreases nodes@,
{
    let n = nodes.len();
    let mut count: usize = 0;
    let mut i: usize = 0;
    proof {
        assert(nodes@.take(0) =~= Seq::<Node>::empty());
    }
    while i < n
        invariant
            0 <= i <= n,
            n == nodes@.len(),
            count == children_count(nodes@.take(i as int)),
        decreases n - i,
    {
        proof {
            lemma_children_count_take_step(nodes@, i as int);
            assert(decreases_to!(nodes@ => nodes@[i as int]));
        }
        let node = &nodes[i];
        let below: usize = match node.children() {
            Some(children) => {
                proof {
                    lemma_spec_children_decreases(*node);
                }
                match count_nodes_checked(children) {
                    Some(c) => c,
                    None => {
                        proof {
                            lemma_node_count_le_children(nodes@, i as int);
                        }
                        return None;
                    },
                }
            },
            None => 0,
        };
        if below >= usize::MAX || count > usize::MAX - below - 1 {
            proof {
                lemma_node_count_le_children(nodes@, i as int);
                lemma_children_count_take_step(nodes@, i as int);
                lemma_children_count_take_le(nodes@, i + 1);
            }
            return None;
        }
        count = count + 1 + below;
        i = i + 1;
    }
    proof {
        assert(nodes@.take(n as int) =~= nodes@);
    }
    Some(count)
}

proof fn lemma_children_count_take_step(cs: Seq<Node>, i: int)
    requires
        0 <= i < cs.len(),
    ensures
        children_count(cs.take(i + 1)) == children_count(cs.take(i)) + node_count(cs[i]),
    decreases i,
{
    reveal_with_fuel(children_count, 3);
    if i == 0 {
        assert(cs.take(1)[0] == cs[0]);
        assert(cs.take(1).skip(1) =~= Seq::<Node>::empty());
        assert(cs.take(0) =~= Seq::<Node>::empty());
    } else {
        lemma_children_count_take_step(cs.skip(1), i - 1);
        assert(cs.take(i + 1).skip(1) =~= cs.skip(1).take(i));
        assert(cs.take(i).skip(1) =~= cs.skip(1).take(i - 1));
        assert(cs.take(i + 1)[0] == cs[0]);
        assert(cs.take(i)[0] == cs[0]);
        assert(cs.skip(1)[i - 1] == cs[i]);
    }
}

/// One node's count is at most the whole list's count.
pub proof fn lemma_node_count_le_children(cs: Seq<Node>, i: int)
    requires
        0 <= i < cs.len(),
    ensures
        node_count(cs[i]) <= children_count(cs),
    decreases i,
{
    lemma_children_height_le_count(cs);
    if i == 0 {
        lemma_children_height_le_count(cs.skip(1));
    } else {
        lemma_node_count_le_children(cs.skip(1), i - 1);
        assert(cs.skip(1)[i - 1] == cs[i]);
        lemma_height_le_count(cs[0]);
        lemma_heights_nonneg(cs[0]);
    }
}

} // verus!
