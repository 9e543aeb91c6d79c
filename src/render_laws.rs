use crate::river::{
    clustered, edges_of, group_edges, group_nodes, lemma_sizes_prefix, nodes_of, size, sizes,
    RiverView, Stmt,
};
use vstd::prelude::*;

verus! {

/// How many statements of `sts` declare node `k`.
pub open spec fn node_count_in(sts: Seq<Stmt>, k: int) -> nat
    decreases sts.len(),
{
    if sts.len() == 0 {
        0
    } else {
        node_count_in(sts.drop_last(), k) + if sts.last() matches Stmt::Node(j, _) && j as int
            == k {
            1nat
        } else {
            0nat
        }
    }
}

pub open spec fn one_if(b: bool) -> nat {
    if b {
        1
    } else {
        0
    }
}

proof fn lemma_count_concat(a: Seq<Stmt>, b: Seq<Stmt>, k: int)
    ensures
        node_count_in(a + b, k) == node_count_in(a, k) + node_count_in(b, k),
    decreases b.len(),
{
    if b.len() == 0 {
        assert(a + b =~= a);
    } else {
        lemma_count_concat(a, b.drop_last(), k);
        assert((a + b).drop_last() =~= a + b.drop_last());
    }
}

proof fn lemma_count_at(sts: Seq<Stmt>, p: int)
    requires
        0 <= p < sts.len(),
        sts[p] is Node,
    ensures
        node_count_in(sts, sts[p]->Node_0 as int) >= 1,
    decreases sts.len(),
{
    if p < sts.len() - 1 {
        lemma_count_at(sts.drop_last(), p);
    }
}

proof fn lemma_count_single(st: Stmt, k: int)
    ensures
        node_count_in(seq![st], k) == one_if(st matches Stmt::Node(j, _) && j as int == k),
{
    assert(seq![st].drop_last() =~= Seq::<Stmt>::empty());
    assert(node_count_in(Seq::<Stmt>::empty(), k) == 0);
}

/// The node statements of a tree whose root is node `id` declare each of the
/// nodes `id .. id + size(t)` exactly once, and no other node.
pub proof fn lemma_nodes_once(t: RiverView, id: int)
    requires
        0 <= id,
        id + size(t) <= usize::MAX,
    ensures
        forall|k: int| #[trigger]
            node_count_in(nodes_of(t, id), k) == one_if(id <= k < id + size(t)),
    decreases t, 1int,
{
    let head = seq![Stmt::Node(id as usize, crate::river::label_of(t))];
    assert forall|k: int| #[trigger]
        node_count_in(nodes_of(t, id), k) == one_if(id <= k < id + size(t)) by {
        lemma_count_single(head[0], k);
        assert(head =~= seq![head[0]]);
        match t {
            RiverView::Bits(_) => {},
            RiverView::Root(c, _) => {
                lemma_cluster_once(*c, id, k);
                lemma_count_concat(head, clustered(id, *c), k);
            },
            RiverView::Dim(c, _) => {
                lemma_cluster_once(*c, id, k);
                lemma_count_concat(head, clustered(id, *c), k);
            },
            RiverView::New(c, _) => {
                lemma_cluster_once(*c, id, k);
                lemma_count_concat(head, clustered(id, *c), k);
            },
            RiverView::Rev(c, _) => {
                lemma_cluster_once(*c, id, k);
                lemma_count_concat(head, clustered(id, *c), k);
            },
            RiverView::Group(cs) => lemma_composite_once(head, cs, id, k),
            RiverView::Union(cs) => lemma_composite_once(head, cs, id, k),
        }
    }
}

proof fn lemma_cluster_once(c: RiverView, id: int, k: int)
    requires
        0 <= id,
        id + 1 + size(c) <= usize::MAX,
    ensures
        node_count_in(clustered(id, c), k) == one_if(id + 1 <= k < id + 1 + size(c)),
    decreases c, 2int,
{
    lemma_nodes_once(c, id + 1);
    let open = seq![Stmt::Open(id as usize, crate::river::dotted(c))];
    let close = seq![Stmt::Close];
    lemma_count_single(open[0], k);
    lemma_count_single(close[0], k);
    assert(open =~= seq![open[0]]);
    assert(close =~= seq![close[0]]);
    lemma_count_concat(open, nodes_of(c, id + 1), k);
    lemma_count_concat(open + nodes_of(c, id + 1), close, k);
}

proof fn lemma_composite_once(head: Seq<Stmt>, cs: Seq<RiverView>, id: int, k: int)
    requires
        0 <= id,
        id + 1 + sizes(cs) <= usize::MAX,
    ensures
        node_count_in(head + group_nodes(cs, id + 1, false) + group_nodes(cs, id + 1, true), k)
            == node_count_in(head, k) + one_if(id + 1 <= k < id + 1 + sizes(cs)),
    decreases cs, 2int,
{
    lemma_group_once(cs, id + 1, k);
    lemma_count_concat(head, group_nodes(cs, id + 1, false), k);
    lemma_count_concat(head + group_nodes(cs, id + 1, false), group_nodes(cs, id + 1, true), k);
}

/// Each node of the trees `cs` (the first at node `id`) is declared once by
/// the statements of its non-`New` or of its `New` siblings, not by both.
proof fn lemma_group_once(cs: Seq<RiverView>, id: int, k: int)
    requires
        0 <= id,
        id + sizes(cs) <= usize::MAX,
    ensures
        node_count_in(group_nodes(cs, id, false), k) + node_count_in(group_nodes(cs, id, true), k)
            == one_if(id <= k < id + sizes(cs)),
    decreases cs, 1int,
{
    if cs.len() > 0 {
        let pre = cs.subrange(0, cs.len() - 1);
        let last = cs[cs.len() - 1];
        let off = id + sizes(pre);
        lemma_group_once(pre, id, k);
        lemma_nodes_once(last, off);
        lemma_count_concat(group_nodes(pre, id, false), nodes_of(last, off), k);
        lemma_count_concat(group_nodes(pre, id, true), nodes_of(last, off), k);
        lemma_count_concat(group_nodes(pre, id, false), Seq::empty(), k);
        lemma_count_concat(group_nodes(pre, id, true), Seq::empty(), k);
    }
}

/// The edges of a tree whose root is node `id`: one into each node of the
/// tree but its root, in the order `id + 1, id + 2, ...`, each from a node of
/// the tree that comes before the node it leads to.
pub proof fn lemma_edges_once(t: RiverView, id: int)
    requires
        0 <= id,
        id + size(t) <= usize::MAX,
    ensures
        edges_of(t, id).len() + 1 == size(t),
        forall|j: int|
            0 <= j < edges_of(t, id).len() ==> {
                let e = #[trigger] edges_of(t, id)[j];
                &&& e.1 as int == id + 1 + j
                &&& id <= e.0 < e.1
            },
    decreases t, 1int,
{
    match t {
        RiverView::Bits(_) => {},
        RiverView::Root(c, _) => lemma_edges_once(*c, id + 1),
        RiverView::Dim(c, _) => lemma_edges_once(*c, id + 1),
        RiverView::New(c, _) => lemma_edges_once(*c, id + 1),
        RiverView::Rev(c, _) => lemma_edges_once(*c, id + 1),
        RiverView::Group(cs) => lemma_group_edges(cs, id, id + 1),
        RiverView::Union(cs) => lemma_group_edges(cs, id, id + 1),
    }
}

proof fn lemma_group_edges(cs: Seq<RiverView>, parent: int, id: int)
    requires
        0 <= parent < id,
        id + sizes(cs) <= usize::MAX,
    ensures
        group_edges(cs, parent, id).len() == sizes(cs),
        forall|j: int|
            0 <= j < group_edges(cs, parent, id).len() ==> {
                let e = #[trigger] group_edges(cs, parent, id)[j];
                &&& e.1 as int == id + j
                &&& parent <= e.0 < e.1
            },
    decreases cs, 0int,
{
    if cs.len() > 0 {
        let pre = cs.subrange(0, cs.len() - 1);
        let last = cs[cs.len() - 1];
        let at = id + sizes(pre);
        lemma_group_edges(pre, parent, id);
        lemma_edges_once(last, at);
    }
}

/// The children of a `Group` or `Union`.
pub open spec fn children(t: RiverView) -> Seq<RiverView> {
    match t {
        RiverView::Group(cs) => cs,
        RiverView::Union(cs) => cs,
        _ => Seq::empty(),
    }
}

/// Node `a` belongs to the `j`-th of the trees `cs`, the first being at node `id`.
pub open spec fn in_child(cs: Seq<RiverView>, id: int, j: int, a: int) -> bool {
    id + sizes(cs.subrange(0, j)) <= a < id + sizes(cs.subrange(0, j + 1))
}

/// A node of the `j`-th of the trees `cs` is declared by the statements of
/// the siblings that are `New` exactly when that tree is.
proof fn lemma_group_split(cs: Seq<RiverView>, id: int, j: int, a: int, late: bool)
    requires
        0 <= id,
        id + sizes(cs) <= usize::MAX,
        0 <= j < cs.len(),
        in_child(cs, id, j, a),
    ensures
        node_count_in(group_nodes(cs, id, late), a) == one_if((cs[j] is New) == late),
    decreases cs.len(),
{
    let pre = cs.subrange(0, cs.len() - 1);
    let last = cs[cs.len() - 1];
    let off = id + sizes(pre);
    lemma_nodes_once(last, off);
    lemma_count_concat(group_nodes(pre, id, late), nodes_of(last, off), a);
    lemma_count_concat(group_nodes(pre, id, late), Seq::empty(), a);
    if j < cs.len() - 1 {
        assert(pre.subrange(0, j) =~= cs.subrange(0, j));
        assert(pre.subrange(0, j + 1) =~= cs.subrange(0, j + 1));
        lemma_sizes_prefix(pre, j + 1);
        lemma_group_split(pre, id, j, a, late);
    } else {
        assert(cs.subrange(0, j) =~= pre);
        assert(cs.subrange(0, j + 1) =~= cs);
        lemma_group_once(pre, id, a);
    }
}

/// In the node statements of a `Group` or `Union` whose root is node `id`,
/// every statement that declares a node of a child that is not `New` comes
/// before every statement that declares a node of a child that is `New`,
/// whatever the order of the children.
pub proof fn lemma_new_children_last(
    t: RiverView,
    id: int,
    pos_a: int,
    child_a: int,
    pos_b: int,
    child_b: int,
)
    requires
        t is Group || t is Union,
        0 <= id,
        id + size(t) <= usize::MAX,
        0 <= child_a < children(t).len(),
        0 <= child_b < children(t).len(),
        !(children(t)[child_a] is New),
        children(t)[child_b] is New,
        0 <= pos_a < nodes_of(t, id).len(),
        0 <= pos_b < nodes_of(t, id).len(),
        nodes_of(t, id)[pos_a] matches Stmt::Node(a, _) && in_child(
            children(t),
            id + 1,
            child_a,
            a as int,
        ),
        nodes_of(t, id)[pos_b] matches Stmt::Node(b, _) && in_child(
            children(t),
            id + 1,
            child_b,
            b as int,
        ),
    ensures
        pos_a < pos_b,
{
    let cs = children(t);
    let head = seq![Stmt::Node(id as usize, crate::river::label_of(t))];
    let early = group_nodes(cs, id + 1, false);
    let late = group_nodes(cs, id + 1, true);
    assert(nodes_of(t, id) == head + early + late);
    let a = nodes_of(t, id)[pos_a]->Node_0 as int;
    let b = nodes_of(t, id)[pos_b]->Node_0 as int;
    lemma_group_split(cs, id + 1, child_a, a, true);
    lemma_group_split(cs, id + 1, child_b, b, false);
    if pos_a >= 1 + early.len() {
        assert(late[pos_a - 1 - early.len()] == nodes_of(t, id)[pos_a]);
        lemma_count_at(late, pos_a - 1 - early.len());
    }
    if pos_b < 1 + early.len() {
        if pos_b >= 1 {
            assert(early[pos_b - 1] == nodes_of(t, id)[pos_b]);
            lemma_count_at(early, pos_b - 1);
        }
    }
}

} // verus!
