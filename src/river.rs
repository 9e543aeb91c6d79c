use vstd::prelude::*;

verus! {

broadcast use vstd::std_specs::vec::group_vec_axioms;

/// Parameters of River types.
#[derive(Clone, Copy, Debug, PartialEq, Eq)]
pub struct RiverParameters {
    /// N: number of elements per handshake.
    pub elements: Option<usize>,
    /// C: complexity level.
    pub complexity: Option<usize>,
    /// U: number of user bits.
    pub userbits: Option<usize>,
}

impl Default for RiverParameters {
    /// All three parameters unspecified.
    fn default() -> (r: Self)
        ensures
            r == RiverParameters::unspecified(),
    {
        RiverParameters { elements: None, complexity: None, userbits: None }
    }
}

impl RiverParameters {
    /// The parameters of a type written without any.
    pub open spec fn unspecified() -> RiverParameters {
        RiverParameters { elements: None, complexity: None, userbits: None }
    }
}

/// River types.
#[derive(Debug, PartialEq)]
pub enum River {
    /// Bits<b>
    Bits(usize),
    /// Root<T, N, C, U>
    Root(Box<River>, RiverParameters),
    /// Group<T, U, ...>
    Group(Vec<River>),
    /// Dim<T, N, C, U>
    Dim(Box<River>, RiverParameters),
    /// New<T, N, C, U>
    New(Box<River>, RiverParameters),
    /// Rev<T, N, C, U>
    Rev(Box<River>, RiverParameters),
    /// Union<T, U, ...>
    Union(Vec<River>),
}

/// The mathematical value of a `River`: the same tree, with the children of
/// `Group` and `Union` as a sequence.
pub enum RiverView {
    Bits(usize),
    Root(Box<RiverView>, RiverParameters),
    Group(Seq<RiverView>),
    Dim(Box<RiverView>, RiverParameters),
    New(Box<RiverView>, RiverParameters),
    Rev(Box<RiverView>, RiverParameters),
    Union(Seq<RiverView>),
}

/// The variant of a River type, without what it holds.
#[derive(Clone, Copy, Debug, PartialEq, Eq, Structural)]
pub enum Kind {
    Bits,
    Root,
    Group,
    Dim,
    New,
    Rev,
    Union,
}

impl RiverView {
    pub open spec fn kind(self) -> Kind {
        match self {
            RiverView::Bits(_) => Kind::Bits,
            RiverView::Root(_, _) => Kind::Root,
            RiverView::Group(_) => Kind::Group,
            RiverView::Dim(_, _) => Kind::Dim,
            RiverView::New(_, _) => Kind::New,
            RiverView::Rev(_, _) => Kind::Rev,
            RiverView::Union(_) => Kind::Union,
        }
    }

    /// A single-child form of kind `k` (`Root`, `Dim`, `New` or `Rev`).
    pub open spec fn wrap(k: Kind, child: RiverView, params: RiverParameters) -> RiverView {
        match k {
            Kind::Root => RiverView::Root(Box::new(child), params),
            Kind::Dim => RiverView::Dim(Box::new(child), params),
            Kind::New => RiverView::New(Box::new(child), params),
            _ => RiverView::Rev(Box::new(child), params),
        }
    }

    /// A composite form of kind `k` (`Group` or `Union`).
    pub open spec fn composite(k: Kind, children: Seq<RiverView>) -> RiverView {
        match k {
            Kind::Group => RiverView::Group(children),
            _ => RiverView::Union(children),
        }
    }
}

/// Number of nodes of a tree.
pub open spec fn size(t: RiverView) -> nat
    decreases t,
{
    match t {
        RiverView::Bits(_) => 1,
        RiverView::Root(c, _) => 1 + size(*c),
        RiverView::Group(cs) => 1 + sizes(cs),
        RiverView::Dim(c, _) => 1 + size(*c),
        RiverView::New(c, _) => 1 + size(*c),
        RiverView::Rev(c, _) => 1 + size(*c),
        RiverView::Union(cs) => 1 + sizes(cs),
    }
}

/// Number of nodes of a sequence of trees.
pub open spec fn sizes(ts: Seq<RiverView>) -> nat
    decreases ts,
{
    if ts.len() == 0 {
        0
    } else {
        sizes(ts.subrange(0, ts.len() - 1)) + size(ts[ts.len() - 1])
    }
}

/// How deep a tree nests: 1 for `Bits`, one more than its deepest child
/// for the other forms.
pub open spec fn height(t: RiverView) -> nat
    decreases t,
{
    match t {
        RiverView::Bits(_) => 1,
        RiverView::Root(c, _) => 1 + height(*c),
        RiverView::Group(cs) => 1 + heights(cs),
        RiverView::Dim(c, _) => 1 + height(*c),
        RiverView::New(c, _) => 1 + height(*c),
        RiverView::Rev(c, _) => 1 + height(*c),
        RiverView::Union(cs) => 1 + heights(cs),
    }
}

/// The greatest height among the trees `cs`, 0 where there is none.
pub open spec fn heights(cs: Seq<RiverView>) -> nat
    decreases cs,
{
    if cs.len() == 0 {
        0
    } else {
        let a = height(cs[0]);
        let b = heights(cs.subrange(1, cs.len() as int));
        if a >= b {
            a
        } else {
            b
        }
    }
}

pub open spec fn view_of(r: River) -> RiverView
    decreases r,
{
    match r {
        River::Bits(b) => RiverView::Bits(b),
        River::Root(c, p) => RiverView::Root(Box::new(view_of(*c)), p),
        River::Group(cs) => RiverView::Group(views_of(cs@)),
        River::Dim(c, p) => RiverView::Dim(Box::new(view_of(*c)), p),
        River::New(c, p) => RiverView::New(Box::new(view_of(*c)), p),
        River::Rev(c, p) => RiverView::Rev(Box::new(view_of(*c)), p),
        River::Union(cs) => RiverView::Union(views_of(cs@)),
    }
}

pub open spec fn views_of(rs: Seq<River>) -> Seq<RiverView>
    decreases rs,
{
    if rs.len() == 0 {
        Seq::empty()
    } else {
        views_of(rs.subrange(0, rs.len() - 1)).push(view_of(rs[rs.len() - 1]))
    }
}

impl View for River {
    type V = RiverView;

    open spec fn view(&self) -> RiverView {
        view_of(*self)
    }
}

proof fn lemma_views_of(rs: Seq<River>)
    ensures
        views_of(rs).len() == rs.len(),
        forall|k: int| 0 <= k < rs.len() ==> #[trigger] views_of(rs)[k] == view_of(rs[k]),
    decreases rs.len(),
{
    if rs.len() > 0 {
        lemma_views_of(rs.subrange(0, rs.len() - 1));
    }
}

// ---------------------------------------------------------------------------
// The graph of a River type.
//
// Each node is known by its position in the tree in pre-order: the root of a
// tree at `id` has `id`, its first child `id + 1`, the next child `id + 1`
// plus the size of the first, and so on. Two equal subtrees at different
// places thus get different identities.
// ---------------------------------------------------------------------------

/// What a node shows: its variant and what it holds besides children.
#[derive(Clone, Copy, Debug, PartialEq, Eq)]
pub enum Label {
    Bits(usize),
    Root(RiverParameters),
    Group,
    Dim(RiverParameters),
    New(RiverParameters),
    Rev(RiverParameters),
    Union,
}

/// One statement of the node part of a graph.
#[derive(Clone, Copy, Debug, PartialEq, Eq)]
pub enum Stmt {
    /// The declaration of node `id` with its label.
    Node(usize, Label),
    /// The start of the cluster around the child of node `id`; `true` for a
    /// dotted boundary, `false` for a solid one.
    Open(usize, bool),
    /// The end of the innermost open cluster.
    Close,
}

pub open spec fn label_of(t: RiverView) -> Label {
    match t {
        RiverView::Bits(b) => Label::Bits(b),
        RiverView::Root(_, p) => Label::Root(p),
        RiverView::Group(_) => Label::Group,
        RiverView::Dim(_, p) => Label::Dim(p),
        RiverView::New(_, p) => Label::New(p),
        RiverView::Rev(_, p) => Label::Rev(p),
        RiverView::Union(_) => Label::Union,
    }
}

/// The cluster around a child that restarts or adds a dimension is dotted.
pub open spec fn dotted(child: RiverView) -> bool {
    child is New || child is Dim
}

/// The cluster statements of a single-child node `id` around its child.
pub open spec fn clustered(id: int, child: RiverView) -> Seq<Stmt>
    decreases child, 1int,
{
    seq![Stmt::Open(id as usize, dotted(child))] + nodes_of(child, id + 1) + seq![Stmt::Close]
}

/// The node statements of the tree `t` whose root is node `id`: the root
/// first; the child of `Root`, `Dim`, `New` and `Rev` inside a cluster; the
/// children of `Group` and `Union` that are not `New` before those that are.
pub open spec fn nodes_of(t: RiverView, id: int) -> Seq<Stmt>
    decreases t, 0int,
{
    let head = seq![Stmt::Node(id as usize, label_of(t))];
    match t {
        RiverView::Bits(_) => head,
        RiverView::Root(c, _) => head + clustered(id, *c),
        RiverView::Dim(c, _) => head + clustered(id, *c),
        RiverView::New(c, _) => head + clustered(id, *c),
        RiverView::Rev(c, _) => head + clustered(id, *c),
        RiverView::Group(cs) => head + group_nodes(cs, id + 1, false) + group_nodes(cs, id + 1, true),
        RiverView::Union(cs) => head + group_nodes(cs, id + 1, false) + group_nodes(cs, id + 1, true),
    }
}

/// The node statements of those of the trees `cs` (the first at node `id`)
/// that are `New` exactly when `late` is, in order.
pub open spec fn group_nodes(cs: Seq<RiverView>, id: int, late: bool) -> Seq<Stmt>
    decreases cs, 0int,
{
    if cs.len() == 0 {
        Seq::empty()
    } else {
        let pre = cs.subrange(0, cs.len() - 1);
        let last = cs[cs.len() - 1];
        group_nodes(pre, id, late) + if (last is New) == late {
            nodes_of(last, id + sizes(pre))
        } else {
            Seq::empty()
        }
    }
}

/// The edges of the tree `t` whose root is node `id`, each from a parent to a
/// child, in pre-order of the child.
pub open spec fn edges_of(t: RiverView, id: int) -> Seq<(usize, usize)>
    decreases t,
{
    match t {
        RiverView::Bits(_) => Seq::empty(),
        RiverView::Root(c, _) => seq![(id as usize, (id + 1) as usize)] + edges_of(*c, id + 1),
        RiverView::Dim(c, _) => seq![(id as usize, (id + 1) as usize)] + edges_of(*c, id + 1),
        RiverView::New(c, _) => seq![(id as usize, (id + 1) as usize)] + edges_of(*c, id + 1),
        RiverView::Rev(c, _) => seq![(id as usize, (id + 1) as usize)] + edges_of(*c, id + 1),
        RiverView::Group(cs) => group_edges(cs, id, id + 1),
        RiverView::Union(cs) => group_edges(cs, id, id + 1),
    }
}

/// The edges from `parent` to each of the trees `cs` (the first at node
/// `id`), each followed by the edges inside that tree.
pub open spec fn group_edges(cs: Seq<RiverView>, parent: int, id: int) -> Seq<(usize, usize)>
    decreases cs,
{
    if cs.len() == 0 {
        Seq::empty()
    } else {
        let pre = cs.subrange(0, cs.len() - 1);
        let at = id + sizes(pre);
        group_edges(pre, parent, id) + seq![(parent as usize, at as usize)] + edges_of(
            cs[cs.len() - 1],
            at,
        )
    }
}

pub proof fn lemma_sizes_prefix(ts: Seq<RiverView>, k: int)
    requires
        0 <= k <= ts.len(),
    ensures
        sizes(ts.subrange(0, k)) <= sizes(ts),
    decreases ts.len(),
{
    if k == ts.len() {
        assert(ts.subrange(0, k) =~= ts);
    } else {
        let pre = ts.subrange(0, ts.len() - 1);
        lemma_sizes_prefix(pre, k);
        assert(pre.subrange(0, k) =~= ts.subrange(0, k));
    }
}

/// Unfolds the sequence functions one element further.
proof fn lemma_prefix_step(ts: Seq<RiverView>, k: int)
    requires
        0 <= k < ts.len(),
    ensures
        ts.subrange(0, k + 1).subrange(0, k) == ts.subrange(0, k),
        ts.subrange(0, k + 1)[k] == ts[k],
        sizes(ts.subrange(0, k + 1)) == sizes(ts.subrange(0, k)) + size(ts[k]),
        sizes(ts.subrange(0, k + 1)) <= sizes(ts),
{
    assert(ts.subrange(0, k + 1).subrange(0, k) =~= ts.subrange(0, k));
    lemma_sizes_prefix(ts, k + 1);
}

impl River {
    pub fn kind(&self) -> (r: Kind)
        ensures
            r == self@.kind(),
    {
        match self {
            River::Bits(_) => Kind::Bits,
            River::Root(_, _) => Kind::Root,
            River::Group(_) => Kind::Group,
            River::Dim(_, _) => Kind::Dim,
            River::New(_, _) => Kind::New,
            River::Rev(_, _) => Kind::Rev,
            River::Union(_) => Kind::Union,
        }
    }

    pub fn label(&self) -> (r: Label)
        ensures
            r == label_of(self@),
    {
        match self {
            River::Bits(b) => Label::Bits(*b),
            River::Root(_, p) => Label::Root(*p),
            River::Group(_) => Label::Group,
            River::Dim(_, p) => Label::Dim(*p),
            River::New(_, p) => Label::New(*p),
            River::Rev(_, p) => Label::Rev(*p),
            River::Union(_) => Label::Union,
        }
    }

    /// Number of nodes of the tree.
    pub fn node_count(&self) -> (n: usize)
        requires
            size(self@) <= usize::MAX,
        ensures
            n == size(self@),
        decreases self, 0int,
    {
        match self {
            River::Bits(_) => 1,
            River::Root(c, _) => 1 + c.node_count(),
            River::Dim(c, _) => 1 + c.node_count(),
            River::New(c, _) => 1 + c.node_count(),
            River::Rev(c, _) => 1 + c.node_count(),
            River::Group(cs) => 1 + count_nodes(cs),
            River::Union(cs) => 1 + count_nodes(cs),
        }
    }
}

impl River {
    /// Appends the node statements of this tree, whose root is node `id`.
    pub fn write_nodes(&self, id: usize, out: &mut Vec<Stmt>)
        requires
            id + size(self@) <= usize::MAX,
        ensures
            final(out)@ == old(out)@ + nodes_of(self@, id as int),
        decreases self, 0int,
    {
        let ghost pre = out@;
        out.push(Stmt::Node(id, self.label()));
        let ghost head = seq![Stmt::Node(id, label_of(self@))];
        assert(out@ == pre + head);
        match self {
            River::Bits(_) => {},
            River::Root(c, _) => write_cluster(c, id, out),
            River::Dim(c, _) => write_cluster(c, id, out),
            River::New(c, _) => write_cluster(c, id, out),
            River::Rev(c, _) => write_cluster(c, id, out),
            River::Group(cs) => {
                write_group_nodes(cs, id + 1, false, out);
                write_group_nodes(cs, id + 1, true, out);
            },
            River::Union(cs) => {
                write_group_nodes(cs, id + 1, false, out);
                write_group_nodes(cs, id + 1, true, out);
            },
        }
        assert(out@ =~= pre + nodes_of(self@, id as int));
    }

    /// Appends the edges of this tree, whose root is node `id`.
    pub fn write_edges(&self, id: usize, out: &mut Vec<(usize, usize)>)
        requires
            id + size(self@) <= usize::MAX,
        ensures
            final(out)@ == old(out)@ + edges_of(self@, id as int),
        decreases self, 0int,
    {
        let ghost pre = out@;
        match self {
            River::Bits(_) => {},
            River::Root(c, _) => {
                out.push((id, id + 1));
                c.write_edges(id + 1, out);
            },
            River::Dim(c, _) => {
                out.push((id, id + 1));
                c.write_edges(id + 1, out);
            },
            River::New(c, _) => {
                out.push((id, id + 1));
                c.write_edges(id + 1, out);
            },
            River::Rev(c, _) => {
                out.push((id, id + 1));
                c.write_edges(id + 1, out);
            },
            River::Group(cs) => write_group_edges(cs, id, id + 1, out),
            River::Union(cs) => write_group_edges(cs, id, id + 1, out),
        }
        assert(out@ =~= pre + edges_of(self@, id as int));
    }
}

/// Appends the cluster around `child`, the child of node `id`.
fn write_cluster(child: &River, id: usize, out: &mut Vec<Stmt>)
    requires
        id + 1 + size(child@) <= usize::MAX,
    ensures
        final(out)@ == old(out)@ + clustered(id as int, child@),
    decreases child, 1int,
{
    let ghost pre = out@;
    let k = child.kind();
    out.push(Stmt::Open(id, k == Kind::New || k == Kind::Dim));
    child.write_nodes(id + 1, out);
    out.push(Stmt::Close);
    assert(out@ =~= pre + clustered(id as int, child@));
}

/// Appends the node statements of those of the trees `cs` (the first at
/// node `id`) that are `New` exactly when `late` is.
fn write_group_nodes(cs: &Vec<River>, id: usize, late: bool, out: &mut Vec<Stmt>)
    requires
        id + sizes(views_of(cs@)) <= usize::MAX,
    ensures
        final(out)@ == old(out)@ + group_nodes(views_of(cs@), id as int, late),
    decreases cs, 1int,
{
    let ghost pre = out@;
    let ghost ts = views_of(cs@);
    proof {
        lemma_views_of(cs@);
    }
    let mut child = id;
    let mut k: usize = 0;
    assert(out@ =~= pre + group_nodes(ts.subrange(0, 0), id as int, late));
    while k < cs.len()
        invariant
            ts == views_of(cs@),
            ts.len() == cs@.len(),
            forall|m: int| 0 <= m < cs@.len() ==> #[trigger] ts[m] == cs@[m]@,
            id + sizes(ts) <= usize::MAX,
            k <= cs@.len(),
            child == id + sizes(ts.subrange(0, k as int)),
            out@ == pre + group_nodes(ts.subrange(0, k as int), id as int, late),
        decreases cs@.len() - k,
    {
        proof {
            lemma_prefix_step(ts, k as int);
        }
        let ghost before = out@;
        assert(decreases_to!(*cs => cs@[k as int]));
        let c = &cs[k];
        if (c.kind() == Kind::New) == late {
            c.write_nodes(child, out);
        }
        assert(out@ =~= pre + group_nodes(ts.subrange(0, k + 1), id as int, late));
        child = child + c.node_count();
        k += 1;
    }
    assert(ts.subrange(0, k as int) =~= ts);
}

/// Appends the edges from `parent` to each of the trees `cs` (the first at
/// node `id`), each followed by the edges inside that tree.
fn write_group_edges(cs: &Vec<River>, parent: usize, id: usize, out: &mut Vec<(usize, usize)>)
    requires
        id + sizes(views_of(cs@)) <= usize::MAX,
    ensures
        final(out)@ == old(out)@ + group_edges(views_of(cs@), parent as int, id as int),
    decreases cs, 1int,
{
    let ghost pre = out@;
    let ghost ts = views_of(cs@);
    proof {
        lemma_views_of(cs@);
    }
    let mut child = id;
    let mut k: usize = 0;
    assert(out@ =~= pre + group_edges(ts.subrange(0, 0), parent as int, id as int));
    while k < cs.len()
        invariant
            ts == views_of(cs@),
            ts.len() == cs@.len(),
            forall|m: int| 0 <= m < cs@.len() ==> #[trigger] ts[m] == cs@[m]@,
            id + sizes(ts) <= usize::MAX,
            k <= cs@.len(),
            child == id + sizes(ts.subrange(0, k as int)),
            out@ == pre + group_edges(ts.subrange(0, k as int), parent as int, id as int),
        decreases cs@.len() - k,
    {
        proof {
            lemma_prefix_step(ts, k as int);
        }
        assert(decreases_to!(*cs => cs@[k as int]));
        let c = &cs[k];
        out.push((parent, child));
        c.write_edges(child, out);
        assert(out@ =~= pre + group_edges(ts.subrange(0, k + 1), parent as int, id as int));
        child = child + c.node_count();
        k += 1;
    }
    assert(ts.subrange(0, k as int) =~= ts);
}

/// Number of nodes of the trees `cs`.
fn count_nodes(cs: &Vec<River>) -> (n: usize)
    requires
        sizes(views_of(cs@)) <= usize::MAX,
    ensures
        n == sizes(views_of(cs@)),
    decreases cs, 1int,
{
    let ghost ts = views_of(cs@);
    proof {
        lemma_views_of(cs@);
    }
    let mut n: usize = 0;
    let mut k: usize = 0;
    while k < cs.len()
        invariant
            ts == views_of(cs@),
            ts.len() == cs@.len(),
            forall|m: int| 0 <= m < cs@.len() ==> #[trigger] ts[m] == cs@[m]@,
            sizes(ts) <= usize::MAX,
            k <= cs@.len(),
            n == sizes(ts.subrange(0, k as int)),
        decreases cs@.len() - k,
    {
        proof {
            lemma_prefix_step(ts, k as int);
        }
        assert(decreases_to!(*cs => cs@[k as int]));
        n = n + cs[k].node_count();
        k += 1;
    }
    assert(ts.subrange(0, k as int) =~= ts);
    n
}

impl AsRef<River> for River {
    fn as_ref(&self) -> &River {
        self
    }
}

impl Clone for River {
    fn clone(&self) -> (r: River)
        ensures
            r@ == self@,
        decreases self, 0int,
    {
        match self {
            River::Bits(b) => River::Bits(*b),
            River::Root(c, p) => River::Root(Box::new(River::clone(&**c)), *p),
            River::Group(cs) => River::Group(clone_all(cs)),
            River::Dim(c, p) => River::Dim(Box::new(River::clone(&**c)), *p),
            River::New(c, p) => River::New(Box::new(River::clone(&**c)), *p),
            River::Rev(c, p) => River::Rev(Box::new(River::clone(&**c)), *p),
            River::Union(cs) => River::Union(clone_all(cs)),
        }
    }
}

/// A copy of each of the trees `cs`.
fn clone_all(cs: &Vec<River>) -> (r: Vec<River>)
    ensures
        views_of(r@) == views_of(cs@),
    decreases cs, 1int,
{
    let mut out: Vec<River> = Vec::new();
    let mut k: usize = 0;
    while k < cs.len()
        invariant
            k <= cs@.len(),
            views_of(out@) == views_of(cs@.subrange(0, k as int)),
        decreases cs@.len() - k,
    {
        assert(decreases_to!(*cs => cs@[k as int]));
        let x = cs[k].clone();
        proof {
            assert(out@.push(x).subrange(0, out@.len() as int) =~= out@);
            assert(cs@.subrange(0, k + 1).subrange(0, k as int) =~= cs@.subrange(0, k as int));
        }
        out.push(x);
        k += 1;
    }
    assert(cs@.subrange(0, k as int) =~= cs@);
    out
}

} // verus!
