use crate::parser::{parse, parse_spec};
use crate::river::{
    edges_of, nodes_of, size, Label, River, RiverParameters, RiverView, Stmt,
};
use vstd::prelude::*;
use vstd::string::StringExecFns;

verus! {

// ---------------------------------------------------------------------------
// The text of a graph, in the DOT language.
// ---------------------------------------------------------------------------

pub open spec fn digit_char(d: nat) -> char {
    seq!['0', '1', '2', '3', '4', '5', '6', '7', '8', '9'][d as int]
}

/// Decimal digits of `n`, without leading zeros.
pub open spec fn dec(n: nat) -> Seq<char>
    decreases n,
{
    if n < 10 {
        seq![digit_char(n)]
    } else {
        dec(n / 10).push(digit_char(n % 10))
    }
}

/// `N=1`, or `N` where the value is unspecified.
pub open spec fn field_text(name: Seq<char>, v: Option<usize>) -> Seq<char> {
    match v {
        Some(x) => name + "="@ + dec(x as nat),
        None => name,
    }
}

/// `N=1,C=2,U=3`, each unspecified one by its letter alone.
pub open spec fn params_text(p: RiverParameters) -> Seq<char> {
    field_text("N"@, p.elements) + ","@ + field_text("C"@, p.complexity) + ","@ + field_text(
        "U"@,
        p.userbits,
    )
}

pub open spec fn label_text(l: Label) -> Seq<char> {
    match l {
        Label::Bits(b) => "Bits<"@ + dec(b as nat) + ">"@,
        Label::Root(p) => "Root<"@ + params_text(p) + ">"@,
        Label::Group => "Group"@,
        Label::Dim(p) => "Dim<"@ + params_text(p) + ">"@,
        Label::New(p) => "New<"@ + params_text(p) + ">"@,
        Label::Rev(p) => "Rev<"@ + params_text(p) + ">"@,
        Label::Union => "Union"@,
    }
}

/// The fill color of each variant.
pub open spec fn color_of(l: Label) -> Seq<char> {
    match l {
        Label::Bits(_) => "#EE926B"@,
        Label::Root(_) => "#7DBFA7"@,
        Label::Dim(_) => "#DA90C0"@,
        Label::Group => "#90A0C7"@,
        Label::New(_) => "#A6D854"@,
        Label::Union => "#E7C595"@,
        Label::Rev(_) => "#B3B3B3"@,
    }
}

pub open spec fn stmt_text(st: Stmt) -> Seq<char> {
    match st {
        Stmt::Node(id, l) => "\""@ + dec(id as nat) + "\" [style=filled, fillcolor=\""@ + color_of(l)
            + "\", label=\""@ + label_text(l) + "\"]\n"@,
        Stmt::Open(id, dotted) => "subgraph cluster_"@ + dec(id as nat) + " {\n"@ + if dotted {
            "style=\"dotted\"\n"@
        } else {
            "style=\"solid\"\n"@
        },
        Stmt::Close => "}\n"@,
    }
}

pub open spec fn edge_text(e: (usize, usize)) -> Seq<char> {
    "\""@ + dec(e.0 as nat) + "\" -> \""@ + dec(e.1 as nat) + "\"\n"@
}

pub open spec fn stmts_text(sts: Seq<Stmt>) -> Seq<char>
    decreases sts.len(),
{
    if sts.len() == 0 {
        Seq::empty()
    } else {
        stmts_text(sts.drop_last()) + stmt_text(sts.last())
    }
}

pub open spec fn edges_text(es: Seq<(usize, usize)>) -> Seq<char>
    decreases es.len(),
{
    if es.len() == 0 {
        Seq::empty()
    } else {
        edges_text(es.drop_last()) + edge_text(es.last())
    }
}

pub open spec fn graph_text(nodes: Seq<Stmt>, edges: Seq<(usize, usize)>) -> Seq<char> {
    "digraph {\n"@ + stmts_text(nodes) + edges_text(edges) + "}\n"@
}

/// The graph of the tree `t`, its root being node 0.
pub open spec fn dot_text(t: RiverView) -> Seq<char> {
    graph_text(nodes_of(t, 0), edges_of(t, 0))
}

/// The diagnostic for input that does not match the grammar at `offset`.
pub open spec fn error_text(offset: nat) -> Seq<char> {
    "syntax error at offset "@ + dec(offset)
}

/// What `river_dot` returns for the text `s`.
pub open spec fn river_dot_text(s: Seq<char>) -> Seq<char> {
    match parse_spec(s) {
        Ok(t) => dot_text(t),
        Err(p) => error_text(p as nat),
    }
}

fn digit_str(d: usize) -> (r: &'static str)
    requires
        d < 10,
    ensures
        r@ == seq![digit_char(d as nat)],
{
    proof {
        reveal_strlit("0");
        reveal_strlit("1");
        reveal_strlit("2");
        reveal_strlit("3");
        reveal_strlit("4");
        reveal_strlit("5");
        reveal_strlit("6");
        reveal_strlit("7");
        reveal_strlit("8");
        reveal_strlit("9");
    }
    match d {
        0 => "0",
        1 => "1",
        2 => "2",
        3 => "3",
        4 => "4",
        5 => "5",
        6 => "6",
        7 => "7",
        8 => "8",
        _ => "9",
    }
}

fn push_decimal(out: &mut String, n: usize)
    ensures
        final(out)@ == old(out)@ + dec(n as nat),
    decreases n,
{
    let ghost pre = out@;
    if n >= 10 {
        push_decimal(out, n / 10);
    }
    out.append(digit_str(n % 10));
    assert(out@ =~= pre + dec(n as nat));
}

fn push_field(out: &mut String, name: &str, v: Option<usize>)
    ensures
        final(out)@ == old(out)@ + field_text(name@, v),
{
    let ghost pre = out@;
    out.append(name);
    if let Some(x) = v {
        out.append("=");
        push_decimal(out, x);
    }
    assert(out@ =~= pre + field_text(name@, v));
}

fn push_params(out: &mut String, p: &RiverParameters)
    ensures
        final(out)@ == old(out)@ + params_text(*p),
{
    let ghost pre = out@;
    push_field(out, "N", p.elements);
    out.append(",");
    push_field(out, "C", p.complexity);
    out.append(",");
    push_field(out, "U", p.userbits);
    assert(out@ =~= pre + params_text(*p));
}

fn push_label(out: &mut String, l: &Label)
    ensures
        final(out)@ == old(out)@ + label_text(*l),
{
    let ghost pre = out@;
    match l {
        Label::Bits(b) => {
            out.append("Bits<");
            push_decimal(out, *b);
            out.append(">");
        },
        Label::Root(p) => {
            out.append("Root<");
            push_params(out, p);
            out.append(">");
        },
        Label::Group => out.append("Group"),
        Label::Dim(p) => {
            out.append("Dim<");
            push_params(out, p);
            out.append(">");
        },
        Label::New(p) => {
            out.append("New<");
            push_params(out, p);
            out.append(">");
        },
        Label::Rev(p) => {
            out.append("Rev<");
            push_params(out, p);
            out.append(">");
        },
        Label::Union => out.append("Union"),
    }
    assert(out@ =~= pre + label_text(*l));
}

impl Label {
    /// The fill color of the node.
    pub fn color(&self) -> (r: &'static str)
        ensures
            r@ == color_of(*self),
    {
        match self {
            Label::Bits(_) => "#EE926B",
            Label::Root(_) => "#7DBFA7",
            Label::Dim(_) => "#DA90C0",
            Label::Group => "#90A0C7",
            Label::New(_) => "#A6D854",
            Label::Union => "#E7C595",
            Label::Rev(_) => "#B3B3B3",
        }
    }
}

impl RiverParameters {
    /// `N=1,C=2,U=3`, each unspecified parameter by its letter alone.
    pub fn to_string(&self) -> (r: String)
        ensures
            r@ == params_text(*self),
    {
        let mut out = String::new();
        push_params(&mut out, self);
        out
    }
}

impl River {
    /// The label of the root node: the variant with its width or parameters.
    pub fn to_string(&self) -> (r: String)
        ensures
            r@ == label_text(crate::river::label_of(self@)),
    {
        let mut out = String::new();
        push_label(&mut out, &self.label());
        out
    }

    /// The fill color of the root node.
    pub fn color(&self) -> (r: &'static str)
        ensures
            r@ == color_of(crate::river::label_of(self@)),
    {
        self.label().color()
    }

    /// The declaration of the root node, as node `id`.
    pub fn as_node(&self, id: usize) -> (r: String)
        ensures
            r@ == stmt_text(Stmt::Node(id, crate::river::label_of(self@))),
    {
        let mut out = String::new();
        push_stmt(&mut out, &Stmt::Node(id, self.label()));
        out
    }

    /// The edge from node `from` to node `to`.
    pub fn edge(from: usize, to: usize) -> (r: String)
        ensures
            r@ == edge_text((from, to)),
    {
        let mut out = String::new();
        push_edge(&mut out, (from, to));
        out
    }
}

fn push_stmt(out: &mut String, st: &Stmt)
    ensures
        final(out)@ == old(out)@ + stmt_text(*st),
{
    let ghost pre = out@;
    match st {
        Stmt::Node(id, l) => {
            out.append("\"");
            push_decimal(out, *id);
            out.append("\" [style=filled, fillcolor=\"");
            out.append(l.color());
            out.append("\", label=\"");
            push_label(out, l);
            out.append("\"]\n");
        },
        Stmt::Open(id, dotted) => {
            out.append("subgraph cluster_");
            push_decimal(out, *id);
            out.append(" {\n");
            if *dotted {
                out.append("style=\"dotted\"\n");
            } else {
                out.append("style=\"solid\"\n");
            }
        },
        Stmt::Close => out.append("}\n"),
    }
    assert(out@ =~= pre + stmt_text(*st));
}

fn push_edge(out: &mut String, e: (usize, usize))
    ensures
        final(out)@ == old(out)@ + edge_text(e),
{
    let ghost pre = out@;
    out.append("\"");
    push_decimal(out, e.0);
    out.append("\" -> \"");
    push_decimal(out, e.1);
    out.append("\"\n");
    assert(out@ =~= pre + edge_text(e));
}

/// The graph of a River type: its node statements and its edges.
pub struct DotGraph {
    pub nodes: Vec<Stmt>,
    pub edges: Vec<(usize, usize)>,
}

impl DotGraph {
    /// The graph of `river`, whose root is node 0.
    pub fn from(river: &River) -> (g: DotGraph)
        requires
            size(river@) <= usize::MAX,
        ensures
            g.nodes@ == nodes_of(river@, 0),
            g.edges@ == edges_of(river@, 0),
    {
        let mut nodes: Vec<Stmt> = Vec::new();
        river.write_nodes(0, &mut nodes);
        let mut edges: Vec<(usize, usize)> = Vec::new();
        river.write_edges(0, &mut edges);
        assert(nodes@ =~= nodes_of(river@, 0));
        assert(edges@ =~= edges_of(river@, 0));
        DotGraph { nodes, edges }
    }

    /// The text of the graph: the node statements, then the edges.
    pub fn to_string(&self) -> (r: String)
        ensures
            r@ == graph_text(self.nodes@, self.edges@),
    {
        let mut out = String::new();
        out.append("digraph {\n");
        let ghost start = out@;
        let mut k: usize = 0;
        while k < self.nodes.len()
            invariant
                k <= self.nodes@.len(),
                out@ == start + stmts_text(self.nodes@.subrange(0, k as int)),
            decreases self.nodes@.len() - k,
        {
            assert(self.nodes@.subrange(0, k + 1).drop_last() =~= self.nodes@.subrange(0, k as int));
            push_stmt(&mut out, &self.nodes[k]);
            k += 1;
        }
        assert(self.nodes@.subrange(0, k as int) =~= self.nodes@);
        let ghost mid = out@;
        let mut k: usize = 0;
        while k < self.edges.len()
            invariant
                k <= self.edges@.len(),
                out@ == mid + edges_text(self.edges@.subrange(0, k as int)),
            decreases self.edges@.len() - k,
        {
            assert(self.edges@.subrange(0, k + 1).drop_last() =~= self.edges@.subrange(0, k as int));
            push_edge(&mut out, self.edges[k]);
            k += 1;
        }
        assert(self.edges@.subrange(0, k as int) =~= self.edges@);
        out.append("}\n");
        assert(out@ =~= graph_text(self.nodes@, self.edges@));
        out
    }
}

/// Parses `input` as one River type and renders its graph; where it does not
/// parse, a diagnostic with the offset at which it stops matching.
pub fn river_dot(input: String) -> (r: String)
    ensures
        r@ == river_dot_text(input@),
{
    match parse(input.as_str()) {
        Ok(river) => DotGraph::from(&river).to_string(),
        Err(e) => {
            let mut out = String::new();
            out.append("syntax error at offset ");
            push_decimal(&mut out, e.offset);
            out
        },
    }
}

} // verus!
