use river_lang::parser::{parse, river_type};
use river_lang::river::{Label, River, RiverParameters, Stmt};
use river_lang::visualize::{river_dot, DotGraph};
use river_lang::Data;

fn graph(text: &str) -> DotGraph {
    DotGraph::from(&parse(text).unwrap())
}

#[test]
fn dot() {
    let river = river_type("Root<Bits<3>, 1, 2, 3>")
        .map(|(_, river)| river)
        .unwrap();
    let _: DotGraph = DotGraph::from(&river);
}

#[test]
fn new_children_come_last() {
    let g = graph("Group<New<Bits<1>>, Bits<2>, New<Bits<3>>, Bits<4>>");
    let none = RiverParameters::default();
    assert_eq!(
        g.nodes,
        vec![
            Stmt::Node(0, Label::Group),
            Stmt::Node(3, Label::Bits(2)),
            Stmt::Node(6, Label::Bits(4)),
            Stmt::Node(1, Label::New(none)),
            Stmt::Open(1, false),
            Stmt::Node(2, Label::Bits(1)),
            Stmt::Close,
            Stmt::Node(4, Label::New(none)),
            Stmt::Open(4, false),
            Stmt::Node(5, Label::Bits(3)),
            Stmt::Close,
        ]
    );
    assert_eq!(g.edges, vec![(0, 1), (1, 2), (0, 3), (0, 4), (4, 5), (0, 6)]);
}

#[test]
fn one_node_per_element_and_one_edge_per_link() {
    let g = graph("Root<Group<Bits<3>, Dim<Bits<4>,1,2,3>, New<Union<Bits<1>, Bits<1>>>>, 1, 2, 3>");
    let mut ids: Vec<usize> = g
        .nodes
        .iter()
        .filter_map(|s| match s {
            Stmt::Node(id, _) => Some(*id),
            _ => None,
        })
        .collect();
    ids.sort();
    assert_eq!(ids, (0..9).collect::<Vec<usize>>());
    assert_eq!(g.edges.len(), 8);
    let targets: Vec<usize> = g.edges.iter().map(|e| e.1).collect();
    assert_eq!(targets, (1..9).collect::<Vec<usize>>());
}

#[test]
fn clusters_nest_and_balance() {
    let g = graph("Root<Dim<New<Bits<2>>>>");
    assert_eq!(
        g.nodes,
        vec![
            Stmt::Node(0, Label::Root(RiverParameters::default())),
            Stmt::Open(0, true),
            Stmt::Node(1, Label::Dim(RiverParameters::default())),
            Stmt::Open(1, true),
            Stmt::Node(2, Label::New(RiverParameters::default())),
            Stmt::Open(2, false),
            Stmt::Node(3, Label::Bits(2)),
            Stmt::Close,
            Stmt::Close,
            Stmt::Close,
        ]
    );
}

#[test]
fn dot_text_of_bits() {
    assert_eq!(
        river_dot("Bits<8>".to_string()),
        "digraph {\n\"0\" [style=filled, fillcolor=\"#EE926B\", label=\"Bits<8>\"]\n}\n"
    );
}

#[test]
fn dot_text_of_root() {
    assert_eq!(
        river_dot("Root<Bits<3>, 1, 2, 3>".to_string()),
        "digraph {\n\
         \"0\" [style=filled, fillcolor=\"#7DBFA7\", label=\"Root<N=1,C=2,U=3>\"]\n\
         subgraph cluster_0 {\n\
         style=\"solid\"\n\
         \"1\" [style=filled, fillcolor=\"#EE926B\", label=\"Bits<3>\"]\n\
         }\n\
         \"0\" -> \"1\"\n\
         }\n"
    );
}

#[test]
fn dot_text_of_error() {
    assert_eq!(river_dot("Bits<>".to_string()), "syntax error at offset 5");
    assert_eq!(river_dot("Bits<8> ".to_string()), "syntax error at offset 7");
}

#[test]
fn labels_and_colors() {
    let p = RiverParameters {
        elements: Some(1),
        complexity: None,
        userbits: Some(30),
    };
    assert_eq!(p.to_string(), "N=1,C,U=30");
    assert_eq!(RiverParameters::default().to_string(), "N,C,U");
    let t = parse("Rev<Bits<12>, 1,, 30>").unwrap();
    assert_eq!(t.to_string(), "Rev<N=1,C,U=30>");
    assert_eq!(t.color(), "#B3B3B3");
    assert_eq!(parse("Bits<12>").unwrap().to_string(), "Bits<12>");
    assert_eq!(parse("Group<Bits<1>>").unwrap().to_string(), "Group");
    assert_eq!(parse("Union<Bits<1>>").unwrap().color(), "#E7C595");
    assert_eq!(parse("Dim<Bits<1>>").unwrap().color(), "#DA90C0");
    assert_eq!(parse("New<Bits<1>>").unwrap().color(), "#A6D854");
    assert_eq!(parse("Group<Bits<1>>").unwrap().color(), "#90A0C7");
    assert_eq!(parse("Root<Bits<1>>").unwrap().color(), "#7DBFA7");
    assert_eq!(parse("Bits<1>").unwrap().color(), "#EE926B");
    assert_eq!(
        River::Bits(40).as_node(17),
        "\"17\" [style=filled, fillcolor=\"#EE926B\", label=\"Bits<40>\"]\n"
    );
    assert_eq!(River::edge(3, 10), "\"3\" -> \"10\"\n");
}

#[test]
fn write_nodes_and_edges_from_an_offset() {
    let t = parse("Union<Bits<1>, Bits<2>>").unwrap();
    let mut nodes = Vec::new();
    t.write_nodes(10, &mut nodes);
    assert_eq!(
        nodes,
        vec![
            Stmt::Node(10, Label::Union),
            Stmt::Node(11, Label::Bits(1)),
            Stmt::Node(12, Label::Bits(2)),
        ]
    );
    let mut edges = Vec::new();
    t.write_edges(10, &mut edges);
    assert_eq!(edges, vec![(10, 11), (10, 12)]);
    assert_eq!(t.node_count(), 3);
}

#[test]
fn data_values() {
    let d = Data::Struct(vec![Data::Prim(3), Data::Tuple(Box::new(Data::Empty), 4)]);
    assert_eq!(d, Data::Struct(vec![Data::Prim(3), Data::Tuple(Box::new(Data::Empty), 4)]));
    assert_ne!(Data::Sequence(Box::new(Data::Prim(8))), Data::Variant(vec![Data::Prim(8)]));
}

#[test]
fn clone_and_as_ref() {
    let t = parse("Root<Group<Bits<3>, New<Union<Bits<1>>, 1>>, 1, 2, 3>").unwrap();
    let u = t.clone();
    assert_eq!(t, u);
    let r: &River = t.as_ref();
    assert_eq!(r, &u);
}
