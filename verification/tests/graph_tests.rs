use ds210::graph::Graph;
use ds210::parse::{graph_from_text, parse_usize};

#[test]
fn test_graph_creation() {
    let mut g = Graph::new(4);
    g.add_edge(0, 1);
    g.add_edge(1, 2);
    g.add_edge(2, 3);
    g.add_edge(3, 0);

    assert_eq!(g.vertices, 4);
    assert_eq!(g.adjacency_list[0], vec![1]);
    assert_eq!(g.adjacency_list[1], vec![2]);
    assert_eq!(g.adjacency_list[2], vec![3]);
    assert_eq!(g.adjacency_list[3], vec![0]);
}

#[test]
fn walks_stay_inside_the_graph() {
    let mut g = Graph::new(3);
    g.add_edge(0, 1);
    g.add_edge(1, 2);
    g.add_edge(2, 0);
    for _ in 0..20 {
        assert!(g.walk_simulation(0, 7) < 3);
    }
}

#[test]
fn visit_counts_add_up_to_one_per_walk() {
    let mut g = Graph::new(3);
    g.add_edge(0, 1);
    g.add_edge(1, 2);
    g.add_edge(2, 0);
    let counts = g.walk_visit_counts(10, 10);
    assert_eq!(counts.len(), 3);
    let total: usize = counts.iter().sum();
    assert_eq!(total, 30);
}

#[test]
fn graph_text_builds_the_adjacency_lists() {
    let g = graph_from_text("3\n0 1\n1 2\n2 0\n0 2\n").unwrap();
    assert_eq!(g.vertices, 3);
    assert_eq!(g.adjacency_list[0], vec![1, 2]);
    assert_eq!(g.adjacency_list[1], vec![2]);
    assert_eq!(g.adjacency_list[2], vec![0]);
}

#[test]
fn bad_graph_texts_are_rejected() {
    assert!(graph_from_text("").is_none());
    assert!(graph_from_text("two\n0 1\n").is_none());
    assert!(graph_from_text("2\n0\n").is_none());
    assert!(graph_from_text("2\n0 x\n").is_none());
    assert!(graph_from_text("2\n5 0\n").is_none());
}

#[test]
fn parse_usize_follows_the_standard_parser() {
    assert_eq!(parse_usize("0"), Some(0));
    assert_eq!(parse_usize("42"), Some(42));
    assert_eq!(parse_usize("+42"), Some(42));
    assert_eq!(parse_usize("007"), Some(7));
    assert_eq!(parse_usize(""), None);
    assert_eq!(parse_usize("+"), None);
    assert_eq!(parse_usize("4 2"), None);
    assert_eq!(parse_usize("-1"), None);
    assert_eq!(parse_usize("18446744073709551615"), Some(usize::MAX));
    assert_eq!(parse_usize("18446744073709551616"), None);
}
