//! The graph of what was derived from what.

use sakur4_core::memory::dependency::{DependencyGraph, EdgeKind, NodeKind, NodeRef};

fn graph() -> DependencyGraph {
    // a -> b -> c, a -> c, and x -> a (i.e. x depends on a).
    let mut g = DependencyGraph::new();
    let a = NodeRef::fact("a");
    let b = NodeRef::fact("b");
    let c = NodeRef::fact("c");
    let x = NodeRef::episode("x");
    g.add_edge(&a, &b, EdgeKind::Calls);
    g.add_edge(&b, &c, EdgeKind::Calls);
    g.add_edge(&a, &c, EdgeKind::Calls);
    g.add_edge(&x, &a, EdgeKind::DerivedFrom);
    g
}

#[test]
fn transitive_outgoing_walk_reports_shortest_depth() {
    let g = graph();
    let reached = g.dependents_of(&NodeRef::fact("a"), 5, None);
    let b = reached.iter().find(|r| r.id == "b").unwrap();
    let c = reached.iter().find(|r| r.id == "c").unwrap();
    assert_eq!(b.depth, 1);
    assert_eq!(c.depth, 1, "a->c is a direct edge, so depth 1 wins over a->b->c");
}

#[test]
fn depth_is_capped() {
    let g = graph();
    let reached = g.dependents_of(&NodeRef::fact("a"), 1, None);
    assert!(reached.iter().all(|r| r.depth <= 1));
    assert!(reached.iter().any(|r| r.id == "b"));
}

#[test]
fn incoming_walk_is_the_blast_radius_direction() {
    let g = graph();
    let impact = g.dependents_on(&NodeRef::fact("c"), 5, None);
    let ids: Vec<&str> = impact.iter().map(|r| r.id.as_str()).collect();
    assert!(ids.contains(&"b"));
    assert!(ids.contains(&"a"));
    assert!(ids.contains(&"x"), "x reached via a->c? no: via a. depth 2");
}

#[test]
fn edge_kind_filter_is_respected() {
    let g = graph();
    let only_calls = g.dependents_of(&NodeRef::fact("a"), 5, Some(&[EdgeKind::Calls]));
    assert!(only_calls.iter().all(|r| r.via == EdgeKind::Calls));
    let only_imports = g.dependents_of(&NodeRef::fact("a"), 5, Some(&[EdgeKind::Imports]));
    assert!(only_imports.is_empty());
}

#[test]
fn cycles_do_not_loop_forever() {
    let mut g = DependencyGraph::new();
    let a = NodeRef::fact("a");
    let b = NodeRef::fact("b");
    g.add_edge(&a, &b, EdgeKind::Calls);
    g.add_edge(&b, &a, EdgeKind::Calls);
    let reached = g.dependents_of(&a, 100, None);
    assert_eq!(reached.len(), 1);
    assert_eq!(reached[0].id, "b");
}

#[test]
fn has_dependents_drives_the_drop_gate() {
    let g = graph();
    assert!(g.has_dependents(&NodeRef::fact("a")));
    assert!(g.has_dependents(&NodeRef::fact("c")));
    assert!(!g.has_dependents(&NodeRef::episode("x")));
}

#[test]
fn a_node_does_not_depend_on_itself() {
    let mut g = DependencyGraph::new();
    let a = NodeRef::fact("a");
    g.add_edge(&a, &a, EdgeKind::Calls);
    assert!(!g.has_dependents(&a));
    g.add_edge(&NodeRef::fact("b"), &a, EdgeKind::Calls);
    assert!(g.has_dependents(&a));
}

#[test]
fn the_two_walks_mirror_each_other() {
    let g = graph();
    let nodes = [NodeRef::fact("a"), NodeRef::fact("b"), NodeRef::fact("c"), NodeRef::episode("x")];
    for from in &nodes {
        for to in nodes.iter().filter(|n| n.key() != from.key()) {
            let on = g.dependents_of(from, 2, None);
            let back = g.dependents_on(to, 2, None);
            let there = on.iter().find(|r| r.kind == to.kind && r.id == to.id);
            let here = back.iter().find(|r| r.kind == from.kind && r.id == from.id);
            assert_eq!(there.map(|r| r.depth), here.map(|r| r.depth));
        }
    }
}

#[test]
fn unknown_nodes_traverse_to_nothing_rather_than_failing() {
    let g = graph();
    assert!(g.dependents_of(&NodeRef::fact("nope"), 3, None).is_empty());
    assert!(!g.has_dependents(&NodeRef::fact("nope")));
}

#[test]
fn node_and_edge_kinds_round_trip() {
    for k in [
        NodeKind::Episode,
        NodeKind::SymbolicFact,
        NodeKind::SemanticEntry,
        NodeKind::Anchor,
        NodeKind::Fold,
        NodeKind::RepoFile,
        NodeKind::Project,
    ] {
        assert_eq!(NodeKind::parse(k.as_str()).unwrap(), k);
    }
    for k in [
        EdgeKind::Calls,
        EdgeKind::Imports,
        EdgeKind::DerivedFrom,
        EdgeKind::DependsOn,
        EdgeKind::Supersedes,
        EdgeKind::Corrects,
        EdgeKind::FoldedFrom,
    ] {
        assert_eq!(EdgeKind::parse(k.as_str()).unwrap(), k);
    }
    assert!(NodeKind::parse("bogus").is_err());
    assert!(EdgeKind::parse("bogus").is_err());
}
