use lifeguard::graph::Graph;
use lifeguard::module_name::ModuleName;
use lifeguard::recursion::nodes_in_cycles;

fn mn(s: &str) -> ModuleName {
    ModuleName::from_str(s)
}

fn texts(names: Vec<ModuleName>) -> Vec<String> {
    let mut out: Vec<String> = names.into_iter().map(|n| n.into_string()).collect();
    out.sort();
    out
}

fn assert_deps(g: &Graph, module: &str, expected: Vec<&str>) {
    assert_eq!(texts(g.neighbors(&mn(module))), expected);
}

fn assert_rdeps(g: &Graph, module: &str, expected: Vec<&str>) {
    assert_eq!(texts(g.reverse_neighbors(&mn(module))), expected);
}

fn add_nodes(g: &mut Graph, names: &[&str]) {
    for n in names {
        g.add_node(&mn(n));
    }
}

#[test]
fn graph_test_basic() {
    let mut g = Graph::new();
    add_nodes(&mut g, &["a", "b", "c"]);
    g.add_edge(&mn("a"), &mn("b"));
    g.add_edge(&mn("a"), &mn("c"));
    assert_deps(&g, "a", vec!["b", "c"]);
    assert_rdeps(&g, "b", vec!["a"]);
}

#[test]
fn test_missing() {
    let mut g = Graph::new();
    add_nodes(&mut g, &["a", "b"]);
    assert!(g.add_edge(&mn("a"), &mn("b")));
    assert!(!g.add_edge(&mn("a"), &mn("c")));
    // Missing target produces no edge; only the resolved edge to b exists
    assert_deps(&g, "a", vec!["b"]);
    assert!(!g.contains(&mn("c")));
}

#[test]
fn test_find_cycles_no_cycles() {
    let mut g = Graph::new();
    add_nodes(&mut g, &["a", "b", "c"]);
    g.add_edge(&mn("a"), &mn("b"));
    g.add_edge(&mn("b"), &mn("c"));
    assert!(g.find_cycles().is_empty());
}

#[test]
fn test_find_cycles_simple_cycle() {
    let mut g = Graph::new();
    add_nodes(&mut g, &["a", "b"]);
    g.add_edge(&mn("a"), &mn("b"));
    g.add_edge(&mn("b"), &mn("a"));
    let cycles = g.find_cycles();
    assert_eq!(cycles.len(), 1);
    assert_eq!(cycles[0].len(), 2);
}

#[test]
fn test_find_cycles_multiple_cycles() {
    let mut g = Graph::new();
    add_nodes(&mut g, &["a", "b", "c", "d", "e"]);
    // Cycle 1: a -> b -> a
    g.add_edge(&mn("a"), &mn("b"));
    g.add_edge(&mn("b"), &mn("a"));
    // One component with two cycles:
    // Cycle 2: c -> d -> e -> c
    // Cycle 3: c -> e -> c
    g.add_edge(&mn("c"), &mn("d"));
    g.add_edge(&mn("c"), &mn("e"));
    g.add_edge(&mn("d"), &mn("e"));
    g.add_edge(&mn("e"), &mn("c"));
    let cycles = g.find_cycles();
    assert_eq!(cycles.len(), 2);
}

#[test]
fn test_find_edges_unknown_node() {
    let mut g = Graph::new();
    add_nodes(&mut g, &["a", "b"]);
    g.add_edge(&mn("a"), &mn("b"));
    let unknown = mn("unknown");
    assert_eq!(g.neighbors(&unknown).len(), 0);
    assert_eq!(g.reverse_neighbors(&unknown).len(), 0);
}

#[test]
fn test_cycle_names() {
    let mut g = Graph::new();
    add_nodes(&mut g, &["a", "b", "c"]);
    g.add_edge(&mn("a"), &mn("b"));
    g.add_edge(&mn("b"), &mn("c"));
    g.add_edge(&mn("c"), &mn("a"));
    let cycles = g.find_cycles();
    assert_eq!(cycles.len(), 1);
    assert_eq!(texts(g.cycle_names(&cycles[0])), vec!["a", "b", "c"]);
}

#[test]
fn test_self_loop_not_detected_as_cycle() {
    let mut g = Graph::new();
    add_nodes(&mut g, &["a"]);
    g.add_edge(&mn("a"), &mn("a"));
    // Self-loops form a trivial SCC (len 1), filtered out by find_cycles
    assert!(
        g.find_cycles().is_empty(),
        "self-loop should not be reported as a cycle"
    );
}

#[test]
fn test_self_loop_appears_in_neighbors() {
    let mut g = Graph::new();
    add_nodes(&mut g, &["a"]);
    g.add_edge(&mn("a"), &mn("a"));
    let neighbors = g.neighbors(&mn("a"));
    assert_eq!(neighbors.len(), 1, "self-loop should appear in neighbors");
    assert_eq!(neighbors[0].as_str(), "a");
}

#[test]
fn test_large_cycle_four_nodes() {
    let mut g = Graph::new();
    let names = ["w", "x", "y", "z"];
    add_nodes(&mut g, &names);
    // w -> x -> y -> z -> w
    for i in 0..names.len() {
        g.add_edge(&mn(names[i]), &mn(names[(i + 1) % names.len()]));
    }
    let cycles = g.find_cycles();
    assert_eq!(cycles.len(), 1, "single 4-node ring should be one SCC");
    assert_eq!(cycles[0].len(), 4);
}

#[test]
fn test_has_edge() {
    let mut g = Graph::new();
    add_nodes(&mut g, &["a", "b", "c"]);
    g.add_edge(&mn("a"), &mn("b"));
    assert!(g.has_edge(&mn("a"), &mn("b")));
    assert!(!g.has_edge(&mn("b"), &mn("a")), "edge is directed");
    assert!(!g.has_edge(&mn("a"), &mn("c")), "no edge added between a and c");
}

#[test]
fn test_has_edge_unknown_nodes() {
    let g = Graph::new();
    assert!(
        !g.has_edge(&mn("a"), &mn("b")),
        "unknown nodes should return false"
    );
}

#[test]
fn test_add_node_is_idempotent() {
    let mut g = Graph::new();
    let ix1 = g.add_node(&mn("a"));
    let ix2 = g.add_node(&mn("a"));
    assert_eq!(ix1, ix2, "adding same node twice should return same index");
}

#[test]
fn test_contains() {
    let mut g = Graph::new();
    add_nodes(&mut g, &["a"]);
    assert!(g.contains(&mn("a")));
    assert!(!g.contains(&mn("b")));
}

#[test]
fn removed_node_takes_its_edges_along() {
    let mut g = Graph::new();
    add_nodes(&mut g, &["a", "b", "c"]);
    g.add_edge(&mn("a"), &mn("b"));
    g.add_edge(&mn("b"), &mn("c"));
    g.add_edge(&mn("a"), &mn("c"));
    g.remove_node(&mn("b"));
    assert!(!g.contains(&mn("b")));
    assert_eq!(texts(g.node_names()), vec!["a", "c"]);
    assert!(g.has_edge(&mn("a"), &mn("c")));
    assert_deps(&g, "a", vec!["c"]);
}

#[test]
fn nodes_on_cycles() {
    let mut g = Graph::new();
    add_nodes(&mut g, &["a", "b", "c", "d"]);
    g.add_edge(&mn("a"), &mn("b"));
    g.add_edge(&mn("b"), &mn("a"));
    g.add_edge(&mn("c"), &mn("c"));
    g.add_edge(&mn("a"), &mn("d"));
    let found = nodes_in_cycles(&g);
    assert_eq!(found.len(), 3);
    assert!(found.contains_str("a") && found.contains_str("b") && found.contains_str("c"));
}
