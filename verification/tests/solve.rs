use mcmf::{GraphBuilder, McmfError, McmfSolution};

fn edge(b: &mut GraphBuilder, from: &str, to: &str, cap: i64, cost: i64) {
    b.add_edge(from.to_owned(), to.to_owned(), cap, cost).unwrap();
}

fn simple_builder() -> GraphBuilder {
    let mut builder = GraphBuilder::new();
    edge(&mut builder, "a", "b", 10, 200);
    edge(&mut builder, "b", "c", 20, 0);
    edge(&mut builder, "c", "e", 15, 0);
    edge(&mut builder, "a", "d", 2, 100);
    edge(&mut builder, "d", "e", 3, 0);
    builder
}

#[test]
fn simple_graph() {
    let builder = simple_builder();
    let solution = builder.solve_mcmf("a".to_owned(), "e".to_owned()).unwrap();
    assert_eq!(solution.max_flow(), 12);
    assert_eq!(solution.total_cost(), 2200);
}

#[test]
fn simple_graph_paths() {
    let builder = simple_builder();
    let solution = builder.solve_mcmf("a".to_owned(), "e".to_owned()).unwrap();
    let paths = solution.paths();
    assert_eq!(paths.len(), 2);
    assert_eq!(paths[0].flow(), 10);
    assert_eq!(paths[0].nodes(), vec!["a", "b", "c", "e"]);
    assert_eq!(paths[1].flow(), 2);
    assert_eq!(paths[1].nodes(), vec!["a", "d", "e"]);
}

#[test]
fn path_flows_sum_to_max_flow() {
    let builder = simple_builder();
    let solution = builder.solve_mcmf("a".to_owned(), "e".to_owned()).unwrap();
    let total: i64 = solution.paths().iter().map(|p| p.flow()).sum();
    assert_eq!(total, solution.max_flow());
}

#[test]
fn parallel_edges() {
    let mut builder = GraphBuilder::new();
    edge(&mut builder, "a", "b", 3, 1);
    edge(&mut builder, "a", "b", 2, 5);
    edge(&mut builder, "b", "c", 10, 0);
    let solution = builder.solve_mcmf("a".to_owned(), "c".to_owned()).unwrap();
    assert_eq!(solution.max_flow(), 5);
    assert_eq!(solution.total_cost(), 13);
    let paths = solution.paths();
    assert_eq!(paths.len(), 2);
    assert_eq!(paths[0].flow(), 3);
    assert_eq!(paths[0].nodes(), vec!["a", "b", "c"]);
    assert_eq!(paths[1].flow(), 2);
    assert_eq!(paths[1].nodes(), vec!["a", "b", "c"]);
}

fn assert_same_solution(s1: &McmfSolution, s2: &McmfSolution) {
    assert_eq!(s1.max_flow(), s2.max_flow());
    assert_eq!(s1.total_cost(), s2.total_cost());
    let p1 = s1.paths();
    let p2 = s2.paths();
    assert_eq!(p1.len(), p2.len());
    for (a, b) in p1.iter().zip(p2.iter()) {
        assert_eq!(a.flow(), b.flow());
        assert_eq!(a.nodes(), b.nodes());
    }
}

#[test]
fn repeated_solves_are_identical() {
    let first = simple_builder().solve_mcmf("a".to_owned(), "e".to_owned()).unwrap();
    let second = simple_builder().solve_mcmf("a".to_owned(), "e".to_owned()).unwrap();
    let third = simple_builder().solve_mcmf("a".to_owned(), "e".to_owned()).unwrap();
    assert_same_solution(&first, &second);
    assert_same_solution(&second, &third);
}

#[test]
fn source_equals_sink() {
    let builder = simple_builder();
    let solution = builder.solve_mcmf("a".to_owned(), "a".to_owned()).unwrap();
    assert_eq!(solution.max_flow(), 0);
    assert_eq!(solution.total_cost(), 0);
    assert!(solution.paths().is_empty());
}

#[test]
fn no_path_between_components() {
    let mut builder = GraphBuilder::new();
    edge(&mut builder, "a", "b", 5, 1);
    edge(&mut builder, "c", "d", 5, 1);
    let solution = builder.solve_mcmf("a".to_owned(), "d".to_owned()).unwrap();
    assert_eq!(solution.max_flow(), 0);
    assert_eq!(solution.total_cost(), 0);
    assert!(solution.paths().is_empty());
}

#[test]
fn no_path_against_edge_direction() {
    let mut builder = GraphBuilder::new();
    edge(&mut builder, "a", "b", 5, 1);
    let solution = builder.solve_mcmf("b".to_owned(), "a".to_owned()).unwrap();
    assert_eq!(solution.max_flow(), 0);
    assert_eq!(solution.total_cost(), 0);
    assert!(solution.paths().is_empty());
}

#[test]
fn unknown_source_label() {
    let builder = simple_builder();
    let err = builder.solve_mcmf("zz".to_owned(), "e".to_owned()).unwrap_err();
    assert_eq!(err, McmfError::UnknownVertex);
}

#[test]
fn unknown_sink_label() {
    let builder = simple_builder();
    let err = builder.solve_mcmf("a".to_owned(), "zz".to_owned()).unwrap_err();
    assert_eq!(err, McmfError::UnknownVertex);
}

#[test]
fn zero_capacity_rejected() {
    let mut builder = GraphBuilder::new();
    let err = builder.add_edge("a".to_owned(), "b".to_owned(), 0, 1).unwrap_err();
    assert_eq!(err, McmfError::InvalidInput);
}

#[test]
fn negative_capacity_rejected() {
    let mut builder = GraphBuilder::new();
    let err = builder.add_edge("a".to_owned(), "b".to_owned(), -4, 1).unwrap_err();
    assert_eq!(err, McmfError::InvalidInput);
}

#[test]
fn oversized_capacity_rejected() {
    let mut builder = GraphBuilder::new();
    let err = builder.add_edge("a".to_owned(), "b".to_owned(), i64::MAX, 1).unwrap_err();
    assert_eq!(err, McmfError::InvalidInput);
}

#[test]
fn oversized_cost_rejected() {
    let mut builder = GraphBuilder::new();
    let err = builder.add_edge("a".to_owned(), "b".to_owned(), 1, i64::MIN).unwrap_err();
    assert_eq!(err, McmfError::InvalidInput);
}

#[test]
fn rejected_edge_leaves_builder_usable() {
    let mut builder = GraphBuilder::new();
    edge(&mut builder, "a", "b", 7, 3);
    assert!(builder.add_edge("a".to_owned(), "b".to_owned(), 0, 3).is_err());
    let solution = builder.solve_mcmf("a".to_owned(), "b".to_owned()).unwrap();
    assert_eq!(solution.max_flow(), 7);
    assert_eq!(solution.total_cost(), 21);
}

#[test]
fn repeated_labels_resolve_to_same_vertex() {
    let mut builder = GraphBuilder::new();
    edge(&mut builder, "a", "b", 4, 1);
    edge(&mut builder, "b", "c", 4, 1);
    edge(&mut builder, "a", "b", 2, 1);
    let solution = builder.solve_mcmf("a".to_owned(), "c".to_owned()).unwrap();
    assert_eq!(solution.max_flow(), 4);
}

#[test]
fn negative_costs_are_allowed() {
    let mut builder = GraphBuilder::new();
    edge(&mut builder, "s", "m", 5, -10);
    edge(&mut builder, "m", "t", 5, 2);
    let solution = builder.solve_mcmf("s".to_owned(), "t".to_owned()).unwrap();
    assert_eq!(solution.max_flow(), 5);
    assert_eq!(solution.total_cost(), -40);
}

#[test]
fn per_edge_flow_is_reconstructed_exactly() {
    // Diamond with a shared middle edge: both branches pass through m -> t.
    let mut builder = GraphBuilder::new();
    edge(&mut builder, "s", "x", 4, 1);
    edge(&mut builder, "s", "y", 3, 1);
    edge(&mut builder, "x", "m", 4, 0);
    edge(&mut builder, "y", "m", 3, 0);
    edge(&mut builder, "m", "t", 7, 0);
    let solution = builder.solve_mcmf("s".to_owned(), "t".to_owned()).unwrap();
    assert_eq!(solution.max_flow(), 7);
    // The shared edge m -> t must carry the sum of both paths' flows.
    let through_m: i64 = solution
        .paths()
        .iter()
        .filter(|p| p.nodes().windows(2).any(|w| w[0] == "m" && w[1] == "t"))
        .map(|p| p.flow())
        .sum();
    assert_eq!(through_m, 7);
}

#[test]
fn capacity_at_limit_accepted() {
    let limit: i64 = 0x100_0000_0000;
    let mut builder = GraphBuilder::new();
    edge(&mut builder, "a", "b", limit, 1);
    let solution = builder.solve_mcmf("a".to_owned(), "b".to_owned()).unwrap();
    assert_eq!(solution.max_flow(), limit);
    assert_eq!(solution.total_cost(), limit as i128);
}
