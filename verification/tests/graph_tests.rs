use art::expression::{Expression, ExpressionState};
use art::graph::Graph;
use art::table::Table;

fn expression_table(ids: &[u32]) -> (Table<Expression>, Vec<u32>) {
    let mut table: Table<Expression> = Table::with_capacity(ids.len());
    for &id in ids {
        table.insert(id as u128, Expression::new(id, 0, 0)).unwrap();
    }
    (table, ids.to_vec())
}

fn position_of(nodes: &[u32], id: u32) -> usize {
    nodes.iter().position(|&x| x == id).unwrap()
}

#[test]
fn topological_sort_respects_every_edge() {
    let (mut table, mut nodes) = expression_table(&[3, 1, 2]);
    let mut graph = Graph::with_capacity(8);
    // 1 feeds 2, 2 feeds 3.
    graph.add_edge(1, 2).unwrap();
    graph.add_edge(2, 3).unwrap();
    let scheduled = graph.topological_sort(&mut table, &mut nodes);
    assert_eq!(scheduled, 3);
    assert!(position_of(&nodes, 1) < position_of(&nodes, 2));
    assert!(position_of(&nodes, 2) < position_of(&nodes, 3));
}

#[test]
fn topological_sort_drops_cyclic_expressions() {
    let (mut table, mut nodes) = expression_table(&[1, 2, 3]);
    let mut graph = Graph::with_capacity(8);
    // 1 and 2 form a cycle; 3 is independent.
    graph.add_edge(1, 2).unwrap();
    graph.add_edge(2, 1).unwrap();
    let scheduled = graph.topological_sort(&mut table, &mut nodes);
    assert_eq!(scheduled, 1);
    assert_eq!(nodes[0], 3);
}

#[test]
fn topological_sort_drops_what_depends_on_a_cycle() {
    let (mut table, mut nodes) = expression_table(&[1, 2, 3]);
    let mut graph = Graph::with_capacity(8);
    graph.add_edge(1, 2).unwrap();
    graph.add_edge(2, 1).unwrap();
    graph.add_edge(2, 3).unwrap();
    let scheduled = graph.topological_sort(&mut table, &mut nodes);
    assert_eq!(scheduled, 0);
}

#[test]
fn graph_fails_closed_when_edge_store_is_full() {
    let mut graph = Graph::with_capacity(1);
    graph.add_edge(1, 2).unwrap();
    assert!(graph.add_edge(2, 3).is_err());
    graph.clear();
    assert!(graph.add_edge(2, 3).is_ok());
}

#[test]
fn expressions_survive_sorting_untouched_but_for_counters() {
    let (mut table, mut nodes) = expression_table(&[5, 6]);
    let mut graph = Graph::with_capacity(4);
    graph.add_edge(5, 6).unwrap();
    let scheduled = graph.topological_sort(&mut table, &mut nodes);
    assert_eq!(scheduled, 2);
    let e5 = table.get(5).unwrap();
    assert_eq!(e5.id, 5);
    assert_eq!(e5.state, ExpressionState::Run);
}

#[test]
fn sort_without_edges_keeps_the_given_order() {
    let (mut table, mut nodes) = expression_table(&[5, 9, 7]);
    let graph = Graph::with_capacity(4);
    let scheduled = graph.topological_sort(&mut table, &mut nodes);
    assert_eq!(scheduled, 3);
    assert_eq!(nodes, vec![5, 9, 7]);
}
