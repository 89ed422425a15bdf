use pgx_entity_graph::linearize::linearize;

#[test]
fn an_empty_graph_has_an_empty_order() {
    assert_eq!(linearize(0, &vec![]), Ok(vec![]));
}

#[test]
fn independent_nodes_keep_their_numbers() {
    assert_eq!(linearize(4, &vec![]), Ok(vec![0, 1, 2, 3]));
}

#[test]
fn a_node_comes_after_what_it_depends_on() {
    assert_eq!(linearize(3, &vec![(0, 1), (1, 2)]), Ok(vec![2, 1, 0]));
    assert_eq!(linearize(3, &vec![(0, 2)]), Ok(vec![1, 2, 0]));
}

#[test]
fn the_lowest_ready_node_comes_first() {
    // 0 waits for 3; 1 and 2 are free; once 3 is placed, 0 is the lowest again.
    assert_eq!(linearize(5, &vec![(0, 3), (4, 0)]), Ok(vec![1, 2, 3, 0, 4]));
    assert_eq!(linearize(4, &vec![(1, 3), (2, 3), (0, 1)]), Ok(vec![3, 1, 0, 2]));
}

#[test]
fn repeated_edges_count_once() {
    assert_eq!(linearize(2, &vec![(0, 1), (0, 1), (0, 1)]), Ok(vec![1, 0]));
}

#[test]
fn every_node_stands_after_its_dependencies() {
    let edges = vec![(5, 2), (5, 0), (4, 0), (4, 1), (2, 3), (3, 1)];
    let order = linearize(6, &edges).expect("the graph has no cycle");
    let mut sorted = order.clone();
    sorted.sort();
    assert_eq!(sorted, vec![0, 1, 2, 3, 4, 5]);
    for (node, dependency) in edges {
        let at = order.iter().position(|&v| v == node).unwrap();
        let before = order.iter().position(|&v| v == dependency).unwrap();
        assert!(before < at);
    }
    assert_eq!(order, vec![0, 1, 3, 2, 4, 5]);
}

#[test]
fn a_node_that_depends_on_itself_is_a_cycle() {
    assert_eq!(linearize(3, &vec![(1, 1)]), Err(vec![1]));
}

#[test]
fn a_cycle_is_reported_by_its_nodes() {
    assert_eq!(linearize(2, &vec![(0, 1), (1, 0)]), Err(vec![0, 1]));
    assert_eq!(linearize(4, &vec![(1, 2), (2, 3), (3, 1)]), Err(vec![1, 2, 3]));
}

#[test]
fn nodes_that_lead_into_a_cycle_are_not_part_of_it() {
    // 0 depends on 1, and 1 and 2 depend on each other.
    assert_eq!(linearize(3, &vec![(0, 1), (1, 2), (2, 1)]), Err(vec![1, 2]));
}

#[test]
fn an_edge_that_closes_a_cycle_makes_the_order_fail() {
    let mut edges = vec![(0, 1), (1, 2), (2, 3)];
    assert_eq!(linearize(4, &edges), Ok(vec![3, 2, 1, 0]));
    edges.push((3, 0));
    assert_eq!(linearize(4, &edges), Err(vec![0, 1, 2, 3]));
}
