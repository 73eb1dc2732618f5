use problemreductions::models::graph::{
    MultipleCopyFileAllocation, OptimalLinearArrangement, PartialFeedbackEdgeSet, PartitionIntoPathsOfLength2,
    PartitionIntoTriangles, PathConstrainedNetworkFlow, RootedTreeArrangement, ShortestWeightConstrainedPath,
    SteinerTree, SteinerTreeInGraphs, StrongConnectivityAugmentation, SubgraphIsomorphism, TravelingSalesman,
    UndirectedFlowLowerBounds, UndirectedTwoCommodityIntegralFlow, VertexCover,
};
use problemreductions::topology::{DirectedGraph, SimpleGraph};
use problemreductions::types::{Min, Or, SolutionSize};

fn cycle_graph(n: usize) -> SimpleGraph {
    let edges: Vec<(usize, usize)> = (0..n).map(|i| (i, (i + 1) % n)).collect();
    SimpleGraph::new(n, edges)
}

#[test]
fn vertex_cover_example() {
    let p = VertexCover::new(SimpleGraph::new(4, vec![(0, 1), (1, 2), (0, 2), (2, 3)]), 2);
    assert_eq!(p.evaluate(&[1, 0, 1, 0]), Or(true));
    assert_eq!(p.evaluate(&[1, 0, 0, 0]), Or(false));
    assert_eq!(p.evaluate(&[1, 1, 1, 0]), Or(false));
}

#[test]
fn multiple_copy_file_allocation_example() {
    let p = MultipleCopyFileAllocation::new(cycle_graph(6), vec![10; 6], vec![1; 6], 33);
    assert_eq!(p.evaluate(&[0, 1, 0, 1, 0, 1]), Or(true));
    assert_eq!(p.evaluate(&[0, 0, 0, 0, 0, 0]), Or(false));
}

#[test]
fn optimal_linear_arrangement_example() {
    let p = OptimalLinearArrangement::new(SimpleGraph::new(
        6,
        vec![(0, 1), (1, 2), (2, 3), (3, 4), (4, 5), (0, 3), (2, 5)],
    ));
    assert_eq!(p.evaluate(&[0, 1, 2, 3, 4, 5]), Min(Some(11)));
    assert_eq!(p.evaluate(&[0, 0, 2, 3, 4, 5]), Min(None));
}

fn feedback_instance() -> PartialFeedbackEdgeSet {
    let graph = SimpleGraph::new(
        6,
        vec![(0, 1), (1, 2), (2, 0), (2, 3), (3, 4), (4, 2), (3, 5), (5, 4), (0, 3)],
    );
    PartialFeedbackEdgeSet::new(graph, 3, 4)
}

#[test]
fn partial_feedback_edge_set_example() {
    let p = feedback_instance();
    // remove {2,0}, {2,3}, {3,4}
    assert_eq!(p.evaluate(&[0, 0, 1, 1, 1, 0, 0, 0, 0]), Or(true));
    // removing nothing leaves the triangle 0-1-2
    assert_eq!(p.evaluate(&[0, 0, 0, 0, 0, 0, 0, 0, 0]), Or(false));
    // four removals exceed the budget
    assert_eq!(p.evaluate(&[1, 0, 1, 1, 1, 0, 0, 0, 0]), Or(false));
    // values other than 0 and 1 are refused
    assert_eq!(p.evaluate(&[0, 0, 2, 1, 1, 0, 0, 0, 0]), Or(false));
}

#[test]
fn partial_feedback_edge_set_cycle_length_limit() {
    // a square has a 4-cycle only
    let square = SimpleGraph::new(4, vec![(0, 1), (1, 2), (2, 3), (3, 0)]);
    assert_eq!(PartialFeedbackEdgeSet::new(square, 0, 3).evaluate(&[0, 0, 0, 0]), Or(true));
    let square = SimpleGraph::new(4, vec![(0, 1), (1, 2), (2, 3), (3, 0)]);
    assert_eq!(PartialFeedbackEdgeSet::new(square, 0, 4).evaluate(&[0, 0, 0, 0]), Or(false));
}

#[test]
fn partition_into_paths_of_length_2_example() {
    let p = PartitionIntoPathsOfLength2::new(SimpleGraph::new(
        9,
        vec![(0, 1), (1, 2), (3, 4), (4, 5), (6, 7), (7, 8), (0, 3), (2, 5), (3, 6), (5, 8), (1, 4), (4, 7)],
    ));
    assert_eq!(p.evaluate(&[0, 0, 0, 1, 1, 1, 2, 2, 2]), Or(true));
    assert_eq!(p.evaluate(&[0, 0, 0, 0, 1, 1, 2, 2, 2]), Or(false));
}

#[test]
fn partition_into_triangles_example() {
    let p = PartitionIntoTriangles::new(SimpleGraph::new(
        6,
        vec![(0, 1), (0, 2), (1, 2), (3, 4), (3, 5), (4, 5), (0, 3)],
    ));
    assert!(p.evaluate(&[0, 0, 0, 1, 1, 1]));
    assert!(!p.evaluate(&[0, 0, 1, 0, 1, 1]));
}

#[test]
fn path_constrained_network_flow_example() {
    let graph = DirectedGraph::new(
        8,
        vec![(0, 1), (0, 2), (1, 3), (1, 4), (2, 4), (3, 5), (4, 5), (4, 6), (5, 7), (6, 7)],
    );
    let p = PathConstrainedNetworkFlow::new(
        graph,
        vec![2, 1, 1, 1, 1, 1, 1, 1, 2, 1],
        0,
        7,
        vec![vec![0, 2, 5, 8], vec![0, 3, 6, 8], vec![0, 3, 7, 9], vec![1, 4, 6, 8], vec![1, 4, 7, 9]],
        3,
    );
    assert_eq!(p.evaluate(&[1, 1, 0, 0, 1]), Or(true));
    assert_eq!(p.evaluate(&[1, 1, 0, 0, 0]), Or(false));
}

#[test]
fn rooted_tree_arrangement_example() {
    let p = RootedTreeArrangement::new(SimpleGraph::new(4, vec![(0, 1), (0, 2), (1, 2), (2, 3)]), 5);
    assert_eq!(p.evaluate(&[0, 0, 1, 2, 0, 1, 2, 3]), Or(true));
}

#[test]
fn shortest_weight_constrained_path_example() {
    let p = ShortestWeightConstrainedPath::new(
        SimpleGraph::new(6, vec![(0, 1), (0, 2), (1, 3), (2, 3), (2, 4), (3, 5), (4, 5), (1, 4)]),
        vec![2, 4, 3, 1, 5, 4, 2, 6],
        vec![5, 1, 2, 3, 2, 3, 1, 1],
        0,
        5,
        8,
    );
    assert_eq!(p.evaluate(&[0, 1, 0, 1, 0, 1, 0, 0]), Min(Some(9)));
}

#[test]
fn steiner_tree_example() {
    let p = SteinerTree::new(
        SimpleGraph::new(5, vec![(0, 1), (0, 3), (1, 2), (1, 3), (2, 3), (2, 4), (3, 4)]),
        vec![2, 5, 2, 1, 5, 6, 1],
        vec![0, 2, 4],
    );
    assert_eq!(p.evaluate(&[1, 0, 1, 1, 0, 0, 1]), Min(Some(6)));
}

#[test]
fn steiner_tree_in_graphs_example() {
    let p = SteinerTreeInGraphs::new(
        SimpleGraph::new(6, vec![(0, 1), (0, 2), (1, 3), (2, 3), (2, 5), (3, 4), (4, 5)]),
        vec![0, 3, 5],
        vec![3, 2, 4, 1, 2, 3, 1],
    );
    assert_eq!(p.evaluate(&[0, 1, 0, 1, 1, 0, 0]), SolutionSize::Valid(5));
}

#[test]
fn strong_connectivity_augmentation_example() {
    let p = StrongConnectivityAugmentation::new(
        DirectedGraph::new(5, vec![(0, 1), (1, 2), (2, 3), (3, 4)]),
        vec![(4, 0, 10), (4, 3, 3), (4, 2, 3), (4, 1, 3), (3, 0, 7), (3, 1, 3), (2, 0, 7), (2, 1, 3), (1, 0, 5)],
        8,
    );
    assert_eq!(p.evaluate(&[0, 0, 0, 1, 0, 0, 0, 0, 1]), Or(true));
    assert_eq!(p.evaluate(&[1, 0, 0, 0, 0, 0, 0, 0, 0]), Or(false));
}

#[test]
fn strong_connectivity_augmentation_rejects_bad_input() {
    let g = || DirectedGraph::new(3, vec![(0, 1), (1, 2)]);
    assert_eq!(
        StrongConnectivityAugmentation::try_new(g(), vec![(2, 0, 1)], -1).err(),
        Some("bound must be nonnegative".to_string())
    );
    assert_eq!(
        StrongConnectivityAugmentation::try_new(g(), vec![(2, 5, 1)], 1).err(),
        Some("candidate arc references a vertex outside the graph".to_string())
    );
    assert_eq!(
        StrongConnectivityAugmentation::try_new(g(), vec![(2, 0, 0)], 1).err(),
        Some("candidate arc weight must be positive".to_string())
    );
    assert_eq!(
        StrongConnectivityAugmentation::try_new(g(), vec![(0, 1, 1)], 1).err(),
        Some("candidate arc already exists in the base graph".to_string())
    );
    assert_eq!(
        StrongConnectivityAugmentation::try_new(g(), vec![(2, 0, 1), (2, 0, 2)], 1).err(),
        Some("duplicate candidate arc".to_string())
    );
    assert!(StrongConnectivityAugmentation::try_new(g(), vec![(2, 0, 1)], 1).is_ok());
}

#[test]
fn subgraph_isomorphism_example() {
    let p = SubgraphIsomorphism::new(
        SimpleGraph::new(4, vec![(0, 1), (0, 2), (0, 3), (1, 2), (1, 3), (2, 3)]),
        SimpleGraph::new(3, vec![(0, 1), (0, 2), (1, 2)]),
    );
    assert!(p.evaluate(&[0, 1, 2]));
    assert!(!p.evaluate(&[0, 0, 2]));
}

#[test]
fn traveling_salesman_example() {
    let p = TravelingSalesman::new(
        SimpleGraph::new(4, vec![(0, 1), (0, 2), (0, 3), (1, 2), (1, 3), (2, 3)]),
        vec![1, 3, 2, 2, 3, 1],
    );
    assert_eq!(p.evaluate(&[1, 0, 1, 1, 0, 1]), Min(Some(6)));
    assert_eq!(p.evaluate(&[1, 1, 1, 0, 0, 0]), Min(None));
}

#[test]
fn undirected_two_commodity_integral_flow_example() {
    let p = UndirectedTwoCommodityIntegralFlow::new(
        SimpleGraph::new(4, vec![(0, 2), (1, 2), (2, 3)]),
        vec![1, 1, 2],
        0,
        3,
        1,
        3,
        1,
        1,
    );
    assert_eq!(p.evaluate(&[1, 0, 0, 0, 0, 0, 1, 0, 1, 0, 1, 0]), Or(true));
    assert_eq!(p.evaluate(&[0, 0, 0, 0, 0, 0, 0, 0, 0, 0, 0, 0]), Or(false));
}

fn flow_lower_bounds_instance(requirement: u64) -> UndirectedFlowLowerBounds {
    UndirectedFlowLowerBounds::new(
        SimpleGraph::new(6, vec![(0, 1), (0, 2), (1, 3), (2, 3), (1, 4), (3, 5), (4, 5)]),
        vec![2, 2, 2, 2, 1, 3, 2],
        vec![1, 1, 0, 0, 1, 0, 1],
        0,
        5,
        requirement,
    )
}

#[test]
fn undirected_flow_lower_bounds_example() {
    let p = flow_lower_bounds_instance(3);
    assert_eq!(p.num_vertices(), 6);
    assert_eq!(p.num_edges(), 7);
    assert_eq!(p.source(), 0);
    assert_eq!(p.sink(), 5);
    assert_eq!(p.requirement(), 3);
    assert_eq!(p.capacities(), &[2, 2, 2, 2, 1, 3, 2]);
    assert_eq!(p.lower_bounds(), &[1, 1, 0, 0, 1, 0, 1]);
    assert_eq!(p.graph().num_edges(), 7);
    assert_eq!(p.dims(), vec![2; 7]);
    assert_eq!(p.evaluate(&[0, 0, 0, 0, 0, 0, 0]), Or(true));
    assert!(p.is_valid_solution(&[0, 0, 0, 0, 0, 0, 0]));
}

#[test]
fn undirected_flow_lower_bounds_rejects_bad_orientations() {
    let p = flow_lower_bounds_instance(3);
    // Reversing the last edge leaves vertex 4 with two forced inflows and no outflow.
    assert_eq!(p.evaluate(&[0, 0, 0, 0, 0, 0, 1]), Or(false));
    // Reversing the first edge makes vertex 1 send more than it can receive.
    assert_eq!(p.evaluate(&[1, 0, 0, 0, 0, 0, 0]), Or(false));
    assert_eq!(p.evaluate(&[0, 0, 0, 0, 0, 0, 2]), Or(false));
    assert_eq!(p.evaluate(&[0, 0, 0, 0, 0, 0]), Or(false));
    assert!(!p.is_valid_solution(&[0, 0, 0, 0, 0, 0, 0, 0]));
}

#[test]
fn undirected_flow_lower_bounds_requirement_limits() {
    let all_forward = [0, 0, 0, 0, 0, 0, 0];
    // At most 4 units reach the sink: vertex 4 passes on at most 1.
    assert_eq!(flow_lower_bounds_instance(4).evaluate(&all_forward), Or(true));
    assert_eq!(flow_lower_bounds_instance(5).evaluate(&all_forward), Or(false));
    // More than the total capacity of 14.
    assert_eq!(flow_lower_bounds_instance(15).evaluate(&all_forward), Or(false));
}
