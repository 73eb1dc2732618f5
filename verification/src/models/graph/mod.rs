//! Problems whose input is a graph.
pub mod optimal_linear_arrangement;
pub mod partition_into_paths_of_length_2;
pub mod partition_into_triangles;
pub mod subgraph_isomorphism;
pub mod vertex_cover;

pub use optimal_linear_arrangement::OptimalLinearArrangement;
pub use partition_into_paths_of_length_2::PartitionIntoPathsOfLength2;
pub use partition_into_triangles::PartitionIntoTriangles;
pub use subgraph_isomorphism::SubgraphIsomorphism;
pub use vertex_cover::VertexCover;
pub mod steiner_tree;
pub mod steiner_tree_in_graphs;

pub use steiner_tree::SteinerTree;
pub use steiner_tree_in_graphs::SteinerTreeInGraphs;
pub mod traveling_salesman;

pub use traveling_salesman::TravelingSalesman;
pub mod shortest_weight_constrained_path;

pub use shortest_weight_constrained_path::ShortestWeightConstrainedPath;
pub mod rooted_tree_arrangement;

pub use rooted_tree_arrangement::RootedTreeArrangement;
pub mod undirected_two_commodity_integral_flow;

pub use undirected_two_commodity_integral_flow::UndirectedTwoCommodityIntegralFlow;
pub mod multiple_copy_file_allocation;

pub use multiple_copy_file_allocation::MultipleCopyFileAllocation;
pub mod strong_connectivity_augmentation;

pub use strong_connectivity_augmentation::StrongConnectivityAugmentation;
pub mod path_constrained_network_flow;

pub use path_constrained_network_flow::PathConstrainedNetworkFlow;
pub mod partial_feedback_edge_set;

pub use partial_feedback_edge_set::PartialFeedbackEdgeSet;
pub mod undirected_flow_lower_bounds;

pub use undirected_flow_lower_bounds::UndirectedFlowLowerBounds;
