//! Problems with unique input structures that don't fit other categories.
pub mod consistency_of_database_frequency_tables;

pub use consistency_of_database_frequency_tables::{
    ConsistencyOfDatabaseFrequencyTables, FrequencyTable, KnownValue,
};
pub mod conjunctive_boolean_query;

pub use conjunctive_boolean_query::{ConjunctiveBooleanQuery, QueryArg, Relation as CbqRelation};
pub mod additional_key;

pub use additional_key::AdditionalKey;
pub mod boyce_codd_normal_form_violation;

pub use boyce_codd_normal_form_violation::BoyceCoddNormalFormViolation;
pub mod partition;

pub use partition::Partition;
pub mod knapsack;

pub use knapsack::Knapsack;
pub mod bin_packing;

pub use bin_packing::BinPacking;
pub mod paintshop;

pub use paintshop::PaintShop;
pub mod multiprocessor_scheduling;

pub use multiprocessor_scheduling::MultiprocessorScheduling;
pub mod clustering;

pub use clustering::Clustering;
pub mod minimum_axiom_set;

pub use minimum_axiom_set::MinimumAxiomSet;
pub mod maximum_likelihood_ranking;

pub use maximum_likelihood_ranking::MaximumLikelihoodRanking;
pub mod capacity_assignment;

pub use capacity_assignment::CapacityAssignment;
pub mod flow_shop_scheduling;

pub use flow_shop_scheduling::FlowShopScheduling;
pub mod grouping_by_swapping;

pub use grouping_by_swapping::GroupingBySwapping;
pub mod integer_expression_membership;

pub use integer_expression_membership::{IntExpr, IntegerExpressionMembership};
pub mod conjunctive_query_foldability;

pub use conjunctive_query_foldability::{ConjunctiveQueryFoldability, Term};
pub mod kth_largest_m_tuple;

pub use kth_largest_m_tuple::KthLargestMTuple;
pub mod longest_common_subsequence;

pub use longest_common_subsequence::LongestCommonSubsequence;
pub mod numerical_matching_with_target_sums;

pub use numerical_matching_with_target_sums::NumericalMatchingWithTargetSums;
pub mod minimum_code_generation_parallel_assignments;

pub use minimum_code_generation_parallel_assignments::MinimumCodeGenerationParallelAssignments;
pub mod minimum_fault_detection_test_set;

pub use minimum_fault_detection_test_set::MinimumFaultDetectionTestSet;
pub mod minimum_tardiness_sequencing;
pub mod precedence_constrained_scheduling;

pub use minimum_tardiness_sequencing::MinimumTardinessSequencing;
pub use precedence_constrained_scheduling::PrecedenceConstrainedScheduling;
pub mod minimum_register_sufficiency_for_loops;

pub use minimum_register_sufficiency_for_loops::MinimumRegisterSufficiencyForLoops;
pub mod minimum_weight_and_or_graph;

pub use minimum_weight_and_or_graph::MinimumWeightAndOrGraph;
pub mod partially_ordered_knapsack;
pub mod resource_constrained_scheduling;

pub use partially_ordered_knapsack::PartiallyOrderedKnapsack;
pub use resource_constrained_scheduling::ResourceConstrainedScheduling;
pub mod scheduling_with_individual_deadlines;

pub use scheduling_with_individual_deadlines::SchedulingWithIndividualDeadlines;
pub mod scheduling_to_minimize_weighted_completion_time;

pub use scheduling_to_minimize_weighted_completion_time::SchedulingToMinimizeWeightedCompletionTime;
pub mod sequencing_to_minimize_maximum_cumulative_cost;

pub use sequencing_to_minimize_maximum_cumulative_cost::SequencingToMinimizeMaximumCumulativeCost;
pub mod sequencing_to_minimize_weighted_completion_time;

pub use sequencing_to_minimize_weighted_completion_time::SequencingToMinimizeWeightedCompletionTime;
pub mod sequencing_to_minimize_weighted_tardiness;

pub use sequencing_to_minimize_weighted_tardiness::SequencingToMinimizeWeightedTardiness;
pub mod sequencing_with_release_times_and_deadlines;

pub use sequencing_with_release_times_and_deadlines::SequencingWithReleaseTimesAndDeadlines;
pub mod sequencing_within_intervals;

pub use sequencing_within_intervals::SequencingWithinIntervals;
pub mod shortest_common_supersequence;

pub use shortest_common_supersequence::ShortestCommonSupersequence;
pub mod square_tiling;

pub use square_tiling::SquareTiling;
pub mod rectilinear_picture_compression;

pub use rectilinear_picture_compression::RectilinearPictureCompression;
pub mod minimum_code_generation_unlimited_registers;

pub use minimum_code_generation_unlimited_registers::MinimumCodeGenerationUnlimitedRegisters;
pub mod job_shop_scheduling;

pub use job_shop_scheduling::JobShopScheduling;
pub mod optimum_communication_spanning_tree;

pub use optimum_communication_spanning_tree::OptimumCommunicationSpanningTree;
pub mod minimum_disjunctive_normal_form;

pub use minimum_disjunctive_normal_form::{MinimumDisjunctiveNormalForm, PrimeImplicant};
pub mod expected_retrieval_cost;

pub use expected_retrieval_cost::latency_distance;
