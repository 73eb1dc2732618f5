use problemreductions::models::misc::{
    AdditionalKey, BinPacking, BoyceCoddNormalFormViolation, CapacityAssignment, Clustering, CbqRelation,
    ConjunctiveBooleanQuery, ConjunctiveQueryFoldability, ConsistencyOfDatabaseFrequencyTables, FlowShopScheduling,
    FrequencyTable, GroupingBySwapping, IntExpr, IntegerExpressionMembership, JobShopScheduling, Knapsack, KnownValue,
    KthLargestMTuple, LongestCommonSubsequence, MaximumLikelihoodRanking, MinimumAxiomSet,
    MinimumCodeGenerationParallelAssignments, MinimumCodeGenerationUnlimitedRegisters, MinimumDisjunctiveNormalForm,
    MinimumFaultDetectionTestSet, MinimumRegisterSufficiencyForLoops, MinimumTardinessSequencing,
    MinimumWeightAndOrGraph, MultiprocessorScheduling, NumericalMatchingWithTargetSums,
    OptimumCommunicationSpanningTree, PaintShop, PartiallyOrderedKnapsack, Partition, PrecedenceConstrainedScheduling,
    QueryArg, RectilinearPictureCompression, ResourceConstrainedScheduling, SchedulingToMinimizeWeightedCompletionTime,
    SchedulingWithIndividualDeadlines, SequencingToMinimizeMaximumCumulativeCost,
    SequencingToMinimizeWeightedCompletionTime, SequencingToMinimizeWeightedTardiness,
    SequencingWithReleaseTimesAndDeadlines, SequencingWithinIntervals, ShortestCommonSupersequence, SquareTiling, Term,
};
use problemreductions::types::{Max, Min, Or, SolutionSize, Sum};

#[test]
fn additional_key_example() {
    let p = AdditionalKey::new(
        6,
        vec![
            (vec![0, 1], vec![2, 3]),
            (vec![2, 3], vec![4, 5]),
            (vec![4, 5], vec![0, 1]),
            (vec![0, 2], vec![3]),
            (vec![3, 5], vec![1]),
        ],
        vec![0, 1, 2, 3, 4, 5],
        vec![vec![0, 1], vec![2, 3], vec![4, 5]],
    );
    assert_eq!(p.evaluate(&[1, 0, 1, 0, 0, 0]), Or(true));
    // {0, 1} is already a known key
    assert_eq!(p.evaluate(&[1, 1, 0, 0, 0, 0]), Or(false));
}

#[test]
fn bin_packing_counts_bins() {
    let p = BinPacking::new(vec![3, 3, 2, 2], 5);
    assert_eq!(p.evaluate(&[0, 1, 0, 1]), SolutionSize::Valid(2));
    assert_eq!(p.evaluate(&[0, 0, 1, 1]), SolutionSize::Invalid);
}

#[test]
fn boyce_codd_normal_form_violation_example() {
    let p = BoyceCoddNormalFormViolation::new(
        6,
        vec![(vec![0, 1], vec![2]), (vec![2], vec![3]), (vec![3, 4], vec![5])],
        vec![0, 1, 2, 3, 4, 5],
    );
    assert_eq!(p.evaluate(&[0, 0, 1, 0, 0, 0]), Or(true));
    assert_eq!(p.evaluate(&[0, 0, 0, 0, 0, 0]), Or(false));
}

#[test]
fn capacity_assignment_example() {
    let p = CapacityAssignment::new(
        vec![1, 2, 3],
        vec![vec![1, 3, 6], vec![2, 4, 7], vec![1, 2, 5]],
        vec![vec![8, 4, 1], vec![7, 3, 1], vec![6, 3, 1]],
        12,
    );
    assert_eq!(p.evaluate(&[1, 1, 1]), Min(Some(9)));
    // total delay 8 + 7 + 6 exceeds the budget
    assert_eq!(p.evaluate(&[0, 0, 0]), Min(None));
}

#[test]
fn clustering_example() {
    let distances = vec![
        vec![0, 1, 1, 3, 3, 3],
        vec![1, 0, 1, 3, 3, 3],
        vec![1, 1, 0, 3, 3, 3],
        vec![3, 3, 3, 0, 1, 1],
        vec![3, 3, 3, 1, 0, 1],
        vec![3, 3, 3, 1, 1, 0],
    ];
    let p = Clustering::new(distances, 2, 1);
    assert_eq!(p.evaluate(&[0, 0, 0, 1, 1, 1]), Or(true));
    assert_eq!(p.evaluate(&[0, 0, 1, 1, 1, 1]), Or(false));
}

#[test]
fn conjunctive_boolean_query_example() {
    let p = ConjunctiveBooleanQuery::new(
        6,
        vec![
            CbqRelation { arity: 2, tuples: vec![vec![0, 3], vec![1, 3], vec![2, 4], vec![3, 4], vec![4, 5]] },
            CbqRelation { arity: 3, tuples: vec![vec![0, 1, 5], vec![1, 2, 5], vec![2, 3, 4], vec![0, 4, 3]] },
        ],
        2,
        vec![
            (0, vec![QueryArg::Variable(0), QueryArg::Constant(3)]),
            (0, vec![QueryArg::Variable(1), QueryArg::Constant(3)]),
            (1, vec![QueryArg::Variable(0), QueryArg::Variable(1), QueryArg::Constant(5)]),
        ],
    );
    assert_eq!(p.evaluate(&[0, 1]), Or(true));
    assert_eq!(p.evaluate(&[1, 0]), Or(false));
}

#[test]
fn conjunctive_query_foldability_example() {
    let p = ConjunctiveQueryFoldability::new(
        0,
        1,
        3,
        vec![2],
        vec![
            (0, vec![Term::Distinguished(0), Term::Undistinguished(0)]),
            (0, vec![Term::Undistinguished(0), Term::Undistinguished(1)]),
            (0, vec![Term::Undistinguished(1), Term::Distinguished(0)]),
            (0, vec![Term::Undistinguished(0), Term::Undistinguished(0)]),
        ],
        vec![
            (0, vec![Term::Distinguished(0), Term::Undistinguished(2)]),
            (0, vec![Term::Undistinguished(2), Term::Undistinguished(2)]),
            (0, vec![Term::Undistinguished(2), Term::Distinguished(0)]),
        ],
    );
    assert_eq!(p.evaluate(&[3, 3, 3]), Or(true));
}

#[test]
fn consistency_of_database_frequency_tables_example() {
    let p = ConsistencyOfDatabaseFrequencyTables::new(
        6,
        vec![2, 3, 2],
        vec![
            FrequencyTable::new(0, 1, vec![vec![1, 1, 1], vec![1, 1, 1]]),
            FrequencyTable::new(1, 2, vec![vec![1, 1], vec![0, 2], vec![1, 1]]),
        ],
        vec![KnownValue::new(0, 0, 0), KnownValue::new(3, 0, 1), KnownValue::new(1, 2, 1)],
    );
    assert!(p.evaluate(&[0, 0, 0, 0, 1, 1, 0, 2, 1, 1, 0, 1, 1, 1, 1, 1, 2, 0]));
    assert!(!p.evaluate(&[0; 18]));
}

#[test]
fn flow_shop_scheduling_example() {
    let p = FlowShopScheduling::new(
        3,
        vec![vec![3, 4, 2], vec![2, 3, 5], vec![4, 1, 3], vec![1, 5, 4], vec![3, 2, 3]],
        25,
    );
    assert!(p.evaluate(&[3, 0, 2, 1, 0]));
}

#[test]
fn grouping_by_swapping_example() {
    let p = GroupingBySwapping::new(3, vec![0, 1, 2, 0, 1, 2], 5);
    assert_eq!(p.evaluate(&[2, 1, 3, 5, 5]), Or(true));
    assert_eq!(p.evaluate(&[5, 5, 5, 5, 5]), Or(false));
}

#[test]
fn integer_expression_membership_example() {
    let expr = IntExpr::Sum(
        Box::new(IntExpr::Sum(
            Box::new(IntExpr::Union(Box::new(IntExpr::Atom(1)), Box::new(IntExpr::Atom(4)))),
            Box::new(IntExpr::Union(Box::new(IntExpr::Atom(3)), Box::new(IntExpr::Atom(6)))),
        )),
        Box::new(IntExpr::Union(Box::new(IntExpr::Atom(2)), Box::new(IntExpr::Atom(5)))),
    );
    let p = IntegerExpressionMembership::new(expr, 12);
    assert_eq!(p.evaluate(&[1, 1, 0]), Or(true));
    assert_eq!(p.evaluate_config(&[1, 1, 0]), Some(12));
    assert_eq!(p.evaluate_config(&[0, 0, 0]), Some(6));
    assert_eq!(p.evaluate(&[0, 0, 0]), Or(false));
}

#[test]
fn job_shop_scheduling_example() {
    let p = JobShopScheduling::new(
        2,
        vec![
            vec![(0, 3), (1, 4)],
            vec![(1, 2), (0, 3), (1, 2)],
            vec![(0, 4), (1, 3)],
            vec![(1, 5), (0, 2)],
            vec![(0, 2), (1, 3), (0, 1)],
        ],
    );
    assert_eq!(p.num_tasks(), 12);
    assert_eq!(p.evaluate(&[0, 0, 0, 0, 0, 0, 1, 3, 0, 1, 1, 0]), Min(Some(19)));
    // a code that does not fit its processor's task count
    assert_eq!(p.evaluate(&[9, 0, 0, 0, 0, 0, 1, 3, 0, 1, 1, 0]), Min(None));
}

#[test]
fn job_shop_scheduling_single_job_chain() {
    let p = JobShopScheduling::new(2, vec![vec![(0, 2), (1, 3)]]);
    assert_eq!(p.schedule_from_config(&[0, 0]), Some(vec![0, 2]));
    assert_eq!(p.evaluate(&[0, 0]), Min(Some(5)));
    assert_eq!(p.dims(), vec![1, 1]);
}

#[test]
fn job_shop_scheduling_detects_cycle() {
    // job 0: p0 then p1; job 1: p1 then p0. Putting job 1 first on p0 and
    // job 0 first on p1 creates a cycle of precedences.
    let p = JobShopScheduling::new(2, vec![vec![(0, 1), (1, 1)], vec![(1, 1), (0, 1)]]);
    // processor 0 tasks: ids 0 and 3; processor 1 tasks: ids 1 and 2
    assert_eq!(p.schedule_from_config(&[1, 0, 0, 0]), None);
    assert_eq!(p.evaluate(&[1, 0, 0, 0]), Min(None));
    assert_eq!(p.schedule_from_config(&[0, 0, 1, 0]), Some(vec![0, 1, 0, 1]));
    assert_eq!(p.evaluate(&[0, 0, 1, 0]), Min(Some(2)));
}

#[test]
fn knapsack_values_within_capacity() {
    let p = Knapsack::new(vec![2, 3, 4, 5], vec![3, 4, 5, 7], 7);
    assert_eq!(p.evaluate(&[1, 0, 0, 1]), SolutionSize::Valid(10));
    assert_eq!(p.evaluate(&[1, 1, 1, 0]), SolutionSize::Invalid);
}

#[test]
fn kth_largest_m_tuple_example() {
    let p = KthLargestMTuple::new(vec![vec![2, 5, 8], vec![3, 6], vec![1, 4, 7]], 14, 12);
    assert_eq!(p.evaluate(&[2, 1, 2]), Sum(1));
    assert_eq!(p.evaluate(&[0, 0, 0]), Sum(0));
}

#[test]
fn kth_largest_m_tuple_rejects_bad_input() {
    assert_eq!(
        KthLargestMTuple::try_new(vec![], 1, 1).err(),
        Some("KthLargestMTuple requires at least one set".to_string())
    );
    assert_eq!(
        KthLargestMTuple::try_new(vec![vec![]], 1, 1).err(),
        Some("Every set must be non-empty".to_string())
    );
    assert_eq!(
        KthLargestMTuple::try_new(vec![vec![0]], 1, 1).err(),
        Some("All sizes must be positive (> 0)".to_string())
    );
    assert_eq!(
        KthLargestMTuple::try_new(vec![vec![1]], 0, 1).err(),
        Some("Threshold K must be positive".to_string())
    );
    assert_eq!(
        KthLargestMTuple::try_new(vec![vec![1]], 1, 0).err(),
        Some("Bound B must be positive".to_string())
    );
}

#[test]
fn longest_common_subsequence_example() {
    let p = LongestCommonSubsequence::new(
        2,
        vec![
            vec![0, 1, 0, 1, 1, 0],
            vec![1, 0, 0, 1, 0, 1],
            vec![0, 0, 1, 0, 1, 1],
            vec![1, 1, 0, 0, 1, 0],
            vec![0, 1, 0, 1, 0, 1],
            vec![1, 0, 1, 0, 1, 0],
        ],
    );
    assert_eq!(p.evaluate(&[0, 0, 1, 0, 2, 2]), Max(Some(4)));
    // padding followed by a symbol
    assert_eq!(p.evaluate(&[0, 2, 1, 0, 2, 2]), Max(None));
}

#[test]
fn maximum_likelihood_ranking_example() {
    let p = MaximumLikelihoodRanking::new(vec![
        vec![0, 4, 3, 5],
        vec![1, 0, 4, 3],
        vec![2, 1, 0, 4],
        vec![0, 2, 1, 0],
    ]);
    assert_eq!(p.evaluate(&[0, 1, 2, 3]), Min(Some(7)));
}

#[test]
fn minimum_axiom_set_example() {
    let p = MinimumAxiomSet::new(
        8,
        vec![0, 1, 2, 3, 4, 5, 6, 7],
        vec![
            (vec![0], 2),
            (vec![0], 3),
            (vec![1], 4),
            (vec![1], 5),
            (vec![2, 4], 6),
            (vec![3, 5], 7),
            (vec![6, 7], 0),
            (vec![6, 7], 1),
        ],
    );
    assert_eq!(p.evaluate(&[1, 1, 0, 0, 0, 0, 0, 0]), Min(Some(2)));
    assert_eq!(p.evaluate(&[1, 0, 0, 0, 0, 0, 0, 0]), Min(None));
}

#[test]
fn minimum_code_generation_parallel_assignments_example() {
    let p = MinimumCodeGenerationParallelAssignments::new(
        4,
        vec![(0, vec![1, 2]), (1, vec![0]), (2, vec![3]), (3, vec![1, 2])],
    );
    assert_eq!(p.evaluate(&[0, 3, 1, 2]), Min(Some(2)));
}

#[test]
fn minimum_code_generation_unlimited_registers_example() {
    let p = MinimumCodeGenerationUnlimitedRegisters::new(5, vec![(1, 3), (2, 3), (0, 1)], vec![(1, 4), (2, 4), (0, 2)]);
    assert_eq!(p.num_internal(), 3);
    assert_eq!(p.num_leaves(), 2);
    assert_eq!(p.evaluate(&[2, 0, 1]), Min(Some(4)));
    // vertex 0 before its operands
    assert_eq!(p.evaluate(&[0, 1, 2]), Min(None));
    // not a permutation of the positions
    assert_eq!(p.evaluate(&[2, 2, 1]), Min(None));
}

#[test]
fn minimum_disjunctive_normal_form_example() {
    let p = MinimumDisjunctiveNormalForm::new(3, vec![false, true, true, true, true, true, true, false]);
    assert_eq!(p.num_prime_implicants(), 6);
    assert_eq!(p.minterms(), &[1, 2, 3, 4, 5, 6]);
    assert_eq!(p.evaluate(&[1, 0, 0, 1, 1, 0]), Min(Some(3)));
    assert_eq!(p.evaluate(&[0, 0, 0, 0, 0, 0]), Min(None));
    assert_eq!(p.evaluate(&[1, 0, 0, 0, 0, 0]), Min(None));
}

#[test]
fn minimum_disjunctive_normal_form_prime_implicants_are_sorted() {
    let p = MinimumDisjunctiveNormalForm::new(2, vec![false, true, true, true]);
    let patterns: Vec<Vec<Option<bool>>> = p.prime_implicants().iter().map(|pi| pi.pattern.clone()).collect();
    // x0 OR x1: the primes are "x1" (None, Some(true)) and "x0" (Some(true), None)
    assert_eq!(patterns, vec![vec![None, Some(true)], vec![Some(true), None]]);
    assert!(p.prime_implicants()[0].covers(1));
    assert!(!p.prime_implicants()[0].covers(2));
}

#[test]
fn minimum_fault_detection_test_set_example() {
    let p = MinimumFaultDetectionTestSet::new(
        7,
        vec![(0, 2), (0, 3), (1, 3), (1, 4), (2, 5), (3, 5), (3, 6), (4, 6)],
        vec![0, 1],
        vec![5, 6],
    );
    assert_eq!(p.evaluate(&[1, 0, 0, 1]), Min(Some(2)));
}

#[test]
fn minimum_register_sufficiency_for_loops_example() {
    let p = MinimumRegisterSufficiencyForLoops::new(6, vec![(0, 3), (2, 3), (4, 3)]);
    assert_eq!(p.evaluate(&[0, 1, 2]), Min(Some(3)));
}

#[test]
fn minimum_tardiness_sequencing_counts_tardy_tasks() {
    let p = MinimumTardinessSequencing::new(3, vec![1, 1, 3], vec![(0, 1)]);
    assert_eq!(p.evaluate(&[0, 1, 2]), SolutionSize::Valid(1));
    assert_eq!(p.evaluate(&[1, 0, 2]), SolutionSize::Invalid);
}

#[test]
fn minimum_weight_and_or_graph_example() {
    let p = MinimumWeightAndOrGraph::new(
        7,
        vec![(0, 1), (0, 2), (1, 3), (1, 4), (2, 5), (2, 6)],
        0,
        vec![Some(true), Some(false), Some(false), None, None, None, None],
        vec![1, 2, 3, 1, 4, 2],
    );
    assert_eq!(p.evaluate(&[1, 1, 0, 1, 0, 1]), Min(Some(6)));
}

#[test]
fn multiprocessor_scheduling_example() {
    let p = MultiprocessorScheduling::new(vec![4, 5, 3, 2, 6], 2, 10);
    assert_eq!(p.evaluate(&[0, 1, 1, 1, 0]), Or(true));
    assert_eq!(p.evaluate(&[0, 0, 0, 1, 1]), Or(false));
}

#[test]
fn numerical_matching_with_target_sums_example() {
    let p = NumericalMatchingWithTargetSums::new(vec![1, 4, 7], vec![2, 5, 3], vec![3, 7, 12]);
    assert_eq!(p.evaluate(&[0, 2, 1]), Or(true));
    assert_eq!(p.evaluate(&[0, 1, 2]), Or(false));
    assert_eq!(
        NumericalMatchingWithTargetSums::try_new(vec![], vec![], vec![]).err(),
        Some("NumericalMatchingWithTargetSums requires at least one element per set".to_string())
    );
    assert_eq!(
        NumericalMatchingWithTargetSums::try_new(vec![1], vec![], vec![1]).err(),
        Some("NumericalMatchingWithTargetSums requires sizes_x and sizes_y to have the same length".to_string())
    );
    assert_eq!(
        NumericalMatchingWithTargetSums::try_new(vec![1], vec![1], vec![]).err(),
        Some("NumericalMatchingWithTargetSums requires targets to have the same length as sizes_x".to_string())
    );
}

fn communication_instance() -> OptimumCommunicationSpanningTree {
    OptimumCommunicationSpanningTree::new(
        vec![vec![0, 1, 3, 2], vec![1, 0, 2, 4], vec![3, 2, 0, 1], vec![2, 4, 1, 0]],
        vec![vec![0, 2, 1, 3], vec![2, 0, 1, 1], vec![1, 1, 0, 2], vec![3, 1, 2, 0]],
    )
}

#[test]
fn optimum_communication_spanning_tree_example() {
    let p = communication_instance();
    assert_eq!(p.evaluate(&[1, 0, 1, 0, 0, 1]), Min(Some(20)));
    // three edges forming a triangle do not span vertex 3
    assert_eq!(p.evaluate(&[1, 1, 0, 1, 0, 0]), Min(None));
    // too few edges
    assert_eq!(p.evaluate(&[1, 0, 0, 0, 0, 1]), Min(None));
}

#[test]
fn optimum_communication_spanning_tree_edge_numbering() {
    let p = communication_instance();
    assert_eq!(p.edges(), vec![(0, 1), (0, 2), (0, 3), (1, 2), (1, 3), (2, 3)]);
    assert_eq!(p.num_edges(), 6);
    assert_eq!(OptimumCommunicationSpanningTree::edge_index(0, 1, 4), 0);
    assert_eq!(OptimumCommunicationSpanningTree::edge_index(1, 3, 4), 4);
    assert_eq!(OptimumCommunicationSpanningTree::edge_index(2, 3, 4), 5);
}

#[test]
fn paintshop_counts_switches() {
    let p = PaintShop::new(vec!["a", "b", "a", "c", "c", "b"]);
    assert_eq!(p.count_switches(&[0, 0, 0]), 3);
    assert_eq!(p.evaluate(&[0, 0, 0]), SolutionSize::Valid(3));
}

#[test]
fn partially_ordered_knapsack_example() {
    let p = PartiallyOrderedKnapsack::new(
        vec![2, 3, 4, 1, 2, 3],
        vec![3, 2, 5, 4, 3, 8],
        vec![(0, 2), (0, 3), (1, 4), (3, 5), (4, 5)],
        11,
    );
    assert_eq!(p.evaluate(&[1, 1, 0, 1, 1, 1]), Max(Some(20)));
    // item 5 without its predecessor 4
    assert_eq!(p.evaluate(&[1, 1, 0, 1, 0, 1]), Max(None));
}

#[test]
fn partition_example() {
    let p = Partition::new(vec![3, 1, 1, 2, 2, 1]);
    assert_eq!(p.evaluate(&[1, 0, 0, 1, 0, 0]), Or(true));
    assert_eq!(p.evaluate(&[1, 1, 0, 1, 0, 0]), Or(false));
}

#[test]
fn precedence_constrained_scheduling_example() {
    let p = PrecedenceConstrainedScheduling::new(
        8,
        3,
        4,
        vec![(0, 2), (0, 3), (1, 3), (1, 4), (2, 5), (3, 6), (4, 6), (5, 7), (6, 7)],
    );
    assert_eq!(p.evaluate(&[0, 0, 1, 1, 1, 2, 2, 3]), Or(true));
    assert_eq!(p.evaluate(&[0, 0, 0, 1, 1, 2, 2, 3]), Or(false));
}

#[test]
fn rectilinear_picture_compression_example() {
    let p = RectilinearPictureCompression::new(
        vec![
            vec![true, true, false, false],
            vec![true, true, false, false],
            vec![false, false, true, true],
            vec![false, false, true, true],
        ],
        2,
    );
    assert_eq!(p.maximal_rectangles(), &[(0, 0, 1, 1), (2, 2, 3, 3)]);
    assert!(p.evaluate(&[1, 1]));
    assert!(!p.evaluate(&[1, 0]));
}

#[test]
fn rectilinear_picture_compression_overlapping_rectangles() {
    // an L shape: two maximal rectangles sharing the corner
    let p = RectilinearPictureCompression::new(vec![vec![true, true], vec![true, false]], 1);
    assert_eq!(p.maximal_rectangles(), &[(0, 0, 0, 1), (0, 0, 1, 0)]);
    assert!(!p.evaluate(&[1, 1]));
    let q = RectilinearPictureCompression::new(vec![vec![true, true], vec![true, false]], 2);
    assert!(q.evaluate(&[1, 1]));
}

#[test]
fn resource_constrained_scheduling_example() {
    let p = ResourceConstrainedScheduling::new(3, vec![20], vec![vec![6], vec![7], vec![7], vec![6], vec![8], vec![6]], 2);
    assert_eq!(p.evaluate(&[0, 0, 0, 1, 1, 1]), Or(true));
    assert_eq!(p.evaluate(&[0, 0, 0, 0, 1, 1]), Or(false));
}

#[test]
fn scheduling_to_minimize_weighted_completion_time_example() {
    let p = SchedulingToMinimizeWeightedCompletionTime::new(vec![1, 2, 3, 4, 5], vec![6, 4, 3, 2, 1], 2);
    assert_eq!(p.evaluate(&[0, 1, 0, 1, 0]), Min(Some(47)));
    assert_eq!(p.evaluate(&[0, 1, 0, 1, 2]), Min(None));
}

#[test]
fn scheduling_to_minimize_weighted_completion_time_validation() {
    assert_eq!(
        SchedulingToMinimizeWeightedCompletionTime::validate(&[1], &[], 1),
        Err("lengths and weights must have the same length".to_string())
    );
    assert_eq!(
        SchedulingToMinimizeWeightedCompletionTime::validate(&[1], &[1], 0),
        Err("num_processors must be positive".to_string())
    );
    assert_eq!(
        SchedulingToMinimizeWeightedCompletionTime::validate(&[0], &[1], 1),
        Err("task lengths must be positive".to_string())
    );
    assert_eq!(
        SchedulingToMinimizeWeightedCompletionTime::validate(&[1], &[0], 1),
        Err("task weights must be positive".to_string())
    );
    assert_eq!(SchedulingToMinimizeWeightedCompletionTime::validate(&[1], &[1], 1), Ok(()));
}

#[test]
fn scheduling_with_individual_deadlines_example() {
    let p = SchedulingWithIndividualDeadlines::new(7, 3, vec![2, 1, 2, 2, 3, 3, 2], vec![(0, 3), (1, 3), (1, 4), (2, 4), (2, 5)]);
    assert!(p.evaluate(&[0, 0, 0, 1, 2, 1, 1]));
    assert!(!p.evaluate(&[0, 0, 0, 0, 2, 1, 1]));
}

#[test]
fn sequencing_to_minimize_maximum_cumulative_cost_example() {
    let p = SequencingToMinimizeMaximumCumulativeCost::new(
        vec![2, -1, 3, -2, 1, -3],
        vec![(0, 2), (1, 2), (1, 3), (2, 4), (3, 5), (4, 5)],
        4,
    );
    assert!(p.evaluate(&[1, 0, 1, 0, 0, 0]));
    // task 5 first comes before its predecessors 3 and 4
    assert!(!p.evaluate(&[5, 0, 0, 0, 0, 0]));
}

#[test]
fn sequencing_to_minimize_weighted_completion_time_example() {
    let p = SequencingToMinimizeWeightedCompletionTime::new(vec![2, 1, 3, 1, 2], vec![3, 5, 1, 4, 2], vec![(0, 2), (1, 4)]);
    assert_eq!(p.evaluate(&[1, 2, 0, 1, 0]), Min(Some(46)));
    assert_eq!(p.total_processing_time(), 9);
    // task 2 before task 0 breaks a precedence
    assert_eq!(p.evaluate(&[2, 0, 0, 0, 0]), Min(None));
}

#[test]
fn sequencing_to_minimize_weighted_completion_time_validation() {
    assert_eq!(
        SequencingToMinimizeWeightedCompletionTime::validate(&[1], &[], &[]),
        Err("lengths length must equal weights length".to_string())
    );
    assert_eq!(
        SequencingToMinimizeWeightedCompletionTime::validate(&[0], &[1], &[]),
        Err("task lengths must be positive".to_string())
    );
    assert_eq!(
        SequencingToMinimizeWeightedCompletionTime::validate(&[1, 1], &[1, 1], &[(2, 0)]),
        Err("predecessor index 2 out of range (num_tasks = 2)".to_string())
    );
    assert_eq!(
        SequencingToMinimizeWeightedCompletionTime::validate(&[1, 1], &[1, 1], &[(0, 17)]),
        Err("successor index 17 out of range (num_tasks = 2)".to_string())
    );
    assert_eq!(SequencingToMinimizeWeightedCompletionTime::validate(&[1, 1], &[1, 1], &[(0, 1)]), Ok(()));
}

#[test]
fn sequencing_to_minimize_weighted_tardiness_example() {
    let p = SequencingToMinimizeWeightedTardiness::new(vec![3, 4, 2, 5, 3], vec![2, 3, 1, 4, 2], vec![5, 8, 4, 15, 10], 13);
    assert_eq!(p.evaluate(&[0, 0, 2, 1, 0]), Or(true));
    assert_eq!(p.total_weighted_tardiness(&[0, 0, 2, 1, 0]), Some(13));
    assert_eq!(p.total_weighted_tardiness(&[0, 0, 9, 1, 0]), None);
}

#[test]
fn sequencing_with_release_times_and_deadlines_example() {
    let p = SequencingWithReleaseTimesAndDeadlines::new(vec![3, 2, 4, 1, 2], vec![0, 1, 5, 0, 8], vec![5, 6, 10, 3, 12]);
    assert!(p.evaluate(&[3, 0, 0, 0, 0]));
    assert!(!p.evaluate(&[0, 0, 0, 0, 0]));
    assert_eq!(p.time_horizon(), 12);
}

#[test]
fn sequencing_within_intervals_example() {
    let p = SequencingWithinIntervals::new(vec![0, 1, 3, 6, 0], vec![5, 8, 9, 12, 12], vec![2, 2, 2, 3, 2]);
    assert!(p.evaluate(&[0, 1, 1, 0, 9]));
    assert!(!p.evaluate(&[0, 0, 1, 0, 9]));
    assert_eq!(p.dims(), vec![4, 6, 5, 4, 11]);
}

#[test]
fn shortest_common_supersequence_example() {
    let p = ShortestCommonSupersequence::new(2, vec![vec![0, 1], vec![1, 0]]);
    assert_eq!(p.max_length(), 4);
    assert_eq!(p.evaluate(&[0, 1, 0, 2]), Min(Some(3)));
    assert_eq!(p.evaluate(&[0, 1, 2, 2]), Min(None));
}

#[test]
fn square_tiling_example() {
    let p = SquareTiling::new(3, vec![(0, 1, 2, 0), (0, 0, 2, 1), (2, 1, 0, 0), (2, 0, 0, 1)], 2);
    assert_eq!(p.evaluate(&[0, 1, 2, 3]), Or(true));
    assert_eq!(p.evaluate(&[0, 0, 2, 3]), Or(false));
}

#[test]
fn square_tiling_rejects_bad_input() {
    assert_eq!(
        SquareTiling::try_new(0, vec![(0, 0, 0, 0)], 1).err(),
        Some("SquareTiling requires at least one color".to_string())
    );
    assert_eq!(SquareTiling::try_new(1, vec![], 1).err(), Some("SquareTiling requires at least one tile".to_string()));
    assert_eq!(
        SquareTiling::try_new(1, vec![(0, 0, 0, 0)], 0).err(),
        Some("SquareTiling requires grid_size >= 1".to_string())
    );
    assert_eq!(
        SquareTiling::try_new(2, vec![(0, 0, 0, 0), (0, 2, 0, 0)], 1).err(),
        Some("Tile 1 has color(s) out of range 0..2".to_string())
    );
}
