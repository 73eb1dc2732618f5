use problemreductions::circulation::has_feasible_circulation;
use problemreductions::flow::max_flow;
use problemreductions::dag::{earliest_starts, topological_order};
use problemreductions::fd::compute_closure;
use problemreductions::models::misc::{
    JobShopScheduling, MinimumDisjunctiveNormalForm, OptimumCommunicationSpanningTree,
};
use problemreductions::reach::reach_by_kept_edges;
use problemreductions::models::graph::UndirectedFlowLowerBounds;
use problemreductions::topology::SimpleGraph;
use problemreductions::util::{check_order_respects, check_permutation, decode_lehmer, inverse_positions};

#[test]
fn lehmer_codes_decode_to_permutations() {
    for a in 0..3 {
        for b in 0..2 {
            let order = decode_lehmer(&[a, b, 0], 3).unwrap();
            assert!(check_permutation(&order, 3));
        }
    }
    assert_eq!(decode_lehmer(&[2, 0, 0], 3), Some(vec![2, 0, 1]));
    assert_eq!(decode_lehmer(&[0, 2, 0], 3), None);
    assert_eq!(decode_lehmer(&[0, 0], 3), None);
}

#[test]
fn inverse_positions_invert_the_order() {
    let order = vec![2, 0, 3, 1];
    let pos = inverse_positions(&order, 4);
    assert_eq!(pos, vec![1, 3, 0, 2]);
    for (k, &t) in order.iter().enumerate() {
        assert_eq!(pos[t], k);
    }
    assert!(check_order_respects(&order, &[(2, 3), (0, 1)], 4));
    assert!(!check_order_respects(&order, &[(1, 0)], 4));
}

#[test]
fn reachability_follows_kept_edges_both_ways() {
    let edges = [(0, 1), (1, 2), (3, 2), (4, 5)];
    let reached = reach_by_kept_edges(6, &edges, &[true, true, true, true], 0);
    assert_eq!(reached, vec![true, true, true, true, false, false]);
    let reached = reach_by_kept_edges(6, &edges, &[true, false, true, true], 0);
    assert_eq!(reached, vec![true, true, false, false, false, false]);
}

#[test]
fn closure_is_the_least_closed_superset() {
    // {0} -> {1}, {1, 2} -> {3}, {3} -> {0}
    let deps = vec![(vec![0], vec![1]), (vec![1, 2], vec![3]), (vec![3], vec![0])];
    assert_eq!(compute_closure(&deps, &[true, false, false, false]), vec![true, true, false, false]);
    assert_eq!(compute_closure(&deps, &[false, false, true, false]), vec![false, false, true, false]);
    assert_eq!(compute_closure(&deps, &[true, false, true, false]), vec![true, true, true, true]);
}

#[test]
fn earliest_starts_respect_every_arc() {
    let arcs = [(0, 1), (0, 2), (1, 3), (2, 3)];
    let lens = [2, 5, 1, 3];
    let st = earliest_starts(4, &arcs, &lens).unwrap();
    assert_eq!(st, vec![0, 2, 2, 7]);
    for &(p, t) in &arcs {
        assert!(st[t] >= st[p] + lens[p]);
    }
    assert!(topological_order(4, &arcs).is_some());
    assert_eq!(earliest_starts(3, &[(0, 1), (1, 2), (2, 0)], &[1, 1, 1]), None);
    assert_eq!(topological_order(3, &[(0, 1), (1, 2), (2, 0)]), None);
    assert_eq!(earliest_starts(2, &[(0, 1)], &[u64::MAX, 1]), None);
}

#[test]
fn job_shop_schedule_respects_job_and_processor_order() {
    let p = JobShopScheduling::new(
        2,
        vec![
            vec![(0, 3), (1, 4)],
            vec![(1, 2), (0, 3), (1, 2)],
            vec![(0, 4), (1, 3)],
            vec![(1, 5), (0, 2)],
            vec![(0, 2), (1, 3), (0, 1)],
        ],
    );
    let config = [0, 0, 0, 0, 0, 0, 1, 3, 0, 1, 1, 0];
    let st = p.schedule_from_config(&config).unwrap();
    let lens = [3, 4, 2, 3, 2, 4, 3, 5, 2, 2, 3, 1];
    // within-job order
    for &(a, b) in &[(0, 1), (2, 3), (3, 4), (5, 6), (7, 8), (9, 10), (10, 11)] {
        assert!(st[b] >= st[a] + lens[a]);
    }
    let makespan = (0..12).map(|t| st[t] + lens[t]).max().unwrap();
    assert_eq!(makespan, 19);
}

#[test]
fn edge_index_is_the_position_in_the_edge_list() {
    let p = OptimumCommunicationSpanningTree::new(
        vec![vec![1, 1, 1, 1, 1]; 5].into_iter().enumerate().map(|(i, mut row)| {
            row[i] = 0;
            row
        }).collect(),
        vec![vec![0; 5]; 5],
    );
    let edges = p.edges();
    for (k, &(i, j)) in edges.iter().enumerate() {
        assert_eq!(OptimumCommunicationSpanningTree::edge_index(i, j, 5), k);
    }
}

#[test]
fn valid_dnf_selection_expresses_the_function() {
    let tt = vec![false, true, true, true, true, true, true, false];
    let p = MinimumDisjunctiveNormalForm::new(3, tt.clone());
    let config = [1, 0, 0, 1, 1, 0];
    assert!(p.evaluate(&config).0.is_some());
    for m in 0..8 {
        let covered = config
            .iter()
            .enumerate()
            .any(|(i, &c)| c == 1 && p.prime_implicants()[i].covers(m));
        assert_eq!(covered, tt[m]);
    }
}

#[test]
fn circulation_exists_exactly_when_bounds_allow() {
    let cycle = [(0, 1), (1, 2), (2, 0)];
    // A directed cycle carries the same value on every arc.
    assert!(has_feasible_circulation(3, &cycle, &[1, 2, 0], &[3, 3, 3]));
    assert!(!has_feasible_circulation(3, &cycle, &[1, 2, 0], &[1, 3, 3]));
    // Two parallel paths from 0 to 2 closed by a return arc.
    let paths = [(0, 1), (1, 2), (0, 2), (2, 0)];
    assert!(has_feasible_circulation(3, &paths, &[2, 0, 1, 0], &[2, 5, 1, 3]));
    assert!(!has_feasible_circulation(3, &paths, &[2, 0, 1, 0], &[2, 5, 1, 2]));
    assert!(has_feasible_circulation(2, &[], &[], &[]));
    // A lower bound on an arc with no way back cannot be met.
    assert!(!has_feasible_circulation(2, &[(0, 1)], &[1], &[4]));
    assert!(has_feasible_circulation(2, &[(0, 1)], &[0], &[4]));
}

#[test]
fn maximum_flow_fills_a_cut() {
    let arcs = [(0, 1), (0, 2), (1, 2), (1, 3), (2, 3)];
    let (x, reached) = max_flow(4, &arcs, &[3, 2, 1, 2, 3], 0, 3);
    assert_eq!(x[0] + x[1], 5);
    assert_eq!(x[3] + x[4], 5);
    assert_eq!(x[0], x[2] + x[3]);
    assert_eq!(x[1] + x[2], x[4]);
    assert_eq!(reached, vec![true, false, false, false]);
}

#[test]
fn orientation_feasibility_is_a_circulation_with_return_arc() {
    let edges = vec![(0, 1), (0, 2), (1, 3), (2, 3), (1, 4), (3, 5), (4, 5)];
    let caps: Vec<u64> = vec![2, 2, 2, 2, 1, 3, 2];
    let lows: Vec<u64> = vec![1, 1, 0, 0, 1, 0, 1];
    let total: u128 = caps.iter().map(|&c| c as u128).sum();
    let mut arcs = edges.clone();
    arcs.push((5, 0));
    let mut upper: Vec<u128> = caps.iter().map(|&c| c as u128).collect();
    upper.push(total);
    for requirement in 1..=6u64 {
        let p = UndirectedFlowLowerBounds::new(
            SimpleGraph::new(6, edges.clone()),
            caps.clone(),
            lows.clone(),
            0,
            5,
            requirement,
        );
        let mut lower = lows.clone();
        lower.push(requirement);
        let circulation = has_feasible_circulation(6, &arcs, &lower, &upper);
        assert_eq!(p.evaluate(&[0, 0, 0, 0, 0, 0, 0]).0, circulation);
        assert_eq!(circulation, requirement <= 4);
    }
}
