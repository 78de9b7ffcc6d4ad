use pathway_engine::concat::{concat_tables, ConcatPolicy};
use pathway_engine::ixer::{resolve_pointers, IxKeyPolicy};
use pathway_engine::iterate::{iterate, NeighborMin};
use pathway_engine::join::{JoinState, JoinType};
use pathway_engine::progress::ProgressTracker;
use pathway_engine::reduce::GroupAccumulator;
use pathway_engine::table::{Diff, TableState};
use pathway_engine::value::{Key, Value};
use pathway_engine::error::Error;

fn diff(key: u64, sign: i64) -> Diff {
    Diff {
        key,
        row: Value::Null,
        time: 0,
        sign,
    }
}

#[test]
fn value_dup_copies_deeply() {
    let v = Value::Tuple(vec![
        Value::Int(3),
        Value::Str("a".to_string()),
        Value::Pointer(Key(7)),
        Value::Bool(true),
        Value::Error,
    ]);
    assert_eq!(v.dup(), v);
    assert!(!v.is_error());
    assert!(Value::Error.is_error());
}

#[test]
fn table_batch_order_is_immaterial() {
    // the same diffs in two arrival orders give the same net multiplicities
    let forward = vec![diff(1, 1), diff(2, 1), diff(1, 1), diff(2, -1)];
    let backward = vec![diff(2, -1), diff(1, 1), diff(2, 1), diff(1, 1)];

    let mut t1 = TableState::new();
    t1.apply_batch(&forward);
    let mut t2 = TableState::new();
    t2.apply_batch(&backward);

    assert_eq!(t1.get_count(1), 2);
    assert_eq!(t1.get_count(2), 0);
    assert_eq!(t2.get_count(1), 2);
    assert_eq!(t2.get_count(2), 0);
    assert_eq!(t1.get_count(3), 0);
}

#[test]
fn table_retraction_cancels_insertion() {
    let mut t = TableState::new();
    t.apply(5, 1);
    t.apply(5, -1);
    assert_eq!(t.get_count(5), 0);
}

#[test]
fn reducer_sum_survives_retraction() {
    // Sum over [+5, +3, -5] converges to 3 in any order
    let mut g1 = GroupAccumulator::new();
    g1.apply_updates(&vec![(5, 1), (3, 1), (5, -1)]);
    assert_eq!(g1.sum(), 3);
    assert_eq!(g1.count(), 1);

    let mut g2 = GroupAccumulator::new();
    g2.apply_updates(&vec![(5, -1), (5, 1), (3, 1)]);
    assert_eq!(g2.sum(), 3);
    assert_eq!(g2.count(), 1);
}

#[test]
fn reducer_min_max_resolve_retractions_exactly() {
    let mut g = GroupAccumulator::new();
    g.update(7, 1);
    g.update(3, 1);
    g.update(9, 1);
    assert_eq!(g.min(), Some(3));
    assert_eq!(g.max(), Some(9));
    // retracting the current extremes reveals the survivors
    g.update(3, -1);
    g.update(9, -1);
    assert_eq!(g.min(), Some(7));
    assert_eq!(g.max(), Some(7));
    g.update(7, -1);
    assert_eq!(g.min(), None);
    assert_eq!(g.max(), None);
    assert_eq!(g.count(), 0);
    assert_eq!(g.sum(), 0);
}

#[test]
fn inner_join_emits_and_retracts_matched_rows() {
    let mut j = JoinState::new(JoinType::Inner);
    let out = j.apply_right(1, Value::Int(1), 1);
    assert_eq!(out.len(), 0);

    let out = j.apply_left(1, Value::Str("a".to_string()), 1);
    assert_eq!(out.len(), 1);
    assert_eq!(out[0].key, 1);
    assert_eq!(out[0].left_row, Some(Value::Str("a".to_string())));
    assert_eq!(out[0].right_row, Some(Value::Int(1)));
    assert_eq!(out[0].sign, 1);

    // retracting the left row retracts exactly the combined row
    let out = j.apply_left(1, Value::Str("a".to_string()), -1);
    assert_eq!(out.len(), 1);
    assert_eq!(out[0].left_row, Some(Value::Str("a".to_string())));
    assert_eq!(out[0].right_row, Some(Value::Int(1)));
    assert_eq!(out[0].sign, -1);
}

#[test]
fn left_outer_join_pads_then_swaps_on_match() {
    let mut j = JoinState::new(JoinType::LeftOuter);

    // unmatched left row comes out null-padded
    let out = j.apply_left(1, Value::Str("a".to_string()), 1);
    assert_eq!(out.len(), 1);
    assert_eq!(out[0].left_row, Some(Value::Str("a".to_string())));
    assert_eq!(out[0].right_row, None);
    assert_eq!(out[0].sign, 1);

    // a matching right row retracts the padded row and emits the match
    let out = j.apply_right(1, Value::Int(1), 1);
    assert_eq!(out.len(), 2);
    assert_eq!(out[0].left_row, Some(Value::Str("a".to_string())));
    assert_eq!(out[0].right_row, Some(Value::Int(1)));
    assert_eq!(out[0].sign, 1);
    assert_eq!(out[1].left_row, Some(Value::Str("a".to_string())));
    assert_eq!(out[1].right_row, None);
    assert_eq!(out[1].sign, -1);

    // retracting the match restores the padded row
    let out = j.apply_right(1, Value::Int(1), -1);
    assert_eq!(out.len(), 2);
    assert_eq!(out[0].sign, -1);
    assert_eq!(out[0].right_row, Some(Value::Int(1)));
    assert_eq!(out[1].right_row, None);
    assert_eq!(out[1].sign, 1);
}

#[test]
fn full_outer_join_pads_both_sides() {
    let mut j = JoinState::new(JoinType::FullOuter);
    let out = j.apply_right(2, Value::Int(9), 1);
    assert_eq!(out.len(), 1);
    assert_eq!(out[0].left_row, None);
    assert_eq!(out[0].right_row, Some(Value::Int(9)));
    assert_eq!(out[0].sign, 1);

    let out = j.apply_left(2, Value::Int(8), 1);
    assert_eq!(out.len(), 2);
    assert_eq!(out[0].left_row, Some(Value::Int(8)));
    assert_eq!(out[0].right_row, Some(Value::Int(9)));
    assert_eq!(out[0].sign, 1);
    assert_eq!(out[1].left_row, None);
    assert_eq!(out[1].right_row, Some(Value::Int(9)));
    assert_eq!(out[1].sign, -1);
}

#[test]
fn join_multiplicities_multiply() {
    let mut j = JoinState::new(JoinType::Inner);
    j.apply_right(1, Value::Int(1), 1);
    j.apply_right(1, Value::Int(1), 1);
    // two right copies: one left insertion matches both at once
    let out = j.apply_left(1, Value::Str("a".to_string()), 1);
    assert_eq!(out.len(), 1);
    assert_eq!(out[0].sign, 2);
}

#[test]
fn progress_batches_are_atomic() {
    let mut p = ProgressTracker::new();
    assert_eq!(p.current_time(), 0);
    p.push(1, Value::Int(10), 1);
    p.push(2, Value::Int(20), 1);
    p.close_time();
    p.push(1, Value::Int(10), -1);
    p.close_time();
    assert_eq!(p.current_time(), 2);
    assert_eq!(p.frontier(), 0);

    // the whole first timestamp arrives at once
    let b = p.next_batch().unwrap();
    assert_eq!(b.time, 0);
    assert_eq!(b.diffs.len(), 2);
    assert!(b.diffs.iter().all(|d| d.time == 0));
    assert_eq!(b.diffs[0].key, 1);
    assert_eq!(b.diffs[1].key, 2);
    assert_eq!(p.frontier(), 1);

    let b = p.next_batch().unwrap();
    assert_eq!(b.time, 1);
    assert_eq!(b.diffs.len(), 1);
    assert_eq!(b.diffs[0].sign, -1);

    assert!(p.next_batch().is_none());
    assert_eq!(p.frontier(), 2);
}

#[test]
fn iteration_converges_to_component_minimum() {
    let logic = NeighborMin {
        edges: vec![(0, 1), (1, 2), (2, 3), (3, 4)],
    };
    let init = vec![5, 4, 3, 2, 1];
    let out = iterate(&logic, &init, 10).unwrap();
    assert_eq!(out, vec![1, 1, 1, 1, 1]);

    // the same graph with the edges listed backwards reaches the same fixpoint
    let logic_rev = NeighborMin {
        edges: vec![(3, 4), (2, 3), (1, 2), (0, 1)],
    };
    let out_rev = iterate(&logic_rev, &init, 10).unwrap();
    assert_eq!(out_rev, vec![1, 1, 1, 1, 1]);
}

#[test]
fn iteration_reports_nonconvergence_at_round_limit() {
    let logic = NeighborMin {
        edges: vec![(0, 1), (1, 2), (2, 3), (3, 4)],
    };
    let init = vec![5, 4, 3, 2, 1];
    let r = iterate(&logic, &init, 2);
    assert_eq!(r, Err(Error::NonConvergence));
}

#[test]
fn concat_policy_decides_conflicts() {
    let a = vec![(1u64, Value::Int(10)), (2, Value::Int(20))];
    let b = vec![(2u64, Value::Int(99)), (3, Value::Int(30))];

    let r = concat_tables(&a, &b, ConcatPolicy::FailOnConflict);
    assert_eq!(r, Err(Error::KeyPolicyViolation));

    let first = concat_tables(&a, &b, ConcatPolicy::KeepFirst).unwrap();
    assert_eq!(
        first,
        vec![
            (1, Value::Int(10)),
            (2, Value::Int(20)),
            (3, Value::Int(30))
        ]
    );

    let last = concat_tables(&a, &b, ConcatPolicy::KeepLast).unwrap();
    assert_eq!(
        last,
        vec![
            (1, Value::Int(10)),
            (2, Value::Int(99)),
            (3, Value::Int(30))
        ]
    );
}

#[test]
fn concat_without_conflicts_appends() {
    let a = vec![(1u64, Value::Int(10))];
    let b = vec![(2u64, Value::Int(20))];
    let merged = concat_tables(&a, &b, ConcatPolicy::FailOnConflict).unwrap();
    assert_eq!(merged, vec![(1, Value::Int(10)), (2, Value::Int(20))]);
}

#[test]
fn pointer_resolution_follows_the_policy() {
    let rows = vec![(1u64, 100u64), (2, 200), (3, 300)];
    let universe = vec![100u64, 300];

    let r = resolve_pointers(&rows, &universe, IxKeyPolicy::FailMissing);
    assert_eq!(r, Err(Error::KeyPolicyViolation));

    let kept = resolve_pointers(&rows, &universe, IxKeyPolicy::SkipMissing).unwrap();
    assert_eq!(kept, vec![(1, 100), (3, 300)]);

    let full = vec![100u64, 200, 300];
    let all = resolve_pointers(&rows, &full, IxKeyPolicy::FailMissing).unwrap();
    assert_eq!(all, rows);
}
