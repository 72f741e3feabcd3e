use shard_sink::queries::{
    compute_offset, get_min_offset_for_producer, get_producer_id_with_least_assigned_consumer,
    get_slot_shard_offsets, list_living_producers, list_producer_locks, list_producer_with_slot,
    list_producers_heartbeat, OffsetQueryError, ProducerExecutionInfo, SelectProducerError,
};
use shard_sink::types::{CommitmentLevel, SeekLocation};

fn lock(pid: u8, exec: &[u8], revision: i64) -> ProducerExecutionInfo {
    ProducerExecutionInfo { producer_id: pid, execution_id: exec.to_vec(), revision }
}

#[test]
fn fencing_join_keeps_only_matching_revisions() {
    let locks = vec![lock(1, b"a", 10), lock(2, b"b", 20), lock(3, b"c", 30)];
    // producer 2's etcd revision moved on; producer 3 has no live lock
    let etcd = vec![(1u8, 10i64), (2, 21)];
    let living = list_living_producers(locks, &etcd);
    assert_eq!(living.len(), 1);
    assert_eq!(living[0].producer_id, 1);
    assert_eq!(living[0].execution_id, b"a".to_vec());
}

#[test]
fn heartbeat_keeps_recent_producers() {
    let rows = vec![(1u8, 1000i64), (2, 400), (3, 1500)];
    assert_eq!(list_producers_heartbeat(&rows, 900), vec![1, 3]);
    assert_eq!(list_producers_heartbeat(&rows, 2000), Vec::<u8>::new());
}

#[test]
fn slot_rows_dedup_to_sorted_producers() {
    let rows = vec![(5u8, 100i64), (1, 100), (5, 101), (2, 102), (1, 103)];
    assert_eq!(list_producer_with_slot(&rows), vec![1, 2, 5]);
}

#[test]
fn least_assigned_consumer_wins() {
    // two finalized living producers covering the slot range;
    // producer 1 has no consumers, producer 2 has one: producer 1 wins
    let living = vec![lock(1, b"e1", 5), lock(2, b"e2", 6)];
    let with_cl = vec![1u8, 2];
    let with_slot = vec![1u8, 2];
    let counts = vec![(2u8, 1i64)];
    let r = get_producer_id_with_least_assigned_consumer(
        living,
        &with_cl,
        CommitmentLevel::Finalized,
        Some((20, with_slot)),
        &counts,
    );
    assert_eq!(r.unwrap(), (1, b"e1".to_vec()));
}

#[test]
fn selection_ties_break_on_smallest_producer_id() {
    let living = vec![lock(4, b"x", 1), lock(2, b"y", 2), lock(9, b"z", 3)];
    let with_cl = vec![2u8, 4, 9];
    let r = get_producer_id_with_least_assigned_consumer(
        living,
        &with_cl,
        CommitmentLevel::Confirmed,
        None,
        &Vec::new(),
    );
    assert_eq!(r.unwrap(), (2, b"y".to_vec()));
}

#[test]
fn selection_reports_each_guard_failure() {
    let r = get_producer_id_with_least_assigned_consumer(
        Vec::new(),
        &vec![1u8],
        CommitmentLevel::Processed,
        None,
        &Vec::new(),
    );
    assert_eq!(r.unwrap_err(), SelectProducerError::NoActiveProducer);

    let r = get_producer_id_with_least_assigned_consumer(
        vec![lock(1, b"a", 1)],
        &Vec::new(),
        CommitmentLevel::Processed,
        None,
        &Vec::new(),
    );
    assert_eq!(
        r.unwrap_err(),
        SelectProducerError::ImpossibleCommitmentLevel(CommitmentLevel::Processed)
    );

    // the commitment-level list names nobody alive
    let r = get_producer_id_with_least_assigned_consumer(
        vec![lock(1, b"a", 1)],
        &vec![2u8],
        CommitmentLevel::Processed,
        None,
        &Vec::new(),
    );
    assert_eq!(r.unwrap_err(), SelectProducerError::ImpossibleTimelineSelection);

    // nobody observed the requested slot range
    let r = get_producer_id_with_least_assigned_consumer(
        vec![lock(1, b"a", 1)],
        &vec![1u8],
        CommitmentLevel::Processed,
        Some((20, Vec::new())),
        &Vec::new(),
    );
    assert_eq!(r.unwrap_err(), SelectProducerError::ImpossibleSlotOffset(20));
}

#[test]
fn min_offsets_are_fenced_by_revision() {
    // lock row revision r + 1, caller saw r: stale
    let r = get_min_offset_for_producer(8, Some(vec![(0, 5, 100)]), Some(7));
    assert_eq!(r.unwrap_err(), OffsetQueryError::StaleRevision(7));

    let r = get_min_offset_for_producer(8, Some(vec![(0, 5, 100)]), Some(8));
    assert_eq!(r.unwrap(), vec![(0, (5, 100))]);

    let r = get_min_offset_for_producer(8, None, None);
    assert_eq!(r.unwrap_err(), OffsetQueryError::MinimumOffsetsUnset);
}

#[test]
fn slot_lookup_pairs_offsets_with_the_covered_slot() {
    let r = get_slot_shard_offsets(Some((3, vec![(0, 40), (1, 41)], 98)), None);
    assert_eq!(r.unwrap().unwrap(), vec![(0, (40, 98)), (1, (41, 98))]);

    let r = get_slot_shard_offsets(None, Some(10));
    assert_eq!(r.unwrap(), None);

    let r = get_slot_shard_offsets(Some((3, vec![(0, 40)], 98)), Some(2));
    assert_eq!(r.unwrap_err(), OffsetQueryError::StaleRevision(2));
}

#[test]
fn compute_offset_latest_passes_positions_through() {
    let r = compute_offset(
        Some(2),
        SeekLocation::Latest,
        Some(vec![(0, (19, 500)), (1, (7, 480))]),
        None,
        None,
        None,
    );
    assert_eq!(r.unwrap(), vec![(0, (19, 500)), (1, (7, 480))]);
}

#[test]
fn compute_offset_earliest_steps_back_by_one() {
    let r = compute_offset(
        Some(2),
        SeekLocation::Earliest,
        None,
        Some((4, Some(vec![(0, 5, 100), (1, 6, 100)]))),
        None,
        Some(4),
    );
    assert_eq!(r.unwrap(), vec![(0, (4, 100)), (1, (5, 100))]);
}

#[test]
fn compute_offset_earliest_stale_revision() {
    // lock row revision is r + 1 while the caller's bound is r
    let r = compute_offset(
        Some(1),
        SeekLocation::Earliest,
        None,
        Some((5, Some(vec![(0, 5, 100)]))),
        None,
        Some(4),
    );
    assert_eq!(r.unwrap_err(), OffsetQueryError::StaleRevision(4));
}

#[test]
fn compute_offset_slot_approx_resolves_and_adjusts() {
    let r = compute_offset(
        Some(2),
        SeekLocation::SlotApprox { desired_slot: 100, min_slot: 90 },
        None,
        Some((4, Some(vec![(0, 5, 50), (1, 6, 50)]))),
        Some((4, vec![(0, 40), (1, 41)], 98)),
        None,
    );
    assert_eq!(r.unwrap(), vec![(0, (39, 98)), (1, (40, 98))]);
}

#[test]
fn compute_offset_slot_approx_unreachable_minimum() {
    // shard 1's minimum offset already exceeds what the slot row holds
    let r = compute_offset(
        Some(2),
        SeekLocation::SlotApprox { desired_slot: 100, min_slot: 90 },
        None,
        Some((4, Some(vec![(0, 5, 50), (1, 60, 50)]))),
        Some((4, vec![(0, 40), (1, 41)], 98)),
        None,
    );
    assert_eq!(r.unwrap_err(), OffsetQueryError::ImpossibleSlotOffset(100));
}

#[test]
fn compute_offset_slot_approx_without_row_in_range() {
    let r = compute_offset(
        Some(1),
        SeekLocation::SlotApprox { desired_slot: 100, min_slot: 90 },
        None,
        Some((4, Some(vec![(0, 5, 50)]))),
        None,
        None,
    );
    assert_eq!(r.unwrap_err(), OffsetQueryError::ImpossibleSlotOffset(100));
}

#[test]
fn compute_offset_guards_shard_count_and_producer() {
    let r = compute_offset(None, SeekLocation::Latest, Some(Vec::new()), None, None, None);
    assert_eq!(r.unwrap_err(), OffsetQueryError::ProducerNotFound);

    let r = compute_offset(
        Some(3),
        SeekLocation::Latest,
        Some(vec![(0, (19, 500))]),
        None,
        None,
        None,
    );
    assert_eq!(r.unwrap_err(), OffsetQueryError::ShardCountMismatch);
}

#[test]
fn lock_rows_normalize_to_one_per_producer() {
    // duplicates resolve to the last row read, output ordered by id
    let raw = vec![
        lock(9, b"old", 1),
        lock(2, b"b", 20),
        lock(9, b"new", 7),
    ];
    let out = list_producer_locks(&raw);
    assert_eq!(out.len(), 2);
    assert_eq!(out[0].producer_id, 2);
    assert_eq!(out[0].execution_id, b"b".to_vec());
    assert_eq!(out[1].producer_id, 9);
    assert_eq!(out[1].execution_id, b"new".to_vec());
    assert_eq!(out[1].revision, 7);
}

#[test]
fn selection_succeeds_whenever_survivors_exist() {
    // a single living producer at the requested level is owed Ok
    let living = vec![lock(5, b"only", 3)];
    let r = get_producer_id_with_least_assigned_consumer(
        living,
        &vec![5u8],
        CommitmentLevel::Finalized,
        Some((99, vec![5u8])),
        &vec![(5u8, 1000i64)],
    );
    assert_eq!(r.unwrap(), (5, b"only".to_vec()));
}
