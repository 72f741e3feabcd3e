use shard_sink::recovery::{current_period_per_shard, max_offsets, max_offsets_with_slots, RecoveryError};
use shard_sink::shard::{ShardAction, ShardState};
use shard_sink::types::{AccountUpdate, ShardCommand, UNDEFINED_SLOT};

fn update(slot: i64) -> ShardCommand {
    ShardCommand::InsertAccountUpdate(AccountUpdate { slot, byte_size: 16 })
}

#[test]
fn fresh_tables_recover_position_before_zero() {
    // No commit rows, no log rows: every shard resumes at offset 0.
    let periods = current_period_per_shard(2, &Vec::new()).unwrap();
    assert_eq!(periods, vec![0, 0]);
    let recovered = max_offsets(&periods, &vec![None, None], 10);
    assert_eq!(recovered, vec![-1, -1]);
    // the worker then starts at recovered + 1 == 0
    let w = ShardState::new(0, 7, recovered[0] + 1, 10, 1 << 20, 10);
    assert_eq!(w.next_offset, 0);
}

#[test]
fn restart_after_nineteen_resumes_at_twenty() {
    // Shard 0 committed period 0 and wrote up to offset 19 (period 1).
    let periods = current_period_per_shard(1, &vec![(0, 0)]).unwrap();
    assert_eq!(periods, vec![1]);
    let recovered = max_offsets(&periods, &vec![Some(19)], 10);
    assert_eq!(recovered, vec![19]);
    assert_eq!(recovered[0] + 1, 20);
}

#[test]
fn empty_current_partition_falls_back_to_period_end() {
    // Period 2 committed, nothing yet in partition 3 (period size 10):
    // the position is the last offset of period 2.
    let periods = current_period_per_shard(1, &vec![(0, 2)]).unwrap();
    assert_eq!(periods, vec![3]);
    let pairs = max_offsets_with_slots(&periods, &vec![None], 10);
    assert_eq!(pairs, vec![(29, UNDEFINED_SLOT)]);
}

#[test]
fn recovered_slots_come_from_the_rows() {
    let periods = current_period_per_shard(2, &vec![(1, 4)]).unwrap();
    assert_eq!(periods, vec![0, 5]);
    let pairs = max_offsets_with_slots(&periods, &vec![Some((3, 777)), Some((52, 900))], 10);
    assert_eq!(pairs, vec![(3, 777), (52, 900)]);
}

#[test]
fn out_of_range_shard_aborts_recovery() {
    let r = current_period_per_shard(2, &vec![(0, 1), (5, 2)]);
    assert_eq!(r, Err(RecoveryError::RecoveryIncomplete));
    let r2 = current_period_per_shard(2, &vec![(-1, 1)]);
    assert_eq!(r2, Err(RecoveryError::RecoveryIncomplete));
}

/// Replays a clean session and recovers from exactly the tables it
/// wrote: the recovered position is the last appended offset.
fn replay_and_recover(events: i64, modulo: i64) -> (i64, i64) {
    let mut w = ShardState::new(0, 7, 0, 1 << 10, 1 << 20, modulo);
    let mut inputs: Vec<(ShardCommand, bool)> = (0..events).map(|i| (update(i), false)).collect();
    inputs.push((ShardCommand::Shutdown, false));
    let actions = w.run(&inputs);

    // the tables after the run
    let mut commit_rows: Vec<(i16, i64)> = Vec::new();
    let mut log_offsets: Vec<i64> = Vec::new();
    for a in &actions {
        match a {
            ShardAction::CommitPeriod { period } => {
                // latest commit per shard, as the commit-log query returns it
                commit_rows = vec![(0, *period)];
            }
            ShardAction::Append { event } => log_offsets.push(event.offset),
            ShardAction::Flush { .. } => {}
        }
    }
    let periods = current_period_per_shard(1, &commit_rows).unwrap();
    let max_in_partition = log_offsets
        .iter()
        .copied()
        .filter(|o| o / modulo == periods[0])
        .max();
    let recovered = max_offsets(&periods, &vec![max_in_partition], modulo);
    (recovered[0], w.next_offset)
}

#[test]
fn latest_equals_final_position_after_clean_shutdown() {
    for events in [0i64, 1, 5, 9, 10, 11, 19, 20, 21, 35] {
        let (recovered, next_offset) = replay_and_recover(events, 10);
        assert_eq!(recovered, next_offset - 1, "events = {events}");
    }
}

#[test]
fn restart_continues_the_offset_sequence() {
    // first session: 7 events, clean shutdown
    let (recovered, _) = replay_and_recover(7, 10);
    // second session resumes one past the recovered position
    let mut w = ShardState::new(0, 7, recovered + 1, 1 << 10, 1 << 20, 10);
    let inputs: Vec<(ShardCommand, bool)> = (0..7).map(|i| (update(i), false)).collect();
    let actions = w.run(&inputs);
    let offsets: Vec<i64> = actions
        .iter()
        .filter_map(|a| match a {
            ShardAction::Append { event } => Some(event.offset),
            _ => None,
        })
        .collect();
    assert_eq!(offsets, (7..14).collect::<Vec<i64>>());
}
