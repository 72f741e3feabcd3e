use shard_sink::shard::{ShardAction, ShardState};
use shard_sink::types::{AccountUpdate, ShardCommand, Transaction};

fn update(slot: i64, byte_size: usize) -> ShardCommand {
    ShardCommand::InsertAccountUpdate(AccountUpdate { slot, byte_size })
}

fn worker(next_offset: i64, capacity: usize, byte_cap: usize, modulo: i64) -> ShardState {
    ShardState::new(0, 7, next_offset, capacity, byte_cap, modulo)
}

fn appended_offsets(actions: &[ShardAction]) -> Vec<i64> {
    actions
        .iter()
        .filter_map(|a| match a {
            ShardAction::Append { event } => Some(event.offset),
            _ => None,
        })
        .collect()
}

fn committed_periods(actions: &[ShardAction]) -> Vec<i64> {
    actions
        .iter()
        .filter_map(|a| match a {
            ShardAction::CommitPeriod { period } => Some(*period),
            _ => None,
        })
        .collect()
}

#[test]
fn fresh_start_first_offset_is_zero_and_no_commit() {
    // A fresh producer recovers next offset 0; offset 0 opens no period.
    let mut w = worker(0, 10, 1 << 20, 10);
    let (actions, stop) = w.step(&update(5, 100), false);
    assert!(!stop);
    assert_eq!(appended_offsets(&actions), vec![0]);
    assert_eq!(committed_periods(&actions), Vec::<i64>::new());
    assert_eq!(w.next_offset, 1);
}

#[test]
fn restart_at_twenty_commits_period_one_first() {
    // Restart after offset 19 with period size 10: the next event is
    // offset 20, and the marker for period 1 is committed before it.
    let mut w = worker(20, 10, 1 << 20, 10);
    let (actions, _) = w.step(&update(5, 100), false);
    assert_eq!(actions[0], ShardAction::CommitPeriod { period: 1 });
    assert_eq!(appended_offsets(&actions), vec![20]);
}

#[test]
fn boundary_commits_exactly_once() {
    // Crossing into period 1 at offset 10 commits period 0, exactly once.
    let mut w = worker(0, 100, 1 << 20, 10);
    let mut all = Vec::new();
    for i in 0..15 {
        let (actions, _) = w.step(&update(i, 10), false);
        all.extend(actions);
    }
    assert_eq!(committed_periods(&all), vec![0]);
    assert_eq!(appended_offsets(&all), (0..15).collect::<Vec<i64>>());
}

#[test]
fn offsets_are_contiguous_across_a_run() {
    let mut w = worker(3, 100, 1 << 20, 1000);
    let inputs: Vec<(ShardCommand, bool)> = (0..40).map(|i| (update(i, 8), false)).collect();
    let actions = w.run(&inputs);
    assert_eq!(appended_offsets(&actions), (3..43).collect::<Vec<i64>>());
    assert_eq!(w.next_offset, 43);
}

#[test]
fn buffer_capacity_triggers_flush_before_staging() {
    // Capacity 3: the fourth event flushes the three staged ones first.
    let mut w = worker(0, 3, 1 << 20, 1000);
    let mut all = Vec::new();
    for i in 0..4 {
        let (actions, _) = w.step(&update(i, 10), false);
        all.extend(actions);
    }
    let flushes: Vec<&ShardAction> = all
        .iter()
        .filter(|a| matches!(a, ShardAction::Flush { .. }))
        .collect();
    assert_eq!(flushes, vec![&ShardAction::Flush { events: 3 }]);
    assert_eq!(w.buffer.len(), 1);
}

#[test]
fn byte_size_triggers_flush() {
    // Byte cap 100: staging 60 + 60 forces a flush in between.
    let mut w = worker(0, 10, 100, 1000);
    let (a1, _) = w.step(&update(1, 60), false);
    assert!(a1.iter().all(|a| !matches!(a, ShardAction::Flush { .. })));
    let (a2, _) = w.step(&update(2, 60), false);
    assert_eq!(a2[0], ShardAction::Flush { events: 1 });
    assert_eq!(w.curr_batch_byte_size, 60);
}

#[test]
fn linger_expiry_triggers_flush() {
    let mut w = worker(0, 10, 1 << 20, 1000);
    let (_, _) = w.step(&update(1, 10), false);
    let (a2, _) = w.step(&update(2, 10), true);
    assert_eq!(a2[0], ShardAction::Flush { events: 1 });
}

#[test]
fn shutdown_flushes_what_is_buffered() {
    let mut w = worker(0, 10, 1 << 20, 1000);
    let _ = w.step(&ShardCommand::InsertTransaction(Transaction { slot: 1, byte_size: 10 }), false);
    let _ = w.step(&update(2, 10), false);
    let (actions, stop) = w.step(&ShardCommand::Shutdown, false);
    assert!(stop);
    assert_eq!(actions, vec![ShardAction::Flush { events: 2 }]);
    assert_eq!(w.buffer.len(), 0);
}

#[test]
fn shutdown_on_a_period_boundary_still_commits() {
    // The worker checks the boundary before it reads the next command:
    // shutting down exactly at offset 10 still commits period 0.
    let mut w = worker(0, 100, 1 << 20, 10);
    let inputs: Vec<(ShardCommand, bool)> = (0..10).map(|i| (update(i, 8), false)).collect();
    let _ = w.run(&inputs);
    let (actions, stop) = w.step(&ShardCommand::Shutdown, false);
    assert!(stop);
    assert_eq!(committed_periods(&actions), vec![0]);
}

#[test]
fn run_stops_at_shutdown() {
    let mut w = worker(0, 100, 1 << 20, 10);
    let inputs = vec![
        (update(1, 8), false),
        (ShardCommand::Shutdown, false),
        (update(2, 8), false),
    ];
    let actions = w.run(&inputs);
    assert_eq!(appended_offsets(&actions), vec![0]);
    assert_eq!(w.next_offset, 1);
}

#[test]
fn flush_submits_exactly_the_buffered_events() {
    // capacity 2: the third event forces a flush of the two staged
    // ones; the rows to submit are the worker's buffer, in order
    let mut w = worker(0, 2, 1 << 20, 1000);
    let _ = w.step(&update(7, 10), false);
    let _ = w.step(&update(8, 10), false);
    let before: Vec<i64> = w.buffer.iter().map(|e| e.offset).collect();
    assert_eq!(before, vec![0, 1]);
    let (actions, _) = w.step(&update(9, 10), false);
    assert_eq!(actions[0], ShardAction::Flush { events: before.len() });
    // after the flush, only the new event remains staged
    let after: Vec<i64> = w.buffer.iter().map(|e| e.offset).collect();
    assert_eq!(after, vec![2]);
}

#[test]
fn flush_due_reports_every_trigger() {
    let mut w = worker(0, 2, 100, 1000);
    assert!(!w.flush_due(10, false));
    assert!(w.flush_due(10, true));
    assert!(w.flush_due(100, false));
    let _ = w.step(&update(1, 30), false);
    assert!(w.flush_due(70, false));
    assert!(!w.flush_due(69, false));
    let _ = w.step(&update(2, 30), false);
    assert!(w.flush_due(1, false));
}
