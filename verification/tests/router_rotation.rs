use shard_sink::router::{RouterState, SlotSet};
use shard_sink::shard::{ShardAction, ShardState};
use shard_sink::types::{AccountUpdate, ShardCommand, SLOT_SEEN_RETENTION};

fn update(slot: i64) -> ShardCommand {
    ShardCommand::InsertAccountUpdate(AccountUpdate { slot, byte_size: 16 })
}

#[test]
fn round_robin_two_shards_six_messages() {
    // Two shards, period size 10, buffer capacity 3: six messages fan
    // out alternately, each shard gets offsets 0, 1, 2, and a linger
    // expiry flushes all three on each shard.
    let mut router = RouterState::new(2);
    let mut shards = vec![
        ShardState::new(0, 7, 0, 3, 1 << 20, 10),
        ShardState::new(1, 7, 0, 3, 1 << 20, 10),
    ];
    let mut per_shard: Vec<Vec<i64>> = vec![Vec::new(), Vec::new()];
    let mut records = 0usize;
    for (j, slot) in [100i64, 100, 101, 101, 102, 102].iter().enumerate() {
        let d = router.route(*slot, vec![(0, -1), (1, -1)]);
        assert_eq!(d.target_shard, j % 2);
        if d.record.is_some() {
            records += 1;
        }
        let (actions, _) = shards[d.target_shard].step(&update(*slot), false);
        for a in actions {
            if let ShardAction::Append { event } = a {
                per_shard[d.target_shard].push(event.offset);
            }
        }
    }
    assert_eq!(per_shard[0], vec![0, 1, 2]);
    assert_eq!(per_shard[1], vec![0, 1, 2]);
    // one slot-seen record per distinct slot
    assert_eq!(records, 3);
    // the linger deadline passes: both shards flush their three rows
    let (a0, _) = shards[0].step(&update(103), true);
    let (a1, _) = shards[1].step(&update(103), true);
    assert_eq!(a0[0], ShardAction::Flush { events: 3 });
    assert_eq!(a1[0], ShardAction::Flush { events: 3 });
}

#[test]
fn record_only_on_first_observation() {
    let mut router = RouterState::new(3);
    let d1 = router.route(42, vec![(0, 5)]);
    assert!(d1.record.is_some());
    let rec = d1.record.unwrap();
    assert_eq!(rec.slot, 42);
    assert_eq!(rec.shard_offsets, vec![(0, 5)]);
    let d2 = router.route(42, vec![(0, 6)]);
    assert!(d2.record.is_none());
}

#[test]
fn late_slot_warns_but_is_recorded_and_max_keeps() {
    let mut router = RouterState::new(1);
    let d1 = router.route(100, Vec::new());
    assert!(!d1.late_arrival);
    assert_eq!(router.max_slot_seen, 100);
    // an older slot arrives late: warned, still recorded, max unchanged
    let d2 = router.route(90, Vec::new());
    assert!(d2.late_arrival);
    assert!(d2.record.is_some());
    assert_eq!(router.max_slot_seen, 100);
    // a repeat of the late slot is no longer new
    let d3 = router.route(90, Vec::new());
    assert!(!d3.late_arrival);
    assert!(d3.record.is_none());
}

#[test]
fn retention_evicts_smallest_and_reobservation_is_fresh() {
    let mut router = RouterState::new(1);
    // fill the retention window with distinct slots 0 .. 9000
    for s in 0..SLOT_SEEN_RETENTION as i64 {
        let d = router.route(s, Vec::new());
        assert!(d.record.is_some());
    }
    // slot 0, the smallest, was evicted when the window overflowed:
    // re-observing it publishes a fresh record
    let d = router.route(0, Vec::new());
    assert!(d.record.is_some());
    // while a slot still inside the window stays deduplicated
    let d2 = router.route(8999, Vec::new());
    assert!(d2.record.is_none());
}

#[test]
fn slot_window_orders_and_dedups() {
    let mut set = SlotSet::new();
    assert!(set.insert(30));
    assert!(set.insert(10));
    assert!(!set.insert(30));
    assert!(set.insert(20));
    assert_eq!(set.len(), 3);
    assert!(set.contains(20));
    assert!(!set.contains(25));
    // eviction order is smallest first
    assert_eq!(set.pop_smallest(), 10);
    assert_eq!(set.pop_smallest(), 20);
    assert_eq!(set.pop_smallest(), 30);
    assert_eq!(set.len(), 0);
}
