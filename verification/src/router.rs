//! The round-robin router: one inbound mailbox fanned out over the
//! shard workers in strict rotation, plus the slot-progress tracking
//! that publishes "producer has observed slot S" records.
//!
//! `route` decides, for one inbound command, which shard receives it,
//! whether a slot-seen record is published, and whether the slot
//! arrived late. The actual mailbox sends and the database write are
//! performed by the surrounding task.

use vstd::prelude::*;

use crate::types::{ShardId, ShardOffset, Slot, SLOT_SEEN_RETENTION};

verus! {

/// The distinct slots the router has seen lately, smallest first.
pub struct SlotSet {
    slots: Vec<Slot>,
}

impl View for SlotSet {
    type V = Seq<Slot>;

    closed spec fn view(&self) -> Seq<Slot> {
        self.slots@
    }
}

impl SlotSet {
    /// Strictly sorted: each slot appears once, in increasing order.
    pub open spec fn wf(self) -> bool {
        forall|i: int, j: int| 0 <= i < j < self@.len() ==> self@[i] < self@[j]
    }

    pub fn new() -> (s: SlotSet)
        ensures
            s@ == Seq::<Slot>::empty(),
            s.wf(),
    {
        let s = SlotSet { slots: Vec::new() };
        proof {
            assert(s@ =~= Seq::<Slot>::empty());
        }
        s
    }

    pub fn len(&self) -> (n: usize)
        ensures
            n == self@.len(),
    {
        self.slots.len()
    }

    pub fn contains(&self, slot: Slot) -> (b: bool)
        ensures
            b == self@.contains(slot),
    {
        let n = self.slots.len();
        let mut i: usize = 0;
        while i < n
            invariant
                0 <= i <= n,
                n == self@.len(),
                forall|j: int| 0 <= j < i ==> self@[j] != slot,
            decreases n - i,
        {
            if self.slots[i] == slot {
                return true;
            }
            i = i + 1;
        }
        false
    }

    /// Record `slot`; reports whether it was new. The set keeps its
    /// order, gains the slot, and nothing else changes.
    pub fn insert(&mut self, slot: Slot) -> (is_new: bool)
        requires
            old(self).wf(),
        ensures
            final(self).wf(),
            is_new == !old(self)@.contains(slot),
            !is_new ==> final(self)@ == old(self)@,
            final(self)@.len() == old(self)@.len() + (if is_new {
                1int
            } else {
                0int
            }),
            forall|x: Slot| final(self)@.contains(x) <==> old(self)@.contains(x) || x == slot,
            final(self)@.contains(slot),
    {
        let ghost pre = self@;
        let n = self.slots.len();
        let mut idx: usize = 0;
        while idx < n && self.slots[idx] < slot
            invariant
                0 <= idx <= n,
                n == self@.len(),
                forall|j: int| 0 <= j < idx ==> self@[j] < slot,
            decreases n - idx,
        {
            idx = idx + 1;
        }
        if idx < n && self.slots[idx] == slot {
            proof {
                assert(self@[idx as int] == slot);
                assert(self@.contains(slot));
                assert(forall|x: Slot|
                    final(self)@.contains(x) <==> pre.contains(x) || x == slot);
            }
            false
        } else {
            proof {
                assert forall|j: int| 0 <= j < pre.len() implies pre[j] != slot by {
                    if j >= idx {
                        assert(pre[idx as int] <= pre[j]);
                    }
                }
                assert(!pre.contains(slot));
            }
            self.slots.insert(idx, slot);
            proof {
                let cur = self@;
                assert(cur =~= pre.subrange(0, idx as int).push(slot) + pre.subrange(
                    idx as int,
                    pre.len() as int,
                ));
                assert(forall|j: int| 0 <= j < idx ==> cur[j] == pre[j]);
                assert(cur[idx as int] == slot);
                assert(forall|j: int| idx < j < cur.len() ==> cur[j] == pre[j - 1]);
                assert forall|i: int, j: int| 0 <= i < j < cur.len() implies cur[i] < cur[j] by {
                    if i < idx && j == idx {
                        assert(cur[i] == pre[i] && pre[i] < slot);
                    } else if i == idx && j > idx {
                        assert(pre[idx as int] > slot || idx as int == pre.len());
                        assert(cur[j] == pre[j - 1] && pre[j - 1] >= pre[idx as int]);
                    }
                }
                assert forall|x: Slot| cur.contains(x) <==> pre.contains(x) || x == slot by {
                    if cur.contains(x) {
                        let j = choose|j: int| 0 <= j < cur.len() && cur[j] == x;
                        if j < idx {
                            assert(pre[j] == x);
                        } else if j > idx {
                            assert(pre[j - 1] == x);
                        }
                    }
                    if pre.contains(x) {
                        let j = choose|j: int| 0 <= j < pre.len() && pre[j] == x;
                        if j < idx {
                            assert(cur[j] == x);
                        } else {
                            assert(cur[j + 1] == x);
                        }
                    }
                    if x == slot {
                        assert(cur[idx as int] == x);
                    }
                }
            }
            true
        }
    }

    /// Drop and return the smallest recorded slot.
    pub fn pop_smallest(&mut self) -> (m: Slot)
        requires
            old(self).wf(),
            old(self)@.len() > 0,
        ensures
            final(self).wf(),
            m == old(self)@[0],
            final(self)@ == old(self)@.skip(1),
            forall|k: int| 0 <= k < old(self)@.len() ==> m <= old(self)@[k],
    {
        let ghost pre = self@;
        let m = self.slots[0];
        self.slots.remove(0);
        proof {
            assert(self@ =~= pre.skip(1));
            assert(forall|k: int| 0 < k < pre.len() ==> pre[0] < #[trigger] pre[k]);
        }
        m
    }
}

/// One slot-seen record to publish: the slot, and a snapshot of each
/// shard's last committed offset at the moment it was first observed.
pub struct SlotSeenRecord {
    pub slot: Slot,
    pub shard_offsets: Vec<(ShardId, ShardOffset)>,
}

/// What the router decided for one inbound command.
pub struct RouterDecision {
    /// The shard whose mailbox receives the command.
    pub target_shard: usize,
    /// The record to publish, exactly when the slot is newly observed.
    pub record: Option<SlotSeenRecord>,
    /// A warning is logged: the slot is new but arrived out of order.
    pub late_arrival: bool,
}

/// The router's own state: the rotation cursor and the slot window.
pub struct RouterState {
    pub num_shards: usize,
    pub next_shard: usize,
    pub max_slot_seen: Slot,
    pub slots_seen: SlotSet,
}

impl RouterState {
    pub open spec fn wf(self) -> bool {
        &&& 1 <= self.num_shards
        &&& self.next_shard < self.num_shards
        &&& self.slots_seen.wf()
        &&& self.slots_seen@.len() < SLOT_SEEN_RETENTION
    }

    /// A fresh router: rotation starts at shard 0, no slot seen yet.
    pub fn new(num_shards: usize) -> (r: RouterState)
        requires
            1 <= num_shards,
        ensures
            r.wf(),
            r.num_shards == num_shards,
            r.next_shard == 0,
            r.max_slot_seen == -1,
            r.slots_seen@ == Seq::<Slot>::empty(),
    {
        RouterState { num_shards, next_shard: 0, max_slot_seen: -1, slots_seen: SlotSet::new() }
    }

    /// Route one command carrying `slot`, with `shard_offsets` the
    /// current snapshot of each worker's last committed offset.
    ///
    /// The command goes to the cursor's shard and the cursor advances
    /// by one, modulo the shard count: message `j` of a session lands
    /// on shard `(start + j) % num_shards`, independent of content.
    ///
    /// A record is published exactly when the slot was not in the
    /// retention window; the window is bounded by evicting smallest
    /// slots; the maximum slot seen never decreases, and a new slot
    /// below it is flagged late yet still recorded.
    pub fn route(&mut self, slot: Slot, shard_offsets: Vec<(ShardId, ShardOffset)>) -> (d:
        RouterDecision)
        requires
            old(self).wf(),
        ensures
            final(self).wf(),
            final(self).num_shards == old(self).num_shards,
            d.target_shard == old(self).next_shard,
            final(self).next_shard as int == (old(self).next_shard + 1) % (
            old(self).num_shards as int),
            (d.record is Some) == !old(self).slots_seen@.contains(slot),
            d.record matches Some(rec) ==> rec.slot == slot && rec.shard_offsets@
                == shard_offsets@,
            d.late_arrival == (!old(self).slots_seen@.contains(slot) && old(self).max_slot_seen
                > slot),
            final(self).max_slot_seen == (if !old(self).slots_seen@.contains(slot) && slot
                >= old(self).max_slot_seen {
                slot
            } else {
                old(self).max_slot_seen
            }),
            final(self).max_slot_seen >= old(self).max_slot_seen,
            old(self).slots_seen@.contains(slot) ==> final(self).slots_seen@
                == old(self).slots_seen@,
            !old(self).slots_seen@.contains(slot) && old(self).slots_seen@.len() + 1
                < SLOT_SEEN_RETENTION ==> {
                &&& final(self).slots_seen@.len() == old(self).slots_seen@.len() + 1
                &&& forall|x: Slot|
                    final(self).slots_seen@.contains(x) <==> old(self).slots_seen@.contains(x) || x
                        == slot
            },
            !old(self).slots_seen@.contains(slot) && old(self).slots_seen@.len() + 1
                >= SLOT_SEEN_RETENTION ==> {
                &&& final(self).slots_seen@.len() == SLOT_SEEN_RETENTION - 1
                &&& exists|dropped: Slot|
                    {
                        &&& (old(self).slots_seen@.contains(dropped) || dropped == slot)
                        &&& forall|y: Slot|
                            old(self).slots_seen@.contains(y) || y == slot ==> dropped <= y
                        &&& forall|x: Slot|
                            #[trigger] final(self).slots_seen@.contains(x) <==> (old(
                                self,
                            ).slots_seen@.contains(x) || x == slot) && x != dropped
                    }
            },
    {
        let ghost pre = *old(self);
        let target = self.next_shard;
        self.next_shard = (self.next_shard + 1) % self.num_shards;

        let is_new = self.slots_seen.insert(slot);
        let mut record: Option<SlotSeenRecord> = None;
        let mut late = false;
        if is_new {
            let ghost mid = *self;
            let ghost inserted = self.slots_seen@;
            while self.slots_seen.len() >= SLOT_SEEN_RETENTION
                invariant
                    self.num_shards == mid.num_shards,
                    self.next_shard == mid.next_shard,
                    self.max_slot_seen == mid.max_slot_seen,
                    self.slots_seen.wf(),
                    inserted.len() == pre.slots_seen@.len() + 1,
                    inserted.len() <= SLOT_SEEN_RETENTION,
                    inserted.len() < SLOT_SEEN_RETENTION ==> self.slots_seen@ == inserted,
                    self.slots_seen@ == inserted || (inserted.len() == SLOT_SEEN_RETENTION
                        && self.slots_seen@ == inserted.skip(1)),
                decreases self.slots_seen@.len(),
            {
                self.slots_seen.pop_smallest();
            }
            proof {
                if inserted.len() >= SLOT_SEEN_RETENTION {
                    let dropped = inserted[0];
                    assert(self.slots_seen@ == inserted.skip(1));
                    assert(inserted.contains(dropped));
                    assert forall|y: Slot|
                        pre.slots_seen@.contains(y) || y == slot implies dropped <= y by {
                        assert(inserted.contains(y));
                        let j = choose|j: int| 0 <= j < inserted.len() && inserted[j] == y;
                        if j > 0 {
                            assert(inserted[0] < inserted[j]);
                        }
                    }
                    assert forall|x: Slot|
                        #[trigger] self.slots_seen@.contains(x) <==> (pre.slots_seen@.contains(x)
                            || x == slot) && x != dropped by {
                        if self.slots_seen@.contains(x) {
                            let j = choose|j: int|
                                0 <= j < self.slots_seen@.len() && self.slots_seen@[j] == x;
                            assert(inserted[j + 1] == x);
                            assert(inserted[0] < inserted[j + 1]);
                        }
                        if inserted.contains(x) && x != dropped {
                            let j = choose|j: int| 0 <= j < inserted.len() && inserted[j] == x;
                            assert(j != 0);
                            assert(self.slots_seen@[j - 1] == x);
                        }
                    }
                }
            }
            if self.max_slot_seen > slot {
                late = true;
            } else {
                self.max_slot_seen = slot;
            }
            record = Some(SlotSeenRecord { slot, shard_offsets });
        }
        RouterDecision { target_shard: target, record, late_arrival: late }
    }
}

} // verus!
