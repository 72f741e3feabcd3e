//! Producer queries: the read side a consumer group uses to pick a
//! living producer and translate a seek request into concrete shard
//! offsets.
//!
//! The surrounding task performs the table scans and the lock-service
//! reads; the functions here hold the joins, filters, selection rule
//! and staleness fencing, each with an exact contract.

use vstd::prelude::*;

use crate::lockmgr::copy_bytes;
use crate::types::{CommitmentLevel, ProducerId, SeekLocation, ShardId, ShardOffset, Slot};

verus! {

/// A ready producer-lock row as the read side sees it: who holds the
/// lock, under which execution, fenced by which lock-service revision.
#[derive(Debug)]
pub struct ProducerExecutionInfo {
    pub producer_id: ProducerId,
    pub execution_id: Vec<u8>,
    pub revision: i64,
}

/// The errors the selection step reports to the caller.
#[derive(Clone, Copy, Debug, PartialEq, Eq, Structural)]
pub enum SelectProducerError {
    NoActiveProducer,
    ImpossibleCommitmentLevel(CommitmentLevel),
    ImpossibleTimelineSelection,
    ImpossibleSlotOffset(Slot),
}

/// The errors of translating a seek location into offsets.
#[derive(Clone, Copy, Debug, PartialEq, Eq, Structural)]
pub enum OffsetQueryError {
    ProducerNotFound,
    StaleRevision(i64),
    MinimumOffsetsUnset,
    ImpossibleSlotOffset(Slot),
    ShardCountMismatch,
}

/// The lock service holds `pid` with exactly this modification
/// revision.
pub open spec fn etcd_has_entry(etcd: Seq<(ProducerId, i64)>, pid: ProducerId, rev: i64) -> bool {
    exists|j: int| 0 <= j < etcd.len() && etcd[j] == (pid, rev)
}

/// `pids` names `pid`.
pub open spec fn has_pid(pids: Seq<ProducerId>, pid: ProducerId) -> bool {
    exists|j: int| 0 <= j < pids.len() && pids[j] == pid
}

/// The consumer count recorded for `pid`; producers without a row
/// count as zero.
pub open spec fn count_for(counts: Seq<(ProducerId, i64)>, pid: ProducerId) -> int
    decreases counts.len(),
{
    if counts.len() == 0 {
        0
    } else if counts[0].0 == pid {
        counts[0].1 as int
    } else {
        count_for(counts.skip(1), pid)
    }
}

fn etcd_has_entry_exec(etcd: &Vec<(ProducerId, i64)>, pid: ProducerId, rev: i64) -> (b: bool)
    ensures
        b == etcd_has_entry(etcd@, pid, rev),
{
    let n = etcd.len();
    let mut i: usize = 0;
    while i < n
        invariant
            0 <= i <= n,
            n == etcd@.len(),
            forall|j: int| 0 <= j < i ==> etcd@[j] != (pid, rev),
        decreases n - i,
    {
        let (p, r) = etcd[i];
        if p == pid && r == rev {
            return true;
        }
        i = i + 1;
    }
    false
}

fn has_pid_exec(pids: &Vec<ProducerId>, pid: ProducerId) -> (b: bool)
    ensures
        b == has_pid(pids@, pid),
{
    let n = pids.len();
    let mut i: usize = 0;
    while i < n
        invariant
            0 <= i <= n,
            n == pids@.len(),
            forall|j: int| 0 <= j < i ==> pids@[j] != pid,
        decreases n - i,
    {
        if pids[i] == pid {
            return true;
        }
        i = i + 1;
    }
    false
}

fn count_for_exec(counts: &Vec<(ProducerId, i64)>, pid: ProducerId) -> (c: i64)
    ensures
        c as int == count_for(counts@, pid),
{
    let n = counts.len();
    let mut i: usize = 0;
    proof {
        assert(counts@.skip(0) =~= counts@);
    }
    while i < n
        invariant
            0 <= i <= n,
            n == counts@.len(),
            count_for(counts@, pid) == count_for(counts@.skip(i as int), pid),
        decreases n - i,
    {
        let (p, c) = counts[i];
        proof {
            assert(counts@.skip(i as int)[0] == counts@[i as int]);
            assert(counts@.skip(i as int).skip(1) =~= counts@.skip(i as int + 1));
        }
        if p == pid {
            return c;
        }
        i = i + 1;
    }
    proof {
        assert(counts@.skip(n as int) =~= Seq::<(ProducerId, i64)>::empty());
    }
    0
}

/// The lock rows that survive the fencing join: exactly those whose
/// stored revision equals the revision the lock service reports live
/// for that producer.
pub open spec fn fenced_locks(
    locks: Seq<ProducerExecutionInfo>,
    etcd: Seq<(ProducerId, i64)>,
) -> Seq<ProducerExecutionInfo> {
    locks.filter(|l: ProducerExecutionInfo| etcd_has_entry(etcd, l.producer_id, l.revision))
}

/// The fencing join of `list_living_producers`: keep exactly the lock
/// rows whose stored revision equals the revision the lock service
/// reports live for that producer — stale rows fall out.
pub fn list_living_producers(
    locks: Vec<ProducerExecutionInfo>,
    etcd_revisions: &Vec<(ProducerId, i64)>,
) -> (r: Vec<ProducerExecutionInfo>)
    ensures
        r@ == fenced_locks(locks@, etcd_revisions@),
{
    let mut out: Vec<ProducerExecutionInfo> = Vec::new();
    let n = locks.len();
    let mut i: usize = 0;
    proof {
        reveal(Seq::filter);
        assert(locks@.take(0) =~= Seq::<ProducerExecutionInfo>::empty());
    }
    let mut locks = locks;
    let ghost all = locks@;
    while i < n
        invariant
            0 <= i <= n,
            n == all.len(),
            locks@ =~= all.skip(i as int),
            out@ == fenced_locks(all.take(i as int), etcd_revisions@),
        decreases n - i,
    {
        let l = locks.remove(0);
        proof {
            assert(all.skip(i as int)[0] == all[i as int]);
            assert(all.skip(i as int).remove(0) =~= all.skip(i as int + 1));
        }
        let keep = etcd_has_entry_exec(etcd_revisions, l.producer_id, l.revision);
        proof {
            reveal(Seq::filter);
            let t1 = all.take(i as int + 1);
            assert(t1.drop_last() =~= all.take(i as int));
            assert(t1.last() == all[i as int]);
            assert(l == all[i as int]);
        }
        if keep {
            out.push(l);
        }
        i = i + 1;
    }
    proof {
        assert(all.take(n as int) =~= all);
    }
    out
}

/// A lock row reduced to plain values, for stating which row a scan
/// kept.
pub open spec fn lock_row_view(l: ProducerExecutionInfo) -> (ProducerId, Seq<u8>, i64) {
    (l.producer_id, l.execution_id@, l.revision)
}

/// The lock row a table scan finally yields for `pid`: of several rows
/// naming the same producer, the last one read wins, as a keyed upsert
/// leaves it.
pub open spec fn last_lock_row_for(rows: Seq<ProducerExecutionInfo>, pid: ProducerId) -> Option<
    (ProducerId, Seq<u8>, i64),
>
    decreases rows.len(),
{
    if rows.len() == 0 {
        None
    } else if rows.last().producer_id == pid {
        Some(lock_row_view(rows.last()))
    } else {
        last_lock_row_for(rows.drop_last(), pid)
    }
}

fn last_lock_index_for(rows: &Vec<ProducerExecutionInfo>, pid: ProducerId) -> (r: Option<usize>)
    ensures
        match r {
            Some(i) => i < rows@.len() && rows@[i as int].producer_id == pid
                && last_lock_row_for(rows@, pid) == Some(lock_row_view(rows@[i as int])),
            None => last_lock_row_for(rows@, pid) is None,
        },
{
    let n = rows.len();
    let mut j: usize = 0;
    let mut found: Option<usize> = None;
    proof {
        assert(rows@.take(0) =~= Seq::<ProducerExecutionInfo>::empty());
    }
    while j < n
        invariant
            0 <= j <= n,
            n == rows@.len(),
            match found {
                Some(i) => i < j && rows@[i as int].producer_id == pid && last_lock_row_for(
                    rows@.take(j as int),
                    pid,
                ) == Some(lock_row_view(rows@[i as int])),
                None => last_lock_row_for(rows@.take(j as int), pid) is None,
            },
        decreases n - j,
    {
        proof {
            let t1 = rows@.take(j as int + 1);
            assert(t1.drop_last() =~= rows@.take(j as int));
            assert(t1.last() == rows@[j as int]);
        }
        if rows[j].producer_id == pid {
            found = Some(j);
        }
        j = j + 1;
    }
    proof {
        assert(rows@.take(n as int) =~= rows@);
    }
    found
}

/// The one-row-per-producer normalization of `list_producer_locks`:
/// from the raw scan rows, one entry per producer in increasing
/// producer order, the last row read for each — exactly what
/// collecting the scan into an ordered map keyed by producer yields.
pub fn list_producer_locks(rows: &Vec<ProducerExecutionInfo>) -> (r: Vec<ProducerExecutionInfo>)
    ensures
        forall|a: int, b: int| 0 <= a < b < r@.len() ==> r@[a].producer_id < r@[b].producer_id,
        forall|i: int|
            0 <= i < r@.len() ==> last_lock_row_for(rows@, (#[trigger] r@[i]).producer_id)
                == Some(lock_row_view(r@[i])),
        forall|pid: ProducerId|
            (#[trigger] last_lock_row_for(rows@, pid)) is Some <==> exists|i: int|
                0 <= i < r@.len() && (#[trigger] r@[i]).producer_id == pid,
{
    let mut out: Vec<ProducerExecutionInfo> = Vec::new();
    let mut p: u32 = 0;
    while p < 256
        invariant
            0 <= p <= 256,
            forall|a: int, b: int|
                0 <= a < b < out@.len() ==> out@[a].producer_id < out@[b].producer_id,
            forall|i: int|
                0 <= i < out@.len() ==> ((#[trigger] out@[i]).producer_id as int) < p as int
                    && last_lock_row_for(rows@, out@[i].producer_id) == Some(
                    lock_row_view(out@[i]),
                ),
            forall|pid: ProducerId|
                (pid as int) < p as int ==> ((#[trigger] last_lock_row_for(rows@, pid)) is Some
                    <==> exists|i: int|
                    0 <= i < out@.len() && (#[trigger] out@[i]).producer_id == pid),
        decreases 256 - p,
    {
        let pid: ProducerId = p as ProducerId;
        match last_lock_index_for(rows, pid) {
            Some(idx) => {
                let ghost pre = out@;
                let entry = ProducerExecutionInfo {
                    producer_id: pid,
                    execution_id: copy_bytes(&rows[idx].execution_id),
                    revision: rows[idx].revision,
                };
                proof {
                    assert(lock_row_view(entry) == lock_row_view(rows@[idx as int]));
                }
                out.push(entry);
                proof {
                    assert(out@[pre.len() as int].producer_id == pid);
                    assert forall|pid2: ProducerId|
                        (pid2 as int) < p as int + 1 implies ((#[trigger] last_lock_row_for(
                        rows@,
                        pid2,
                    )) is Some <==> exists|i: int|
                        0 <= i < out@.len() && (#[trigger] out@[i]).producer_id == pid2) by {
                        if pid2 == pid {
                            assert(out@[pre.len() as int].producer_id == pid2);
                        } else {
                            assert(forall|i: int|
                                0 <= i < pre.len() ==> out@[i] == (#[trigger] pre[i]));
                        }
                    }
                }
            },
            None => {
                proof {
                    assert forall|pid2: ProducerId|
                        (pid2 as int) < p as int + 1 implies ((#[trigger] last_lock_row_for(
                        rows@,
                        pid2,
                    )) is Some <==> exists|i: int|
                        0 <= i < out@.len() && (#[trigger] out@[i]).producer_id == pid2) by {}
                }
            },
        }
        p = p + 1;
    }
    out
}

/// The producers whose most recent slot-seen record is at or after
/// the cut-off instant, in row order.
pub open spec fn recent_heartbeats(rows: Seq<(ProducerId, i64)>, cutoff: int) -> Seq<ProducerId> {
    rows.filter(|p: (ProducerId, i64)| p.1 >= cutoff).map_values(|p: (ProducerId, i64)| p.0)
}

/// The heartbeat filter of `list_producers_heartbeat`: keep the
/// producers whose most recent slot-seen record is at or after the
/// cut-off instant.
pub fn list_producers_heartbeat(rows: &Vec<(ProducerId, i64)>, cutoff: i64) -> (r: Vec<ProducerId>)
    ensures
        r@ == recent_heartbeats(rows@, cutoff as int),
{
    let mut out: Vec<ProducerId> = Vec::new();
    let n = rows.len();
    let mut i: usize = 0;
    proof {
        reveal(Seq::filter);
        assert(rows@.take(0) =~= Seq::<(ProducerId, i64)>::empty());
        assert(out@ =~= recent_heartbeats(rows@.take(0), cutoff as int));
    }
    while i < n
        invariant
            0 <= i <= n,
            n == rows@.len(),
            out@ == recent_heartbeats(rows@.take(i as int), cutoff as int),
        decreases n - i,
    {
        let (p, at) = rows[i];
        proof {
            reveal(Seq::filter);
            let t1 = rows@.take(i as int + 1);
            assert(t1.drop_last() =~= rows@.take(i as int));
            assert(t1.last() == rows@[i as int]);
            let pred = |p: (ProducerId, i64)| p.1 >= cutoff;
            if pred(rows@[i as int]) {
                assert(recent_heartbeats(t1, cutoff as int) =~= recent_heartbeats(
                    rows@.take(i as int),
                    cutoff as int,
                ).push(rows@[i as int].0));
            } else {
                assert(recent_heartbeats(t1, cutoff as int) =~= recent_heartbeats(
                    rows@.take(i as int),
                    cutoff as int,
                ));
            }
        }
        if at >= cutoff {
            out.push(p);
        }
        i = i + 1;
    }
    proof {
        assert(rows@.take(n as int) =~= rows@);
    }
    out
}

/// The deduplication of `list_producer_with_slot`: the distinct
/// producers named by the materialized-view rows, in increasing order.
pub fn list_producer_with_slot(rows: &Vec<(ProducerId, Slot)>) -> (r: Vec<ProducerId>)
    ensures
        forall|i: int, j: int| 0 <= i < j < r@.len() ==> r@[i] < r@[j],
        forall|p: ProducerId|
            #[trigger] has_pid(r@, p) <==> exists|i: int|
                0 <= i < rows@.len() && (#[trigger] rows@[i]).0 == p,
{
    let mut out: Vec<ProducerId> = Vec::new();
    let n = rows.len();
    let mut i: usize = 0;
    while i < n
        invariant
            0 <= i <= n,
            n == rows@.len(),
            forall|a: int, b: int| 0 <= a < b < out@.len() ==> out@[a] < out@[b],
            forall|p: ProducerId|
                #[trigger] has_pid(out@, p) <==> exists|k: int|
                    0 <= k < i && (#[trigger] rows@[k]).0 == p,
        decreases n - i,
    {
        let (pid, _) = rows[i];
        let ghost pre = out@;
        let m = out.len();
        let mut idx: usize = 0;
        while idx < m && out[idx] < pid
            invariant
                0 <= idx <= m,
                m == out@.len(),
                out@ == pre,
                forall|j: int| 0 <= j < idx ==> out@[j] < pid,
            decreases m - idx,
        {
            idx = idx + 1;
        }
        if !(idx < m && out[idx] == pid) {
            proof {
                assert forall|j: int| 0 <= j < pre.len() implies pre[j] != pid by {
                    if j >= idx {
                        assert(pre[idx as int] <= pre[j]);
                    }
                }
            }
            out.insert(idx, pid);
            proof {
                let cur = out@;
                assert(cur =~= pre.subrange(0, idx as int).push(pid) + pre.subrange(
                    idx as int,
                    pre.len() as int,
                ));
                assert(forall|j: int| 0 <= j < idx ==> cur[j] == pre[j]);
                assert(cur[idx as int] == pid);
                assert(forall|j: int| idx < j < cur.len() ==> cur[j] == pre[j - 1]);
                assert forall|a: int, b: int| 0 <= a < b < cur.len() implies cur[a] < cur[b] by {
                    if a < idx && b == idx {
                        assert(cur[a] == pre[a] && pre[a] < pid);
                    } else if a == idx && b > idx {
                        assert(pre[idx as int] > pid || idx as int == pre.len());
                        assert(cur[b] == pre[b - 1] && pre[b - 1] >= pre[idx as int]);
                    }
                }
                assert forall|p: ProducerId| has_pid(cur, p) <==> has_pid(pre, p) || p == pid by {
                    if has_pid(cur, p) {
                        let j = choose|j: int| 0 <= j < cur.len() && cur[j] == p;
                        if j < idx {
                            assert(pre[j] == p);
                        } else if j > idx {
                            assert(pre[j - 1] == p);
                        }
                    }
                    if has_pid(pre, p) {
                        let j = choose|j: int| 0 <= j < pre.len() && pre[j] == p;
                        if j < idx {
                            assert(cur[j] == p);
                        } else {
                            assert(cur[j + 1] == p);
                        }
                    }
                    if p == pid {
                        assert(cur[idx as int] == p);
                    }
                }
            }
        } else {
            proof {
                assert(out@[idx as int] == pid);
                assert(has_pid(out@, pid));
            }
        }
        i = i + 1;
    }
    out
}

/// The producers eligible after intersecting the fenced living set
/// with a list of producer ids.
pub open spec fn eligible_by(living: Seq<ProducerExecutionInfo>, pids: Seq<ProducerId>) -> Seq<
    ProducerExecutionInfo,
> {
    living.filter(|l: ProducerExecutionInfo| has_pid(pids, l.producer_id))
}

fn restrict_to(living: Vec<ProducerExecutionInfo>, pids: &Vec<ProducerId>) -> (r: Vec<
    ProducerExecutionInfo,
>)
    ensures
        r@ == eligible_by(living@, pids@),
{
    let mut out: Vec<ProducerExecutionInfo> = Vec::new();
    let n = living.len();
    let mut i: usize = 0;
    proof {
        reveal(Seq::filter);
        assert(living@.take(0) =~= Seq::<ProducerExecutionInfo>::empty());
    }
    let mut living = living;
    let ghost all = living@;
    while i < n
        invariant
            0 <= i <= n,
            n == all.len(),
            living@ =~= all.skip(i as int),
            out@ == eligible_by(all.take(i as int), pids@),
        decreases n - i,
    {
        let l = living.remove(0);
        proof {
            assert(all.skip(i as int)[0] == all[i as int]);
            assert(all.skip(i as int).remove(0) =~= all.skip(i as int + 1));
        }
        let keep = has_pid_exec(pids, l.producer_id);
        proof {
            reveal(Seq::filter);
            let t1 = all.take(i as int + 1);
            assert(t1.drop_last() =~= all.take(i as int));
            assert(t1.last() == all[i as int]);
            assert(l == all[i as int]);
        }
        if keep {
            out.push(l);
        }
        i = i + 1;
    }
    proof {
        assert(all.take(n as int) =~= all);
    }
    out
}

/// The producers still eligible after every guard of the selection:
/// alive, at the requested commitment level, and, where a slot range
/// was given, having observed a slot in it.
pub open spec fn select_survivors(
    living: Seq<ProducerExecutionInfo>,
    with_commitment: Seq<ProducerId>,
    slot_pids: Option<Seq<ProducerId>>,
) -> Seq<ProducerExecutionInfo> {
    let el = eligible_by(living, with_commitment);
    match slot_pids {
        Some(ws) => eligible_by(el, ws),
        None => el,
    }
}

/// The producer lists of a slot constraint, viewed.
pub open spec fn slot_pids_of(c: Option<(Slot, Vec<ProducerId>)>) -> Option<Seq<ProducerId>> {
    match c {
        Some(p) => Some(p.1@),
        None => None,
    }
}

/// Selection rule of `get_producer_id_with_least_assigned_consumer`:
/// among the producers that are alive, carry the requested commitment
/// level and (when a slot range is given) have observed a slot in it,
/// the one with the fewest assigned consumers wins; ties go to the
/// smallest producer id. Each guard failure reports its own error, in
/// the order the checks run.
pub fn get_producer_id_with_least_assigned_consumer(
    living: Vec<ProducerExecutionInfo>,
    with_commitment: &Vec<ProducerId>,
    commitment_level: CommitmentLevel,
    slot_constraint: Option<(Slot, Vec<ProducerId>)>,
    consumer_counts: &Vec<(ProducerId, i64)>,
) -> (r: Result<(ProducerId, Vec<u8>), SelectProducerError>)
    ensures
        living@.len() == 0 <==> r == Result::<(ProducerId, Vec<u8>), SelectProducerError>::Err(
            SelectProducerError::NoActiveProducer,
        ),
        living@.len() > 0 && with_commitment@.len() == 0 <==> r == Result::<
            (ProducerId, Vec<u8>),
            SelectProducerError,
        >::Err(SelectProducerError::ImpossibleCommitmentLevel(commitment_level)),
        living@.len() > 0 && with_commitment@.len() > 0 && eligible_by(
            living@,
            with_commitment@,
        ).len() == 0 <==> r == Result::<(ProducerId, Vec<u8>), SelectProducerError>::Err(
            SelectProducerError::ImpossibleTimelineSelection,
        ),
        living@.len() > 0 && with_commitment@.len() > 0 ==> ({
            let el = eligible_by(living@, with_commitment@);
            match slot_constraint {
                Some(p) => (el.len() > 0 && eligible_by(el, p.1@).len() == 0) <==> r == Result::<
                    (ProducerId, Vec<u8>),
                    SelectProducerError,
                >::Err(SelectProducerError::ImpossibleSlotOffset(p.0)),
                None => !(r matches Err(e) && e matches SelectProducerError::ImpossibleSlotOffset(
                    _,
                )),
            }
        }),
        // no error escapes the four guards: when every guard passes,
        // the selection is owed a winner
        r matches Err(e) ==> (e == SelectProducerError::NoActiveProducer || e
            == SelectProducerError::ImpossibleCommitmentLevel(commitment_level) || e
            == SelectProducerError::ImpossibleTimelineSelection || (slot_constraint matches Some(p)
            && e == SelectProducerError::ImpossibleSlotOffset(p.0))),
        select_survivors(living@, with_commitment@, slot_pids_of(slot_constraint)).len() > 0
            && living@.len() > 0 && with_commitment@.len() > 0 ==> r is Ok,
        r matches Ok(winner) ==> ({
            let survivors = select_survivors(
                living@,
                with_commitment@,
                slot_pids_of(slot_constraint),
            );
            &&& exists|i: int|
                0 <= i < survivors.len() && (#[trigger] survivors[i]).producer_id == winner.0
                    && survivors[i].execution_id@ == winner.1@
            &&& forall|k: int|
                0 <= k < survivors.len() ==> count_for(consumer_counts@, winner.0) < count_for(
                    consumer_counts@,
                    (#[trigger] survivors[k]).producer_id,
                ) || (count_for(consumer_counts@, winner.0) == count_for(
                    consumer_counts@,
                    survivors[k].producer_id,
                ) && winner.0 <= survivors[k].producer_id)
        }),
{
    let ghost survivors_spec = select_survivors(
        living@,
        with_commitment@,
        slot_pids_of(slot_constraint),
    );
    if living.len() == 0 {
        return Err(SelectProducerError::NoActiveProducer);
    }
    if with_commitment.len() == 0 {
        return Err(SelectProducerError::ImpossibleCommitmentLevel(commitment_level));
    }
    let eligible = restrict_to(living, with_commitment);
    if eligible.len() == 0 {
        return Err(SelectProducerError::ImpossibleTimelineSelection);
    }
    let survivors = match slot_constraint {
        Some((range_end, with_slot)) => {
            let s = restrict_to(eligible, &with_slot);
            if s.len() == 0 {
                return Err(SelectProducerError::ImpossibleSlotOffset(range_end));
            }
            s
        },
        None => eligible,
    };

    let n = survivors.len();
    let mut best: usize = 0;
    let mut best_count = count_for_exec(consumer_counts, survivors[0].producer_id);
    let mut i: usize = 1;
    while i < n
        invariant
            1 <= i <= n,
            n == survivors@.len(),
            0 <= best < i,
            best_count as int == count_for(consumer_counts@, survivors@[best as int].producer_id),
            forall|k: int|
                0 <= k < i ==> (best_count as int) < count_for(
                    consumer_counts@,
                    (#[trigger] survivors@[k]).producer_id,
                ) || ((best_count as int) == count_for(consumer_counts@, survivors@[k].producer_id)
                    && survivors@[best as int].producer_id <= survivors@[k].producer_id),
        decreases n - i,
    {
        let c = count_for_exec(consumer_counts, survivors[i].producer_id);
        if c < best_count || (c == best_count && survivors[i].producer_id
            < survivors[best].producer_id) {
            best = i;
            best_count = c;
        }
        i = i + 1;
    }
    let ghost surv = survivors@;
    let mut survivors = survivors;
    let winner = survivors.remove(best);
    proof {
        assert(winner == surv[best as int]);
        assert(surv == survivors_spec);
        assert(exists|i: int|
            0 <= i < survivors_spec.len() && (#[trigger] survivors_spec[i]).producer_id
                == winner.producer_id && survivors_spec[i].execution_id@
                == winner.execution_id@) by {
            assert(survivors_spec[best as int] == winner);
        }
        assert(forall|k: int|
            0 <= k < survivors_spec.len() ==> count_for(consumer_counts@, winner.producer_id)
                < count_for(consumer_counts@, (#[trigger] survivors_spec[k]).producer_id) || (
            count_for(consumer_counts@, winner.producer_id) == count_for(
                consumer_counts@,
                survivors_spec[k].producer_id,
            ) && winner.producer_id <= survivors_spec[k].producer_id));
    }
    Ok((winner.producer_id, winner.execution_id))
}

/// Whether a caller-supplied fencing bound rejects a row whose stored
/// revision is newer: the row is stale relative to what the caller
/// already saw.
pub open spec fn stale(max_revision: Option<i64>, remote_revision: i64) -> bool {
    match max_revision {
        Some(m) => m < remote_revision,
        None => false,
    }
}

/// The minimum-offset read of `get_min_offset_for_producer`: fence the
/// lock row against the caller's revision bound, then hand back the
/// per-shard minimum (offset, slot) pairs the producer published.
pub fn get_min_offset_for_producer(
    remote_revision: i64,
    offsets: Option<Vec<(ShardId, ShardOffset, Slot)>>,
    max_revision: Option<i64>,
) -> (r: Result<Vec<(ShardId, (ShardOffset, Slot))>, OffsetQueryError>)
    ensures
        match max_revision {
            Some(m) => m < remote_revision ==> r == Result::<
                Vec<(ShardId, (ShardOffset, Slot))>,
                OffsetQueryError,
            >::Err(OffsetQueryError::StaleRevision(m)),
            None => true,
        },
        !stale(max_revision, remote_revision) && offsets is None ==> r == Result::<
            Vec<(ShardId, (ShardOffset, Slot))>,
            OffsetQueryError,
        >::Err(OffsetQueryError::MinimumOffsetsUnset),
        !stale(max_revision, remote_revision) ==> (offsets matches Some(v) ==> (r matches Ok(out)
            && out@.len() == v@.len() && forall|i: int|
            0 <= i < v@.len() ==> out@[i] == ((#[trigger] v@[i]).0, (v@[i].1, v@[i].2)))),
{
    match max_revision {
        Some(m) => {
            if m < remote_revision {
                return Err(OffsetQueryError::StaleRevision(m));
            }
        },
        None => {},
    }
    match offsets {
        None => Err(OffsetQueryError::MinimumOffsetsUnset),
        Some(v) => {
            let mut out: Vec<(ShardId, (ShardOffset, Slot))> = Vec::new();
            let n = v.len();
            let mut i: usize = 0;
            while i < n
                invariant
                    0 <= i <= n,
                    n == v@.len(),
                    out@.len() == i,
                    forall|k: int|
                        0 <= k < i ==> out@[k] == ((#[trigger] v@[k]).0, (v@[k].1, v@[k].2)),
                decreases n - i,
            {
                let (sid, off, slot) = v[i];
                out.push((sid, (off, slot)));
                i = i + 1;
            }
            Ok(out)
        },
    }
}

/// The slot lookup of `get_slot_shard_offsets`: no row in the slot
/// range reports nothing; a row is fenced against the caller's
/// revision bound, then each shard offset is paired with the slot the
/// row actually covers.
pub fn get_slot_shard_offsets(
    row: Option<(i64, Vec<(ShardId, ShardOffset)>, Slot)>,
    max_revision: Option<i64>,
) -> (r: Result<Option<Vec<(ShardId, (ShardOffset, Slot))>>, OffsetQueryError>)
    ensures
        row is None ==> r == Result::<
            Option<Vec<(ShardId, (ShardOffset, Slot))>>,
            OffsetQueryError,
        >::Ok(None),
        row matches Some(t) ==> (match max_revision {
            Some(m) => m < t.0 ==> r == Result::<
                Option<Vec<(ShardId, (ShardOffset, Slot))>>,
                OffsetQueryError,
            >::Err(OffsetQueryError::StaleRevision(m)),
            None => true,
        }),
        row matches Some(t) ==> (!stale(max_revision, t.0) ==> (r matches Ok(Some(out))
            && out@.len() == t.1@.len() && forall|i: int|
            0 <= i < t.1@.len() ==> out@[i] == ((#[trigger] t.1@[i]).0, (t.1@[i].1, t.2)))),
{
    match row {
        None => Ok(None),
        Some((remote_revision, offs, slot_approx)) => {
            match max_revision {
                Some(m) => {
                    if m < remote_revision {
                        return Err(OffsetQueryError::StaleRevision(m));
                    }
                },
                None => {},
            }
            let mut out: Vec<(ShardId, (ShardOffset, Slot))> = Vec::new();
            let n = offs.len();
            let mut i: usize = 0;
            while i < n
                invariant
                    0 <= i <= n,
                    n == offs@.len(),
                    out@.len() == i,
                    forall|k: int|
                        0 <= k < i ==> out@[k] == ((#[trigger] offs@[k]).0, (
                            offs@[k].1,
                            slot_approx,
                        )),
                decreases n - i,
            {
                let (sid, off) = offs[i];
                out.push((sid, (off, slot_approx)));
                i = i + 1;
            }
            Ok(Some(out))
        },
    }
}

/// Rows of shard/offset/slot triples as shard → (offset, slot) pairs.
pub open spec fn as_pairs(v: Seq<(ShardId, ShardOffset, Slot)>) -> Seq<
    (ShardId, (ShardOffset, Slot)),
> {
    v.map_values(|t: (ShardId, ShardOffset, Slot)| (t.0, (t.1, t.2)))
}

/// Each shard offset paired with the one slot the row covers.
pub open spec fn paired_with_slot(offs: Seq<(ShardId, ShardOffset)>, slot: Slot) -> Seq<
    (ShardId, (ShardOffset, Slot)),
> {
    offs.map_values(|p: (ShardId, ShardOffset)| (p.0, (p.1, slot)))
}

/// Every offset moved back by one: the consumer's next-read convention.
pub open spec fn adjust_by_one(v: Seq<(ShardId, (ShardOffset, Slot))>) -> Seq<
    (ShardId, (ShardOffset, Slot)),
> {
    v.map_values(
        |p: (ShardId, (ShardOffset, Slot))| (p.0, (((p.1.0 - 1) as ShardOffset), p.1.1)),
    )
}

/// The (offset, slot) recorded for `sid`, if any.
pub open spec fn min_offset_for(
    min: Seq<(ShardId, (ShardOffset, Slot))>,
    sid: ShardId,
) -> Option<(ShardOffset, Slot)>
    decreases min.len(),
{
    if min.len() == 0 {
        None
    } else if min[0].0 == sid {
        Some(min[0].1)
    } else {
        min_offset_for(min.skip(1), sid)
    }
}

/// Every shard offset of a slot row lies strictly beyond the
/// producer's published minimum for that shard: the seek is reachable.
pub open spec fn reachable_from(
    slot_offs: Seq<(ShardId, (ShardOffset, Slot))>,
    min: Seq<(ShardId, (ShardOffset, Slot))>,
) -> bool {
    forall|i: int|
        0 <= i < slot_offs.len() ==> match min_offset_for(min, (#[trigger] slot_offs[i]).0) {
            Some(m) => slot_offs[i].1.0 > m.0,
            None => false,
        }
}

/// The revision a stale result reports: the caller's own bound.
pub open spec fn stale_err(max_revision: Option<i64>) -> OffsetQueryError {
    OffsetQueryError::StaleRevision(
        match max_revision {
            Some(m) => m,
            None => 0,
        },
    )
}

/// The final shard-count guard: a computed map must cover exactly the
/// producer's configured shards.
pub open spec fn sized_ok(v: Seq<(ShardId, (ShardOffset, Slot))>, n: i16) -> Result<
    Seq<(ShardId, (ShardOffset, Slot))>,
    OffsetQueryError,
> {
    if v.len() == n as int {
        Ok(v)
    } else {
        Err(OffsetQueryError::ShardCountMismatch)
    }
}

/// What `compute_offset` returns, case by case: `Latest` takes the
/// recovered positions as they are; `Earliest` takes the published
/// minimum offsets, fenced, moved back by one; `SlotApprox` takes the
/// greatest slot-seen row in range, fenced, requires every offset to
/// lie beyond the published minimum, and moves it back by one; every
/// case ends with the shard-count guard.
pub open spec fn compute_offset_spec(
    producer_num_shards: Option<i16>,
    seek_loc: SeekLocation,
    latest: Option<Vec<(ShardId, (ShardOffset, Slot))>>,
    min_lock_row: Option<(i64, Option<Vec<(ShardId, ShardOffset, Slot)>>)>,
    slot_row: Option<(i64, Vec<(ShardId, ShardOffset)>, Slot)>,
    max_revision: Option<i64>,
) -> Result<Seq<(ShardId, (ShardOffset, Slot))>, OffsetQueryError> {
    match producer_num_shards {
        None => Err(OffsetQueryError::ProducerNotFound),
        Some(n) => match seek_loc {
            SeekLocation::Latest => match latest {
                Some(v) => sized_ok(v@, n),
                None => Err(OffsetQueryError::ProducerNotFound),
            },
            SeekLocation::Earliest => match min_lock_row {
                Some(t) => if stale(max_revision, t.0) {
                    Err(stale_err(max_revision))
                } else {
                    match t.1 {
                        None => Err(OffsetQueryError::MinimumOffsetsUnset),
                        Some(mv) => sized_ok(adjust_by_one(as_pairs(mv@)), n),
                    }
                },
                None => Err(OffsetQueryError::ProducerNotFound),
            },
            SeekLocation::SlotApprox { desired_slot, min_slot } => match min_lock_row {
                Some(t) => if stale(max_revision, t.0) {
                    Err(stale_err(max_revision))
                } else {
                    match t.1 {
                        None => Err(OffsetQueryError::MinimumOffsetsUnset),
                        Some(mv) => match slot_row {
                            None => Err(OffsetQueryError::ImpossibleSlotOffset(desired_slot)),
                            Some(sr) => if stale(max_revision, sr.0) {
                                Err(stale_err(max_revision))
                            } else {
                                let pairs = paired_with_slot(sr.1@, sr.2);
                                if !reachable_from(pairs, as_pairs(mv@)) {
                                    Err(OffsetQueryError::ImpossibleSlotOffset(desired_slot))
                                } else {
                                    sized_ok(adjust_by_one(pairs), n)
                                }
                            },
                        },
                    }
                },
                None => Err(OffsetQueryError::ProducerNotFound),
            },
        },
    }
}

fn min_offset_for_exec(min: &Vec<(ShardId, (ShardOffset, Slot))>, sid: ShardId) -> (r: Option<
    (ShardOffset, Slot),
>)
    ensures
        r == min_offset_for(min@, sid),
{
    let n = min.len();
    let mut i: usize = 0;
    proof {
        assert(min@.skip(0) =~= min@);
    }
    while i < n
        invariant
            0 <= i <= n,
            n == min@.len(),
            min_offset_for(min@, sid) == min_offset_for(min@.skip(i as int), sid),
        decreases n - i,
    {
        let (p, pair) = min[i];
        proof {
            assert(min@.skip(i as int)[0] == min@[i as int]);
            assert(min@.skip(i as int).skip(1) =~= min@.skip(i as int + 1));
        }
        if p == sid {
            return Some(pair);
        }
        i = i + 1;
    }
    proof {
        assert(min@.skip(n as int) =~= Seq::<(ShardId, (ShardOffset, Slot))>::empty());
    }
    None
}

fn reachable_from_exec(
    slot_offs: &Vec<(ShardId, (ShardOffset, Slot))>,
    min: &Vec<(ShardId, (ShardOffset, Slot))>,
) -> (b: bool)
    ensures
        b == reachable_from(slot_offs@, min@),
{
    let n = slot_offs.len();
    let mut i: usize = 0;
    while i < n
        invariant
            0 <= i <= n,
            n == slot_offs@.len(),
            forall|k: int|
                0 <= k < i ==> match min_offset_for(min@, (#[trigger] slot_offs@[k]).0) {
                    Some(m) => slot_offs@[k].1.0 > m.0,
                    None => false,
                },
        decreases n - i,
    {
        let (sid, pair) = slot_offs[i];
        let found = min_offset_for_exec(min, sid);
        match found {
            Some(m) => {
                if pair.0 <= m.0 {
                    return false;
                }
            },
            None => {
                return false;
            },
        }
        i = i + 1;
    }
    true
}

fn adjust_pairs(v: Vec<(ShardId, (ShardOffset, Slot))>) -> (r: Vec<(ShardId, (ShardOffset, Slot))>)
    requires
        forall|i: int| 0 <= i < v@.len() ==> (#[trigger] v@[i]).1.0 > i64::MIN,
    ensures
        r@ == adjust_by_one(v@),
{
    let mut out: Vec<(ShardId, (ShardOffset, Slot))> = Vec::new();
    let n = v.len();
    let mut i: usize = 0;
    while i < n
        invariant
            0 <= i <= n,
            n == v@.len(),
            forall|k: int| 0 <= k < v@.len() ==> (#[trigger] v@[k]).1.0 > i64::MIN,
            out@.len() == i,
            forall|k: int|
                0 <= k < i ==> out@[k] == ((#[trigger] v@[k]).0, (
                    ((v@[k].1.0 - 1) as ShardOffset),
                    v@[k].1.1,
                )),
        decreases n - i,
    {
        let (sid, pair) = v[i];
        out.push((sid, (pair.0 - 1, pair.1)));
        i = i + 1;
    }
    proof {
        assert(out@ =~= adjust_by_one(v@));
    }
    out
}

/// Translate a seek location into one concrete (offset, slot) per
/// shard, exactly as `compute_offset_spec` lays the cases out. The
/// caller fetches, per seek location, the recovered positions, the
/// producer's lock row and the best slot-seen row, and hands them in
/// as plain values.
pub fn compute_offset(
    producer_num_shards: Option<i16>,
    seek_loc: SeekLocation,
    latest: Option<Vec<(ShardId, (ShardOffset, Slot))>>,
    min_lock_row: Option<(i64, Option<Vec<(ShardId, ShardOffset, Slot)>>)>,
    slot_row: Option<(i64, Vec<(ShardId, ShardOffset)>, Slot)>,
    max_revision: Option<i64>,
) -> (r: Result<Vec<(ShardId, (ShardOffset, Slot))>, OffsetQueryError>)
    requires
        producer_num_shards matches Some(n) ==> n >= 0,
        seek_loc is Latest ==> latest is Some,
        !(seek_loc is Latest) ==> min_lock_row is Some,
        latest matches Some(v) ==> forall|i: int|
            0 <= i < v@.len() ==> (#[trigger] v@[i]).1.0 > i64::MIN,
        min_lock_row matches Some(t) ==> (t.1 matches Some(mv) ==> forall|i: int|
            0 <= i < mv@.len() ==> (#[trigger] mv@[i]).1 > i64::MIN),
        slot_row matches Some(sr) ==> forall|i: int|
            0 <= i < sr.1@.len() ==> (#[trigger] sr.1@[i]).1 > i64::MIN,
    ensures
        ({
            let expected = compute_offset_spec(
                producer_num_shards,
                seek_loc,
                latest,
                min_lock_row,
                slot_row,
                max_revision,
            );
            &&& r is Ok <==> expected is Ok
            &&& r matches Ok(out) ==> (expected matches Ok(o) && out@ == o)
            &&& r matches Err(e) ==> expected == Result::<
                Seq<(ShardId, (ShardOffset, Slot))>,
                OffsetQueryError,
            >::Err(e)
        }),
{
    let n: i16 = match producer_num_shards {
        Some(n) => n,
        None => {
            return Err(OffsetQueryError::ProducerNotFound);
        },
    };
    match seek_loc {
        SeekLocation::Latest => {
            let v = match latest {
                Some(v) => v,
                None => {
                    return Err(OffsetQueryError::ProducerNotFound);
                },
            };
            if v.len() == n as usize {
                Ok(v)
            } else {
                Err(OffsetQueryError::ShardCountMismatch)
            }
        },
        SeekLocation::Earliest => {
            let (remote_revision, offsets) = match min_lock_row {
                Some(t) => t,
                None => {
                    return Err(OffsetQueryError::ProducerNotFound);
                },
            };
            let ghost offsets0 = offsets;
            let pairs = match get_min_offset_for_producer(remote_revision, offsets, max_revision) {
                Ok(p) => p,
                Err(e) => {
                    return Err(e);
                },
            };
            proof {
                let mv = offsets0->0;
                assert(pairs@ =~= as_pairs(mv@));
            }
            let adjusted = adjust_pairs(pairs);
            if adjusted.len() == n as usize {
                Ok(adjusted)
            } else {
                Err(OffsetQueryError::ShardCountMismatch)
            }
        },
        SeekLocation::SlotApprox { desired_slot, min_slot: _ } => {
            let (remote_revision, offsets) = match min_lock_row {
                Some(t) => t,
                None => {
                    return Err(OffsetQueryError::ProducerNotFound);
                },
            };
            let ghost offsets0 = offsets;
            let min_pairs = match get_min_offset_for_producer(
                remote_revision,
                offsets,
                max_revision,
            ) {
                Ok(p) => p,
                Err(e) => {
                    return Err(e);
                },
            };
            proof {
                let mv = offsets0->0;
                assert(min_pairs@ =~= as_pairs(mv@));
            }
            let ghost slot_row0 = slot_row;
            let slot_pairs = match get_slot_shard_offsets(slot_row, max_revision) {
                Ok(Some(p)) => p,
                Ok(None) => {
                    return Err(OffsetQueryError::ImpossibleSlotOffset(desired_slot));
                },
                Err(e) => {
                    return Err(e);
                },
            };
            proof {
                let sr = slot_row0->0;
                assert(slot_pairs@ =~= paired_with_slot(sr.1@, sr.2));
            }
            if !reachable_from_exec(&slot_pairs, &min_pairs) {
                return Err(OffsetQueryError::ImpossibleSlotOffset(desired_slot));
            }
            proof {
                let sr = slot_row0->0;
                assert forall|i: int|
                    0 <= i < slot_pairs@.len() implies (#[trigger] slot_pairs@[i]).1.0
                    > i64::MIN by {
                    assert(slot_pairs@[i] == ((sr.1@[i]).0, ((sr.1@[i]).1, sr.2)));
                }
            }
            let adjusted = adjust_pairs(slot_pairs);
            if adjusted.len() == n as usize {
                Ok(adjusted)
            } else {
                Err(OffsetQueryError::ShardCountMismatch)
            }
        },
    }
}

} // verus!
