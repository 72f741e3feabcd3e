//! Offset recovery: on startup, each shard's append position is
//! reconstructed from the period-commit log and the log table.
//!
//! The surrounding task reads, per shard, the latest committed period
//! and the greatest offset in the current period's partition; the
//! functions here turn those plain rows into the recovered positions
//! and state exactly what each position is.

use vstd::prelude::*;

use crate::shard::{
    append_offsets, commit_periods, final_committed_period, insert_count, lemma_div_step,
    lemma_insert_count_bounds, lemma_run_append, lemma_run_commits_increasing,
    lemma_run_offsets_contiguous, lemma_run_tracking, lemma_shutdown_final_commit, no_shutdown,
    ShardModel,
};
use crate::types::{ShardCommand, ShardId, ShardOffset, ShardPeriod, Slot, UNDEFINED_SLOT};

verus! {

/// Recovery aborts startup when the commit log names a shard outside
/// the producer's configured range: the result would not cover every
/// shard.
#[derive(Clone, Copy, Debug, PartialEq, Eq, Structural)]
pub enum RecoveryError {
    RecoveryIncomplete,
}

/// The latest committed period the commit log reports for shard `s`,
/// if any: the commit log hands back at most one row per shard.
pub open spec fn period_for(rows: Seq<(ShardId, ShardPeriod)>, s: int) -> Option<int>
    decreases rows.len(),
{
    if rows.len() == 0 {
        None
    } else if rows[0].0 as int == s {
        Some(rows[0].1 as int)
    } else {
        period_for(rows.skip(1), s)
    }
}

/// The period a shard writes into next: one past the last committed
/// period, or 0 where nothing was committed yet.
pub open spec fn current_period_spec(latest: Option<int>) -> int {
    match latest {
        Some(p) => p + 1,
        None => 0,
    }
}

/// The position recovery yields for one shard: the greatest offset
/// found in the current period's partition or, where that partition is
/// still empty, the last offset of the previous period.
pub open spec fn recovered_offset_spec(curr_period: int, row: Option<int>, modulo: int) -> int {
    match row {
        Some(o) => o,
        None => curr_period * modulo - 1,
    }
}

/// For each shard in `0..num_shards`, the period it currently writes
/// into, from the commit log's most-recent-period rows. Fails when a
/// row names a shard outside the range, as the result would then not
/// cover the configured shards.
pub fn current_period_per_shard(num_shards: usize, commit_rows: &Vec<(ShardId, ShardPeriod)>) -> (r:
    Result<Vec<ShardPeriod>, RecoveryError>)
    requires
        num_shards <= i16::MAX as usize,
        forall|i: int|
            0 <= i < commit_rows@.len() ==> 0 <= (#[trigger] commit_rows@[i]).1 < i64::MAX,
    ensures
        (r is Err) <==> exists|i: int|
            0 <= i < commit_rows@.len() && !(0 <= (#[trigger] commit_rows@[i]).0
                && ((commit_rows@[i]).0 as int) < num_shards as int),
        r matches Ok(v) ==> {
            &&& v@.len() == num_shards
            &&& forall|s: int|
                0 <= s < num_shards ==> (#[trigger] v@[s]) as int == current_period_spec(
                    period_for(commit_rows@, s),
                )
        },
{
    let n = commit_rows.len();
    let mut i: usize = 0;
    while i < n
        invariant
            0 <= i <= n,
            n == commit_rows@.len(),
            forall|j: int|
                0 <= j < i ==> 0 <= (#[trigger] commit_rows@[j]).0 && ((commit_rows@[j]).0 as int)
                    < num_shards as int,
        decreases n - i,
    {
        let (sid, _) = commit_rows[i];
        if sid < 0 || sid as usize >= num_shards {
            return Err(RecoveryError::RecoveryIncomplete);
        }
        i = i + 1;
    }

    let mut out: Vec<ShardPeriod> = Vec::new();
    let mut s: usize = 0;
    while s < num_shards
        invariant
            0 <= s <= num_shards,
            num_shards <= i16::MAX as usize,
            n == commit_rows@.len(),
            forall|i: int|
                0 <= i < commit_rows@.len() ==> 0 <= (#[trigger] commit_rows@[i]).1 < i64::MAX,
            out@.len() == s,
            forall|t: int|
                0 <= t < s ==> (#[trigger] out@[t]) as int == current_period_spec(
                    period_for(commit_rows@, t),
                ),
        decreases num_shards - s,
    {
        let sid: ShardId = s as ShardId;
        let mut j: usize = 0;
        let mut found: Option<ShardPeriod> = None;
        proof {
            assert(commit_rows@.skip(0) =~= commit_rows@);
        }
        while j < n && found.is_none()
            invariant
                0 <= j <= n,
                n == commit_rows@.len(),
                forall|i: int|
                    0 <= i < commit_rows@.len() ==> 0 <= (#[trigger] commit_rows@[i]).1 < i64::MAX,
                sid as int == s as int,
                found is None ==> period_for(commit_rows@, s as int) == period_for(
                    commit_rows@.skip(j as int),
                    s as int,
                ),
                found matches Some(p) ==> period_for(commit_rows@, s as int) == Some(p as int) && 0
                    <= p < i64::MAX,
            decreases n - j,
        {
            let (rid, period) = commit_rows[j];
            proof {
                assert(commit_rows@.skip(j as int)[0] == commit_rows@[j as int]);
                assert(commit_rows@.skip(j as int).skip(1) =~= commit_rows@.skip(j as int + 1));
            }
            if rid == sid {
                found = Some(period);
            }
            j = j + 1;
        }
        let next: ShardPeriod = match found {
            Some(p) => p + 1,
            None => {
                proof {
                    assert(commit_rows@.skip(n as int) =~= Seq::<(ShardId, ShardPeriod)>::empty());
                }
                0
            },
        };
        out.push(next);
        s = s + 1;
    }
    Ok(out)
}

/// The recovered position and slot per shard: the greatest offset row
/// of the current period's partition where one exists, else the last
/// offset of the previous period with the undefined slot. Feeds
/// `SeekLocation::Latest`.
pub fn max_offsets_with_slots(
    curr_periods: &Vec<ShardPeriod>,
    max_rows: &Vec<Option<(ShardOffset, Slot)>>,
    offset_modulo: i64,
) -> (r: Vec<(ShardOffset, Slot)>)
    requires
        curr_periods@.len() == max_rows@.len(),
        1 <= offset_modulo,
        forall|i: int|
            0 <= i < curr_periods@.len() ==> 0 <= (#[trigger] curr_periods@[i]) as int
                && (curr_periods@[i]) as int * (offset_modulo as int) <= i64::MAX,
    ensures
        r@.len() == curr_periods@.len(),
        forall|i: int|
            0 <= i < r@.len() ==> (#[trigger] r@[i]).0 as int == recovered_offset_spec(
                curr_periods@[i] as int,
                match max_rows@[i] {
                    Some(p) => Some(p.0 as int),
                    None => None,
                },
                offset_modulo as int,
            ),
        forall|i: int|
            0 <= i < r@.len() ==> (#[trigger] r@[i]).1 == match max_rows@[i] {
                Some(p) => p.1,
                None => UNDEFINED_SLOT,
            },
{
    let n = curr_periods.len();
    let mut out: Vec<(ShardOffset, Slot)> = Vec::new();
    let mut i: usize = 0;
    while i < n
        invariant
            0 <= i <= n,
            n == curr_periods@.len(),
            curr_periods@.len() == max_rows@.len(),
            1 <= offset_modulo,
            forall|k: int|
                0 <= k < curr_periods@.len() ==> 0 <= (#[trigger] curr_periods@[k]) as int
                    && (curr_periods@[k]) as int * (offset_modulo as int) <= i64::MAX,
            out@.len() == i,
            forall|k: int|
                0 <= k < i ==> (#[trigger] out@[k]).0 as int == recovered_offset_spec(
                    curr_periods@[k] as int,
                    match max_rows@[k] {
                        Some(p) => Some(p.0 as int),
                        None => None,
                    },
                    offset_modulo as int,
                ),
            forall|k: int|
                0 <= k < i ==> (#[trigger] out@[k]).1 == match max_rows@[k] {
                    Some(p) => p.1,
                    None => UNDEFINED_SLOT,
                },
        decreases n - i,
    {
        let entry: (ShardOffset, Slot) = match max_rows[i] {
            Some(p) => p,
            None => {
                let cp = curr_periods[i];
                proof {
                    vstd::arithmetic::mul::lemma_mul_nonnegative(
                        cp as int,
                        offset_modulo as int,
                    );
                }
                (cp * offset_modulo - 1, UNDEFINED_SLOT)
            },
        };
        out.push(entry);
        i = i + 1;
    }
    out
}

/// The recovered position per shard, without slots: what the sink
/// hands each freshly spawned worker, whose first offset is then this
/// position plus one.
pub fn max_offsets(
    curr_periods: &Vec<ShardPeriod>,
    max_rows: &Vec<Option<ShardOffset>>,
    offset_modulo: i64,
) -> (r: Vec<ShardOffset>)
    requires
        curr_periods@.len() == max_rows@.len(),
        1 <= offset_modulo,
        forall|i: int|
            0 <= i < curr_periods@.len() ==> 0 <= (#[trigger] curr_periods@[i]) as int
                && (curr_periods@[i]) as int * (offset_modulo as int) <= i64::MAX,
    ensures
        r@.len() == curr_periods@.len(),
        forall|i: int|
            0 <= i < r@.len() ==> (#[trigger] r@[i]) as int == recovered_offset_spec(
                curr_periods@[i] as int,
                match max_rows@[i] {
                    Some(o) => Some(o as int),
                    None => None,
                },
                offset_modulo as int,
            ),
{
    let n = curr_periods.len();
    let mut out: Vec<ShardOffset> = Vec::new();
    let mut i: usize = 0;
    while i < n
        invariant
            0 <= i <= n,
            n == curr_periods@.len(),
            curr_periods@.len() == max_rows@.len(),
            1 <= offset_modulo,
            forall|k: int|
                0 <= k < curr_periods@.len() ==> 0 <= (#[trigger] curr_periods@[k]) as int
                    && (curr_periods@[k]) as int * (offset_modulo as int) <= i64::MAX,
            out@.len() == i,
            forall|k: int|
                0 <= k < i ==> (#[trigger] out@[k]) as int == recovered_offset_spec(
                    curr_periods@[k] as int,
                    match max_rows@[k] {
                        Some(o) => Some(o as int),
                        None => None,
                    },
                    offset_modulo as int,
                ),
        decreases n - i,
    {
        let entry: ShardOffset = match max_rows[i] {
            Some(o) => o,
            None => {
                let cp = curr_periods[i];
                proof {
                    vstd::arithmetic::mul::lemma_mul_nonnegative(
                        cp as int,
                        offset_modulo as int,
                    );
                }
                cp * offset_modulo - 1
            },
        };
        out.push(entry);
        i = i + 1;
    }
    out
}

/// The greatest offset of `offsets` lying in `period` — what the log
/// table's per-partition maximum query returns over these rows.
pub open spec fn max_offset_in_period(offsets: Seq<int>, period: int, modulo: int) -> Option<int>
    decreases offsets.len(),
{
    if offsets.len() == 0 {
        None
    } else {
        let rest = max_offset_in_period(offsets.skip(1), period, modulo);
        if offsets[0] / modulo == period {
            match rest {
                None => Some(offsets[0]),
                Some(m) => Some(
                    if m >= offsets[0] {
                        m
                    } else {
                        offsets[0]
                    },
                ),
            }
        } else {
            rest
        }
    }
}

proof fn lemma_max_in_period_none(offsets: Seq<int>, period: int, modulo: int)
    requires
        forall|i: int| 0 <= i < offsets.len() ==> #[trigger] offsets[i] / modulo != period,
    ensures
        max_offset_in_period(offsets, period, modulo) is None,
    decreases offsets.len(),
{
    if offsets.len() > 0 {
        assert(forall|i: int|
            0 <= i < offsets.skip(1).len() ==> #[trigger] offsets.skip(1)[i] == offsets[i + 1]);
        lemma_max_in_period_none(offsets.skip(1), period, modulo);
    }
}

proof fn lemma_max_in_period_member(offsets: Seq<int>, period: int, modulo: int)
    ensures
        match max_offset_in_period(offsets, period, modulo) {
            Some(v) => offsets.contains(v) && v / modulo == period,
            None => true,
        },
    decreases offsets.len(),
{
    if offsets.len() > 0 {
        lemma_max_in_period_member(offsets.skip(1), period, modulo);
        match max_offset_in_period(offsets.skip(1), period, modulo) {
            Some(v) => {
                let i = choose|i: int| 0 <= i < offsets.skip(1).len() && offsets.skip(1)[i] == v;
                assert(offsets[i + 1] == v);
            },
            None => {},
        }
        assert(offsets[0] == offsets[0]);
    }
}

proof fn lemma_max_in_period_some(offsets: Seq<int>, period: int, modulo: int, m: int)
    requires
        offsets.contains(m),
        m / modulo == period,
        forall|i: int| 0 <= i < offsets.len() ==> #[trigger] offsets[i] <= m,
    ensures
        max_offset_in_period(offsets, period, modulo) == Some(m),
    decreases offsets.len(),
{
    lemma_max_in_period_member(offsets.skip(1), period, modulo);
    if offsets[0] == m {
        match max_offset_in_period(offsets.skip(1), period, modulo) {
            Some(v) => {
                let i = choose|i: int| 0 <= i < offsets.skip(1).len() && offsets.skip(1)[i] == v;
                assert(offsets[i + 1] == v);
                assert(v <= m);
            },
            None => {},
        }
    } else {
        let i = choose|i: int| 0 <= i < offsets.len() && offsets[i] == m;
        assert(offsets.skip(1)[i - 1] == m);
        assert(forall|k: int|
            0 <= k < offsets.skip(1).len() ==> #[trigger] offsets.skip(1)[k] == offsets[k + 1]);
        lemma_max_in_period_some(offsets.skip(1), period, modulo, m);
    }
}

/// Seeking `Latest` immediately after a clean shutdown equals the
/// worker's final position, `next_offset - 1`: the recovery formula —
/// latest committed period, then the greatest offset in the current
/// period's partition, with the previous period's last offset as the
/// fallback — applied to what a clean first session wrote, yields
/// exactly the last appended offset.
pub proof fn lemma_latest_after_clean_shutdown(s: ShardModel, inputs: Seq<(ShardCommand, bool)>)
    requires
        s.inv(),
        s.next_offset == 0,
        s.last_committed_period == -1,
        inputs.len() >= 1,
        inputs.last().0 is Shutdown,
        forall|i: int| 0 <= i < inputs.len() - 1 ==> !((#[trigger] inputs[i]).0 is Shutdown),
        inputs.len() <= i64::MAX,
    ensures
        ({
            let r = s.run_spec(inputs);
            let cp = commit_periods(r.1);
            let latest: Option<int> = if cp.len() > 0 {
                Some(cp.last())
            } else {
                None
            };
            let curr = current_period_spec(latest);
            let row = max_offset_in_period(append_offsets(r.1), curr, s.offset_modulo);
            recovered_offset_spec(curr, row, s.offset_modulo) == r.0.next_offset - 1
        }),
{
    let m = s.offset_modulo;
    let k = inputs.len() - 1;
    let a = inputs.take(k);
    let b = inputs.skip(k);
    assert(a + b =~= inputs);
    assert(forall|i: int| 0 <= i < a.len() ==> #[trigger] a[i] == inputs[i]);
    assert(no_shutdown(a));
    assert(b[0] == inputs[k as int]);
    lemma_run_append(s, a, b);
    lemma_run_tracking(s, a);
    let t = s.run_spec(a).0;
    assert(t.next_offset == k);
    lemma_shutdown_final_commit(t, b[0].1);
    let f = s.run_spec(inputs).0;
    assert(f == t.run_spec(b).0);
    assert(f.next_offset == k);
    assert(f.last_committed_period == final_committed_period(k, m));
    assert(f.offset_modulo == m);

    lemma_insert_count_bounds(inputs);
    lemma_run_commits_increasing(s, inputs);
    lemma_run_offsets_contiguous(s, inputs);
    let acts = s.run_spec(inputs).1;
    let cp = commit_periods(acts);
    let offs = append_offsets(acts);
    assert(offs =~= Seq::new(k as nat, |i: int| i));

    let latest: Option<int> = if cp.len() > 0 {
        Some(cp.last())
    } else {
        None
    };
    let curr = current_period_spec(latest);
    assert(curr == final_committed_period(k, m) + 1);

    if k == 0 {
        assert(offs.len() == 0);
        assert(curr == 0);
        assert(recovered_offset_spec(curr, max_offset_in_period(offs, curr, m), m) == -1);
    } else if k % m == 0 {
        lemma_div_step(k, m);
        assert(curr == k / m);
        assert forall|i: int| 0 <= i < offs.len() implies #[trigger] offs[i] / m != curr by {
            vstd::arithmetic::div_mod::lemma_div_is_ordered(offs[i], k - 1, m);
        }
        lemma_max_in_period_none(offs, curr, m);
        vstd::arithmetic::div_mod::lemma_fundamental_div_mod(k, m);
        assert(curr * m == k) by (nonlinear_arith)
            requires
                k == m * (k / m) + k % m,
                k % m == 0,
                curr == k / m,
        ;
    } else {
        lemma_div_step(k, m);
        assert(curr == (k - 1) / m);
        assert(offs[k - 1] == k - 1);
        assert(offs.contains(k - 1));
        lemma_max_in_period_some(offs, curr, m, k - 1);
    }
}

/// Round trip across a restart: after a clean first session, a worker
/// restarted at the recovered position continues the very same offset
/// sequence — the first session appends offsets `0 .. k`, and the
/// second session appends `k .. k + k2`, contiguously.
pub proof fn lemma_restart_resumes_contiguously(
    s: ShardModel,
    inputs1: Seq<(ShardCommand, bool)>,
    t: ShardModel,
    inputs2: Seq<(ShardCommand, bool)>,
)
    requires
        s.inv(),
        s.next_offset == 0,
        s.last_committed_period == -1,
        inputs1.len() >= 1,
        inputs1.last().0 is Shutdown,
        forall|i: int| 0 <= i < inputs1.len() - 1 ==> !((#[trigger] inputs1[i]).0 is Shutdown),
        inputs1.len() <= i64::MAX,
        // the second worker starts one past what recovery yields
        t.inv(),
        t.last_committed_period == -1,
        t.offset_modulo == s.offset_modulo,
        t.next_offset == ({
            let r = s.run_spec(inputs1);
            let cp = commit_periods(r.1);
            let latest: Option<int> = if cp.len() > 0 {
                Some(cp.last())
            } else {
                None
            };
            let curr = current_period_spec(latest);
            recovered_offset_spec(
                curr,
                max_offset_in_period(append_offsets(r.1), curr, s.offset_modulo),
                s.offset_modulo,
            ) + 1
        }),
        t.next_offset + insert_count(inputs2) <= i64::MAX,
    ensures
        ({
            let k = insert_count(inputs1);
            let k2 = insert_count(inputs2);
            append_offsets(s.run_spec(inputs1).1) + append_offsets(t.run_spec(inputs2).1)
                == Seq::new((k + k2) as nat, |i: int| i)
        }),
{
    lemma_latest_after_clean_shutdown(s, inputs1);
    lemma_insert_count_bounds(inputs1);
    lemma_insert_count_bounds(inputs2);
    lemma_run_offsets_contiguous(s, inputs1);
    lemma_run_offsets_contiguous(t, inputs2);
    let k = insert_count(inputs1);
    let k2 = insert_count(inputs2);
    assert(t.next_offset == s.run_spec(inputs1).0.next_offset);
    assert(t.next_offset == k);
    assert(append_offsets(s.run_spec(inputs1).1) + append_offsets(t.run_spec(inputs2).1)
        =~= Seq::new((k + k2) as nat, |i: int| i));
}

} // verus!
