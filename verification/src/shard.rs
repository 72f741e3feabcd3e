//! One shard worker: buffers, batches and appends events in strictly
//! increasing offset order, and commits a period marker each time the
//! offset stream crosses into a new period.
//!
//! The worker is a state machine: `step` consumes one command together
//! with the one piece of external truth it needs (whether the linger
//! deadline has passed) and returns the ordered list of effects the
//! surrounding task must perform against the log store.

use vstd::prelude::*;

use crate::types::{
    BlockchainEvent, EventKind, ProducerId, ShardCommand, ShardId, ShardOffset, ShardPeriod,
};

verus! {

/// One effect the shard worker asks its surrounding task to perform,
/// in the order the effects are returned.
#[derive(Clone, Copy, Debug, PartialEq, Eq, Structural)]
pub enum ShardAction {
    /// Write a period-commit marker for `period` to the commit log.
    CommitPeriod { period: ShardPeriod },
    /// Send the staged batch to the log table as one unlogged batch
    /// and, on success, clear the buffer. The rows are exactly the
    /// worker's `buffer` at the start of the step, in order; `events`
    /// is their number (`step` ensures the two agree).
    Flush { events: usize },
    /// Stage `event` into the buffer and batch, and publish its offset.
    Append { event: BlockchainEvent },
}

/// Mathematical model of a shard worker's state.
#[verifier::ext_equal]
pub ghost struct ShardModel {
    pub shard_id: ShardId,
    pub producer_id: ProducerId,
    pub next_offset: int,
    pub buffer: Seq<BlockchainEvent>,
    pub max_buffer_capacity: int,
    pub max_buffer_byte_size: int,
    pub curr_batch_byte_size: int,
    pub last_committed_period: int,
    pub offset_modulo: int,
}

impl ShardModel {
    /// Well-formedness: offsets are non-negative, the period size is
    /// positive, and the last committed period never runs ahead of the
    /// period the next offset falls in.
    pub open spec fn inv(self) -> bool {
        &&& 0 <= self.next_offset <= i64::MAX
        &&& 1 <= self.offset_modulo <= i64::MAX
        &&& -1 <= self.last_committed_period
        &&& self.last_committed_period <= self.next_offset / self.offset_modulo - 1
    }

    /// The period the offset about to be assigned falls in.
    pub open spec fn curr_period(self) -> int {
        self.next_offset / self.offset_modulo
    }

    /// A period marker is due: the next offset opens a new period whose
    /// predecessor has not been committed yet.
    pub open spec fn commit_due(self) -> bool {
        &&& self.next_offset % self.offset_modulo == 0
        &&& self.next_offset > 0
        &&& self.last_committed_period != self.curr_period() - 1
    }

    /// The staged batch must be flushed before an event of `byte_size`
    /// more bytes is staged.
    pub open spec fn flush_due(self, byte_size: int, linger_expired: bool) -> bool {
        ||| self.buffer.len() >= self.max_buffer_capacity
        ||| self.curr_batch_byte_size + byte_size >= self.max_buffer_byte_size
        ||| linger_expired
    }

    /// The state after the buffer and batch were cleared.
    pub open spec fn cleared(self) -> ShardModel {
        ShardModel { buffer: Seq::empty(), curr_batch_byte_size: 0, ..self }
    }

    /// The inbound event stamped with this shard, its producer and the
    /// offset it is assigned.
    pub open spec fn stamped(self, cmd: ShardCommand) -> BlockchainEvent {
        BlockchainEvent {
            shard_id: self.shard_id,
            producer_id: self.producer_id,
            offset: self.next_offset as ShardOffset,
            slot: cmd.slot_spec(),
            byte_size: cmd.byte_size_spec(),
            kind: match cmd {
                ShardCommand::InsertTransaction(_) => EventKind::Transaction,
                _ => EventKind::AccountUpdate,
            },
        }
    }

    /// The flush effect for the currently staged batch: a database
    /// round trip happens only when something is staged.
    pub open spec fn flush_actions(self) -> Seq<ShardAction> {
        if self.buffer.len() > 0 {
            seq![ShardAction::Flush { events: self.buffer.len() as usize }]
        } else {
            Seq::empty()
        }
    }

    /// One iteration of the worker loop on `cmd`: the successor state,
    /// the effects in order, and whether the worker stops.
    ///
    /// The period marker, when due, is committed before anything else:
    /// no row of the new period may reach the log table first.
    pub open spec fn step_spec(self, cmd: ShardCommand, linger_expired: bool) -> (
        ShardModel,
        Seq<ShardAction>,
        bool,
    ) {
        let commit_acts: Seq<ShardAction> = if self.commit_due() {
            seq![ShardAction::CommitPeriod { period: (self.curr_period() - 1) as ShardPeriod }]
        } else {
            Seq::empty()
        };
        let s1 = if self.commit_due() {
            ShardModel { last_committed_period: self.curr_period() - 1, ..self }
        } else {
            self
        };
        match cmd {
            ShardCommand::Shutdown => (s1.cleared(), commit_acts + s1.flush_actions(), true),
            _ => {
                let fd = s1.flush_due(cmd.byte_size_spec() as int, linger_expired);
                let s2 = if fd {
                    s1.cleared()
                } else {
                    s1
                };
                let ev = s2.stamped(cmd);
                let s3 = ShardModel {
                    buffer: s2.buffer.push(ev),
                    curr_batch_byte_size: s2.curr_batch_byte_size + ev.byte_size,
                    next_offset: self.next_offset + 1,
                    ..s2
                };
                let flush_acts: Seq<ShardAction> = if fd {
                    s1.flush_actions()
                } else {
                    Seq::empty()
                };
                (s3, commit_acts + flush_acts + seq![ShardAction::Append { event: ev }], false)
            },
        }
    }

    /// The worker run on a sequence of inputs, each a command paired
    /// with whether the linger deadline had passed when it arrived.
    /// The run ends at the first `Shutdown`, or when the inputs do.
    pub open spec fn run_spec(self, inputs: Seq<(ShardCommand, bool)>) -> (
        ShardModel,
        Seq<ShardAction>,
    )
        decreases inputs.len(),
    {
        if inputs.len() == 0 {
            (self, Seq::empty())
        } else {
            let (s1, acts, stop) = self.step_spec(inputs[0].0, inputs[0].1);
            if stop {
                (s1, acts)
            } else {
                let (s2, rest) = s1.run_spec(inputs.skip(1));
                (s2, acts + rest)
            }
        }
    }
}

/// Executable state of one shard worker.
pub struct ShardState {
    pub shard_id: ShardId,
    pub producer_id: ProducerId,
    pub next_offset: ShardOffset,
    pub buffer: Vec<BlockchainEvent>,
    pub max_buffer_capacity: usize,
    pub max_buffer_byte_size: usize,
    pub curr_batch_byte_size: usize,
    pub last_committed_period: ShardPeriod,
    pub offset_modulo: i64,
}

impl View for ShardState {
    type V = ShardModel;

    open spec fn view(&self) -> ShardModel {
        ShardModel {
            shard_id: self.shard_id,
            producer_id: self.producer_id,
            next_offset: self.next_offset as int,
            buffer: self.buffer@,
            max_buffer_capacity: self.max_buffer_capacity as int,
            max_buffer_byte_size: self.max_buffer_byte_size as int,
            curr_batch_byte_size: self.curr_batch_byte_size as int,
            last_committed_period: self.last_committed_period as int,
            offset_modulo: self.offset_modulo as int,
        }
    }
}

/// `offset / modulo` computed on the non-negative range.
fn period_of(offset: i64, modulo: i64) -> (p: i64)
    requires
        0 <= offset,
        1 <= modulo,
    ensures
        p == offset as int / modulo as int,
        0 <= p <= offset,
{
    let q: u64 = (offset as u64) / (modulo as u64);
    q as i64
}

/// Whether `offset` sits exactly on a period boundary.
fn on_period_boundary(offset: i64, modulo: i64) -> (b: bool)
    requires
        0 <= offset,
        1 <= modulo,
    ensures
        b == (offset as int % modulo as int == 0),
{
    let r: u64 = (offset as u64) % (modulo as u64);
    r == 0
}

impl ShardState {
    /// A freshly spawned worker: empty buffer, no period committed yet,
    /// first offset as recovered. A worker never starts below offset 0.
    pub fn new(
        shard_id: ShardId,
        producer_id: ProducerId,
        next_offset: ShardOffset,
        max_buffer_capacity: usize,
        max_buffer_byte_size: usize,
        offset_modulo: i64,
    ) -> (s: ShardState)
        requires
            0 <= next_offset,
            1 <= offset_modulo,
        ensures
            s@ == (ShardModel {
                shard_id: shard_id,
                producer_id: producer_id,
                next_offset: next_offset as int,
                buffer: Seq::empty(),
                max_buffer_capacity: max_buffer_capacity as int,
                max_buffer_byte_size: max_buffer_byte_size as int,
                curr_batch_byte_size: 0,
                last_committed_period: -1,
                offset_modulo: offset_modulo as int,
            }),
            s@.inv(),
    {
        let s = ShardState {
            shard_id,
            producer_id,
            next_offset,
            buffer: Vec::new(),
            max_buffer_capacity,
            max_buffer_byte_size,
            curr_batch_byte_size: 0,
            last_committed_period: -1,
            offset_modulo,
        };
        proof {
            assert(s@.buffer =~= Seq::<BlockchainEvent>::empty());
            vstd::arithmetic::div_mod::lemma_div_pos_is_pos(next_offset as int, offset_modulo as int);
        }
        s
    }

    /// One iteration of the worker loop: handle `cmd`, given whether
    /// the linger deadline had passed. Returns the effects in order and
    /// whether the worker stops.
    pub fn step(&mut self, cmd: &ShardCommand, linger_expired: bool) -> (r: (Vec<ShardAction>, bool))
        requires
            old(self)@.inv(),
            old(self).next_offset < i64::MAX,
        ensures
            final(self)@ == old(self)@.step_spec(*cmd, linger_expired).0,
            r.0@ == old(self)@.step_spec(*cmd, linger_expired).1,
            r.1 == old(self)@.step_spec(*cmd, linger_expired).2,
            final(self)@.inv(),
            // a flush submits exactly the events staged when the step
            // began: the worker's whole buffer, in order
            forall|k: int|
                0 <= k < r.0@.len() && (#[trigger] r.0@[k]) is Flush ==> r.0@[k]
                    == (ShardAction::Flush { events: old(self).buffer.len() }),
    {
        let ghost s0 = self@;
        let mut actions: Vec<ShardAction> = Vec::new();

        let offset = self.next_offset;
        let curr_period = period_of(offset, self.offset_modulo);
        let prev_period = curr_period - 1;

        if on_period_boundary(offset, self.offset_modulo) && offset > 0
            && self.last_committed_period != prev_period {
            actions.push(ShardAction::CommitPeriod { period: prev_period });
            self.last_committed_period = prev_period;
        }
        let ghost s1 = self@;
        assert(s1 == if s0.commit_due() {
            ShardModel { last_committed_period: s0.curr_period() - 1, ..s0 }
        } else {
            s0
        });

        match cmd {
            ShardCommand::Shutdown => {
                if self.buffer.len() > 0 {
                    actions.push(ShardAction::Flush { events: self.buffer.len() });
                }
                self.buffer = Vec::new();
                self.curr_batch_byte_size = 0;
                proof {
                    assert(self@.buffer =~= Seq::<BlockchainEvent>::empty());
                    assert(self@ == s1.cleared());
                    assert(actions@ =~= s0.step_spec(*cmd, linger_expired).1);
                    vstd::arithmetic::div_mod::lemma_div_pos_is_pos(
                        s1.next_offset,
                        s1.offset_modulo,
                    );
                    lemma_step_flush_whole_buffer(s0, *cmd, linger_expired);
                }
                (actions, true)
            },
            _ => {
                let msg_byte_size = cmd.byte_size();
                let need_flush = self.buffer.len() >= self.max_buffer_capacity
                    || self.curr_batch_byte_size >= self.max_buffer_byte_size
                    || self.max_buffer_byte_size - self.curr_batch_byte_size <= msg_byte_size
                    || linger_expired;
                assert(need_flush == s1.flush_due(msg_byte_size as int, linger_expired));
                if need_flush {
                    if self.buffer.len() > 0 {
                        actions.push(ShardAction::Flush { events: self.buffer.len() });
                    }
                    self.buffer = Vec::new();
                    self.curr_batch_byte_size = 0;
                    proof {
                        assert(self@.buffer =~= Seq::<BlockchainEvent>::empty());
                        assert(self@ == s1.cleared());
                    }
                }
                let ghost s2 = self@;
                let event = BlockchainEvent {
                    shard_id: self.shard_id,
                    producer_id: self.producer_id,
                    offset,
                    slot: cmd.slot(),
                    byte_size: msg_byte_size,
                    kind: match cmd {
                        ShardCommand::InsertTransaction(_) => EventKind::Transaction,
                        _ => EventKind::AccountUpdate,
                    },
                };
                assert(event == s2.stamped(*cmd));
                self.buffer.push(event);
                self.curr_batch_byte_size = self.curr_batch_byte_size + msg_byte_size;
                self.next_offset = offset + 1;
                actions.push(ShardAction::Append { event });
                proof {
                    assert(self@ == s0.step_spec(*cmd, linger_expired).0);
                    assert(actions@ =~= s0.step_spec(*cmd, linger_expired).1);
                    lemma_step_preserves_inv(s0, *cmd, linger_expired);
                    lemma_step_flush_whole_buffer(s0, *cmd, linger_expired);
                }
                (actions, false)
            },
        }
    }

    /// Run the worker over a whole input sequence, collecting every
    /// effect in order. Stops at the first `Shutdown`.
    pub fn run(&mut self, inputs: &Vec<(ShardCommand, bool)>) -> (actions: Vec<ShardAction>)
        requires
            old(self)@.inv(),
            old(self).next_offset + inputs@.len() <= i64::MAX,
        ensures
            final(self)@ == old(self)@.run_spec(inputs@).0,
            actions@ == old(self)@.run_spec(inputs@).1,
            final(self)@.inv(),
    {
        let ghost s0 = self@;
        let mut actions: Vec<ShardAction> = Vec::new();
        let mut i: usize = 0;
        let mut stopped = false;
        proof {
            assert(inputs@.skip(0) =~= inputs@);
            assert(actions@ + s0.run_spec(inputs@).1 =~= s0.run_spec(inputs@).1);
        }
        while i < inputs.len() && !stopped
            invariant
                0 <= i <= inputs@.len(),
                self@.inv(),
                !stopped ==> {
                    &&& s0.run_spec(inputs@).0 == self@.run_spec(inputs@.skip(i as int)).0
                    &&& s0.run_spec(inputs@).1 == actions@ + self@.run_spec(
                        inputs@.skip(i as int),
                    ).1
                    &&& self.next_offset + (inputs@.len() - i) <= i64::MAX
                },
                stopped ==> {
                    &&& s0.run_spec(inputs@).0 == self@
                    &&& s0.run_spec(inputs@).1 == actions@
                },
            decreases inputs@.len() - i,
        {
            let ghost pre = self@;
            let ghost remaining = inputs@.skip(i as int);
            let (cmd, linger_expired) = inputs[i];
            assert(remaining[0] == (cmd, linger_expired));
            let (mut acts, stop) = self.step(&cmd, linger_expired);
            actions.append(&mut acts);
            stopped = stop;
            i = i + 1;
            proof {
                assert(remaining.skip(1) =~= inputs@.skip(i as int));
                assert(remaining.len() > 0);
                if stop {
                    assert(pre.run_spec(remaining) == (self@, pre.step_spec(cmd, linger_expired).1));
                    assert(s0.run_spec(inputs@).1 =~= actions@);
                } else {
                    assert(pre.run_spec(remaining).0 == self@.run_spec(inputs@.skip(i as int)).0);
                    assert(s0.run_spec(inputs@).1 =~= actions@ + self@.run_spec(
                        inputs@.skip(i as int),
                    ).1);
                }
            }
        }
        proof {
            if !stopped {
                assert(inputs@.skip(i as int) =~= Seq::<(ShardCommand, bool)>::empty());
                assert(self@.run_spec(inputs@.skip(i as int)).1 =~= Seq::<ShardAction>::empty());
                assert(s0.run_spec(inputs@).1 =~= actions@);
            }
        }
        actions
    }
}

/// The offsets of the `Append` effects of a run, in order.
pub open spec fn append_offsets(acts: Seq<ShardAction>) -> Seq<int>
    decreases acts.len(),
{
    if acts.len() == 0 {
        Seq::empty()
    } else {
        (match acts[0] {
            ShardAction::Append { event } => seq![event.offset as int],
            _ => Seq::empty(),
        }) + append_offsets(acts.skip(1))
    }
}

/// The periods of the `CommitPeriod` effects of a run, in order.
pub open spec fn commit_periods(acts: Seq<ShardAction>) -> Seq<int>
    decreases acts.len(),
{
    if acts.len() == 0 {
        Seq::empty()
    } else {
        (match acts[0] {
            ShardAction::CommitPeriod { period } => seq![period as int],
            _ => Seq::empty(),
        }) + commit_periods(acts.skip(1))
    }
}

/// How many commands a run consumes as events: everything up to the
/// first `Shutdown`.
pub open spec fn insert_count(inputs: Seq<(ShardCommand, bool)>) -> int
    decreases inputs.len(),
{
    if inputs.len() == 0 {
        0
    } else if inputs[0].0 is Shutdown {
        0
    } else {
        1 + insert_count(inputs.skip(1))
    }
}

/// No input is a `Shutdown`.
pub open spec fn no_shutdown(inputs: Seq<(ShardCommand, bool)>) -> bool {
    forall|i: int| 0 <= i < inputs.len() ==> !(inputs[i].0 is Shutdown)
}

/// A run consumes between none and all of its inputs as events.
pub proof fn lemma_insert_count_bounds(inputs: Seq<(ShardCommand, bool)>)
    ensures
        0 <= insert_count(inputs) <= inputs.len(),
    decreases inputs.len(),
{
    if inputs.len() > 0 && !(inputs[0].0 is Shutdown) {
        lemma_insert_count_bounds(inputs.skip(1));
    }
}

proof fn lemma_append_offsets_add(a: Seq<ShardAction>, b: Seq<ShardAction>)
    ensures
        append_offsets(a + b) == append_offsets(a) + append_offsets(b),
    decreases a.len(),
{
    if a.len() == 0 {
        assert(a + b =~= b);
        assert(append_offsets(a) + append_offsets(b) =~= append_offsets(b));
    } else {
        assert((a + b).skip(1) =~= a.skip(1) + b);
        lemma_append_offsets_add(a.skip(1), b);
        assert((a + b)[0] == a[0]);
        assert(append_offsets(a + b) =~= append_offsets(a) + append_offsets(b));
    }
}

proof fn lemma_commit_periods_add(a: Seq<ShardAction>, b: Seq<ShardAction>)
    ensures
        commit_periods(a + b) == commit_periods(a) + commit_periods(b),
    decreases a.len(),
{
    if a.len() == 0 {
        assert(a + b =~= b);
        assert(commit_periods(a) + commit_periods(b) =~= commit_periods(b));
    } else {
        assert((a + b).skip(1) =~= a.skip(1) + b);
        lemma_commit_periods_add(a.skip(1), b);
        assert((a + b)[0] == a[0]);
        assert(commit_periods(a + b) =~= commit_periods(a) + commit_periods(b));
    }
}

proof fn lemma_projections_one(x: ShardAction)
    ensures
        append_offsets(seq![x]) == (match x {
            ShardAction::Append { event } => seq![event.offset as int],
            _ => Seq::<int>::empty(),
        }),
        commit_periods(seq![x]) == (match x {
            ShardAction::CommitPeriod { period } => seq![period as int],
            _ => Seq::<int>::empty(),
        }),
{
    assert(seq![x].skip(1) =~= Seq::<ShardAction>::empty());
    assert(append_offsets(Seq::<ShardAction>::empty()) == Seq::<int>::empty());
    assert(commit_periods(Seq::<ShardAction>::empty()) == Seq::<int>::empty());
    match x {
        ShardAction::CommitPeriod { period } => {
            assert(append_offsets(seq![x]) =~= Seq::<int>::empty());
            assert(commit_periods(seq![x]) =~= seq![period as int]);
        },
        ShardAction::Flush { events } => {
            assert(append_offsets(seq![x]) =~= Seq::<int>::empty());
            assert(commit_periods(seq![x]) =~= Seq::<int>::empty());
        },
        ShardAction::Append { event } => {
            assert(append_offsets(seq![x]) =~= seq![event.offset as int]);
            assert(commit_periods(seq![x]) =~= Seq::<int>::empty());
        },
    }
}

/// The projections of the effects of one step: a step appends at most
/// one row, whose offset is the state's next offset, and commits at
/// most one period, the one closing at that offset.
proof fn lemma_step_projections(s: ShardModel, cmd: ShardCommand, linger_expired: bool)
    requires
        s.inv(),
    ensures
        append_offsets(s.step_spec(cmd, linger_expired).1) == (if cmd is Shutdown {
            Seq::<int>::empty()
        } else {
            seq![s.next_offset]
        }),
        commit_periods(s.step_spec(cmd, linger_expired).1) == (if s.commit_due() {
            seq![s.curr_period() - 1]
        } else {
            Seq::<int>::empty()
        }),
{
    let ca: Seq<ShardAction> = if s.commit_due() {
        seq![ShardAction::CommitPeriod { period: (s.curr_period() - 1) as ShardPeriod }]
    } else {
        Seq::empty()
    };
    let s1 = if s.commit_due() {
        ShardModel { last_committed_period: s.curr_period() - 1, ..s }
    } else {
        s
    };
    vstd::arithmetic::div_mod::lemma_div_pos_is_pos(s.next_offset, s.offset_modulo);
    if s.commit_due() {
        lemma_projections_one(ca[0]);
    }
    match cmd {
        ShardCommand::Shutdown => {
            let fa = s1.flush_actions();
            if fa.len() > 0 {
                lemma_projections_one(fa[0]);
            }
            lemma_append_offsets_add(ca, fa);
            lemma_commit_periods_add(ca, fa);
            assert(append_offsets(s.step_spec(cmd, linger_expired).1) =~= Seq::<int>::empty());
        },
        _ => {
            let fd = s1.flush_due(cmd.byte_size_spec() as int, linger_expired);
            let fa: Seq<ShardAction> = if fd {
                s1.flush_actions()
            } else {
                Seq::empty()
            };
            if fa.len() > 0 {
                lemma_projections_one(fa[0]);
            }
            let s2 = if fd {
                s1.cleared()
            } else {
                s1
            };
            let ap = seq![ShardAction::Append { event: s2.stamped(cmd) }];
            lemma_projections_one(ap[0]);
            lemma_append_offsets_add(ca, fa);
            lemma_append_offsets_add(ca + fa, ap);
            lemma_commit_periods_add(ca, fa);
            lemma_commit_periods_add(ca + fa, ap);
            assert(append_offsets(s.step_spec(cmd, linger_expired).1) =~= seq![s.next_offset]);
            assert(commit_periods(s.step_spec(cmd, linger_expired).1) =~= (if s.commit_due() {
                seq![s.curr_period() - 1]
            } else {
                Seq::<int>::empty()
            }));
        },
    }
}

/// Offsets are assigned strictly sequentially: a run appends exactly
/// the contiguous offsets starting at the worker's next offset, one
/// per event received before shutdown; so the rows of a shard form a
/// dense, strictly increasing sequence from the recovered position.
pub proof fn lemma_run_offsets_contiguous(s: ShardModel, inputs: Seq<(ShardCommand, bool)>)
    requires
        s.inv(),
        s.next_offset + insert_count(inputs) <= i64::MAX,
    ensures
        s.run_spec(inputs).0.next_offset == s.next_offset + insert_count(inputs),
        append_offsets(s.run_spec(inputs).1) == Seq::new(
            insert_count(inputs) as nat,
            |i: int| s.next_offset + i,
        ),
    decreases inputs.len(),
{
    let k = insert_count(inputs);
    lemma_insert_count_bounds(inputs);
    if inputs.len() == 0 {
        assert(append_offsets(s.run_spec(inputs).1) =~= Seq::new(
            k as nat,
            |i: int| s.next_offset + i,
        ));
    } else {
        let cmd = inputs[0].0;
        let le = inputs[0].1;
        lemma_insert_count_bounds(inputs.skip(1));
        lemma_step_projections(s, cmd, le);
        lemma_step_preserves_inv(s, cmd, le);
        let s1 = s.step_spec(cmd, le).0;
        let acts = s.step_spec(cmd, le).1;
        if cmd is Shutdown {
            assert(append_offsets(s.run_spec(inputs).1) =~= Seq::new(
                k as nat,
                |i: int| s.next_offset + i,
            ));
        } else {
            lemma_insert_count_bounds(inputs.skip(1));
            lemma_run_offsets_contiguous(s1, inputs.skip(1));
            lemma_append_offsets_add(acts, s1.run_spec(inputs.skip(1)).1);
            assert(s1.next_offset == s.next_offset + 1);
            assert(append_offsets(s.run_spec(inputs).1) =~= Seq::new(
                k as nat,
                |i: int| s.next_offset + i,
            ));
        }
    }
}

/// Period markers are committed at most once each: along a run, the
/// committed periods are strictly increasing, all lie above what the
/// worker had already committed, and the last one is what the worker
/// records.
pub proof fn lemma_run_commits_increasing(s: ShardModel, inputs: Seq<(ShardCommand, bool)>)
    requires
        s.inv(),
        s.next_offset + insert_count(inputs) <= i64::MAX,
    ensures
        ({
            let cp = commit_periods(s.run_spec(inputs).1);
            let lc1 = s.run_spec(inputs).0.last_committed_period;
            &&& forall|i: int| 0 <= i < cp.len() ==> cp[i] > s.last_committed_period
            &&& forall|i: int, j: int| 0 <= i < j < cp.len() ==> cp[i] < cp[j]
            &&& cp.len() > 0 ==> cp.last() == lc1
            &&& cp.len() == 0 ==> lc1 == s.last_committed_period
        }),
    decreases inputs.len(),
{
    lemma_insert_count_bounds(inputs);
    if inputs.len() > 0 {
        let cmd = inputs[0].0;
        let le = inputs[0].1;
        lemma_insert_count_bounds(inputs.skip(1));
        lemma_step_projections(s, cmd, le);
        lemma_step_preserves_inv(s, cmd, le);
        let s1 = s.step_spec(cmd, le).0;
        let acts = s.step_spec(cmd, le).1;
        let cph = commit_periods(acts);
        assert(s1.last_committed_period == if s.commit_due() {
            s.curr_period() - 1
        } else {
            s.last_committed_period
        });
        if !(cmd is Shutdown) {
            lemma_run_commits_increasing(s1, inputs.skip(1));
            lemma_commit_periods_add(acts, s1.run_spec(inputs.skip(1)).1);
            let cpr = commit_periods(s1.run_spec(inputs.skip(1)).1);
            let cp = commit_periods(s.run_spec(inputs).1);
            assert(cp =~= cph + cpr);
            if cp.len() > 0 {
                if cpr.len() > 0 {
                    assert(cp.last() == cpr.last());
                } else {
                    assert(cp.last() == cph.last());
                }
            }
        }
    }
}

/// Relates an appended row to the marker that closes the period it
/// opens: the marker `CommitPeriod { period: offset / modulo - 1 }`.
pub open spec fn opens_period(a: ShardAction, modulo: int) -> bool {
    match a {
        ShardAction::Append { event } => (event.offset as int) % modulo == 0 && event.offset > 0,
        _ => false,
    }
}

/// The marker that must precede a period-opening append.
pub open spec fn closing_commit(a: ShardAction, modulo: int) -> ShardAction {
    match a {
        ShardAction::Append { event } => ShardAction::CommitPeriod {
            period: ((event.offset as int) / modulo - 1) as ShardPeriod,
        },
        _ => a,
    }
}

/// The period a period-opening append closes.
pub open spec fn closed_period(a: ShardAction, modulo: int) -> int {
    match a {
        ShardAction::Append { event } => (event.offset as int) / modulo - 1,
        _ => 0,
    }
}

/// Period boundary rule: before a run appends a row whose offset opens
/// a new period, the marker closing the previous period is committed —
/// earlier in the same run, unless the worker had recorded it already.
pub proof fn lemma_boundary_append_has_commit(
    s: ShardModel,
    inputs: Seq<(ShardCommand, bool)>,
    j: int,
)
    requires
        s.inv(),
        s.next_offset + insert_count(inputs) <= i64::MAX,
        0 <= j < s.run_spec(inputs).1.len(),
        opens_period(s.run_spec(inputs).1[j], s.offset_modulo),
    ensures
        ({
            let acts = s.run_spec(inputs).1;
            ||| exists|i: int|
                0 <= i < j && acts[i] == closing_commit(acts[j], s.offset_modulo)
            ||| closed_period(acts[j], s.offset_modulo) == s.last_committed_period
        }),
    decreases inputs.len(),
{
    let acts = s.run_spec(inputs).1;
    lemma_insert_count_bounds(inputs);
    lemma_insert_count_bounds(inputs.skip(1));
    let cmd = inputs[0].0;
    let le = inputs[0].1;
    lemma_step_preserves_inv(s, cmd, le);
    let s1 = s.step_spec(cmd, le).0;
    let h = s.step_spec(cmd, le).1;
    let ca: Seq<ShardAction> = if s.commit_due() {
        seq![ShardAction::CommitPeriod { period: (s.curr_period() - 1) as ShardPeriod }]
    } else {
        Seq::empty()
    };
    vstd::arithmetic::div_mod::lemma_div_pos_is_pos(s.next_offset, s.offset_modulo);
    if cmd is Shutdown {
        // the only appends of this run came before: none; so j indexes
        // a commit or flush effect, never a period-opening append.
        assert(!opens_period(acts[j], s.offset_modulo));
    } else {
        let rest = s1.run_spec(inputs.skip(1)).1;
        assert(acts =~= h + rest);
        if j < h.len() {
            // the head step has exactly one append, its last effect,
            // carrying offset s.next_offset
            assert(h[j] == acts[j]);
            if opens_period(h[j], s.offset_modulo) {
                assert(j == h.len() - 1);
                let off = s.next_offset;
                assert(closed_period(acts[j], s.offset_modulo) == off / s.offset_modulo - 1);
                if s.commit_due() {
                    assert(h[0] == ShardAction::CommitPeriod {
                        period: (s.curr_period() - 1) as ShardPeriod,
                    });
                    assert(0 < j);
                    assert(acts[0] == closing_commit(acts[j], s.offset_modulo));
                } else {
                    assert(s.last_committed_period == s.curr_period() - 1);
                }
            }
        } else {
            lemma_boundary_append_has_commit(s1, inputs.skip(1), j - h.len());
            assert(rest[j - h.len()] == acts[j]);
            if exists|i: int|
                0 <= i < j - h.len() && #[trigger] rest[i] == closing_commit(
                    rest[j - h.len()],
                    s1.offset_modulo,
                ) {
                let i = choose|i: int|
                    0 <= i < j - h.len() && #[trigger] rest[i] == closing_commit(
                        rest[j - h.len()],
                        s1.offset_modulo,
                    );
                assert(acts[h.len() + i] == rest[i]);
            } else {
                assert(closed_period(acts[j], s.offset_modulo) == s1.last_committed_period);
                if s.commit_due() {
                    assert(h[0] == ShardAction::CommitPeriod {
                        period: (s.curr_period() - 1) as ShardPeriod,
                    });
                    assert(s1.last_committed_period == s.curr_period() - 1);
                    assert(acts[0] == closing_commit(acts[j], s.offset_modulo));
                }
            }
        }
    }
}

/// A worker whose recorded last-committed period matches its position.
/// This holds of a worker started at offset 0 and is kept by every
/// event it consumes.
pub open spec fn commit_tracking(s: ShardModel) -> bool {
    ||| (s.next_offset == 0 && s.last_committed_period == -1)
    ||| (s.next_offset >= 1 && s.last_committed_period == (s.next_offset - 1) / s.offset_modulo
        - 1)
}

/// Stepping a non-negative dividend down by one moves the quotient
/// down exactly at multiples of the divisor.
pub(crate) proof fn lemma_div_step(n: int, m: int)
    requires
        1 <= n,
        1 <= m,
    ensures
        n % m == 0 ==> (n - 1) / m == n / m - 1,
        n % m != 0 ==> (n - 1) / m == n / m,
{
    vstd::arithmetic::div_mod::lemma_fundamental_div_mod(n, m);
    vstd::arithmetic::div_mod::lemma_mod_division_less_than_divisor(n, m);
    if n % m == 0 {
        assert(n - 1 == (n / m - 1) * m + (m - 1)) by (nonlinear_arith)
            requires
                n == m * (n / m) + n % m,
                n % m == 0,
        ;
        vstd::arithmetic::div_mod::lemma_fundamental_div_mod_converse_div(n - 1, m, n / m - 1, m - 1);
    } else {
        assert(n - 1 == (n / m) * m + (n % m - 1)) by (nonlinear_arith)
            requires
                n == m * (n / m) + n % m,
        ;
        vstd::arithmetic::div_mod::lemma_fundamental_div_mod_converse_div(n - 1, m, n / m, n % m - 1);
    }
}

/// Consuming one event keeps the recorded commit aligned with the
/// worker's position.
proof fn lemma_step_preserves_tracking(s: ShardModel, cmd: ShardCommand, linger_expired: bool)
    requires
        s.inv(),
        commit_tracking(s),
        !(cmd is Shutdown),
        s.next_offset < i64::MAX,
    ensures
        commit_tracking(s.step_spec(cmd, linger_expired).0),
{
    let n = s.next_offset;
    let m = s.offset_modulo;
    let s1 = s.step_spec(cmd, linger_expired).0;
    assert(s1.next_offset == n + 1);
    if n == 0 {
        vstd::arithmetic::div_mod::lemma_div_of0(m);
        vstd::arithmetic::div_mod::lemma_small_mod(0, m as nat);
        assert(!s.commit_due());
    } else {
        lemma_div_step(n, m);
    }
}

/// What the worker has committed when it shuts down at offset `n`:
/// the period just closed if the shutdown lands exactly on a period
/// boundary, else the period of the last written offset, less one.
pub open spec fn final_committed_period(n: int, m: int) -> int {
    if n >= 1 && n % m == 0 {
        n / m - 1
    } else if n >= 1 {
        (n - 1) / m - 1
    } else {
        -1
    }
}

/// A shutdown from a tracked position leaves exactly
/// `final_committed_period` recorded.
pub(crate) proof fn lemma_shutdown_final_commit(s: ShardModel, linger_expired: bool)
    requires
        s.inv(),
        commit_tracking(s),
    ensures
        s.step_spec(ShardCommand::Shutdown, linger_expired).0.last_committed_period
            == final_committed_period(s.next_offset, s.offset_modulo),
        s.step_spec(ShardCommand::Shutdown, linger_expired).0.next_offset == s.next_offset,
{
    let n = s.next_offset;
    let m = s.offset_modulo;
    if n >= 1 {
        lemma_div_step(n, m);
    }
}

/// A run of events (no shutdown) from a tracked state: the worker
/// advances by one offset per event and stays tracked.
pub proof fn lemma_run_tracking(s: ShardModel, inputs: Seq<(ShardCommand, bool)>)
    requires
        s.inv(),
        commit_tracking(s),
        no_shutdown(inputs),
        s.next_offset + inputs.len() <= i64::MAX,
    ensures
        s.run_spec(inputs).0.inv(),
        commit_tracking(s.run_spec(inputs).0),
        s.run_spec(inputs).0.next_offset == s.next_offset + inputs.len(),
        s.run_spec(inputs).0.offset_modulo == s.offset_modulo,
    decreases inputs.len(),
{
    if inputs.len() > 0 {
        let cmd = inputs[0].0;
        let le = inputs[0].1;
        lemma_step_preserves_inv(s, cmd, le);
        lemma_step_preserves_tracking(s, cmd, le);
        lemma_run_tracking(s.step_spec(cmd, le).0, inputs.skip(1));
    }
}

/// Composing runs: a run over `a + b`, where `a` holds no shutdown, is
/// the run over `a` continued over `b`.
pub proof fn lemma_run_append(s: ShardModel, a: Seq<(ShardCommand, bool)>, b: Seq<
    (ShardCommand, bool),
>)
    requires
        no_shutdown(a),
    ensures
        s.run_spec(a + b).0 == s.run_spec(a).0.run_spec(b).0,
        s.run_spec(a + b).1 == s.run_spec(a).1 + s.run_spec(a).0.run_spec(b).1,
    decreases a.len(),
{
    if a.len() == 0 {
        assert(a + b =~= b);
        assert(s.run_spec(a).1 + s.run_spec(a).0.run_spec(b).1 =~= s.run_spec(b).1);
    } else {
        let cmd = a[0].0;
        let le = a[0].1;
        let s1 = s.step_spec(cmd, le).0;
        let acts = s.step_spec(cmd, le).1;
        assert((a + b)[0] == a[0]);
        assert((a + b).skip(1) =~= a.skip(1) + b);
        assert(forall|i: int| 0 <= i < a.skip(1).len() ==> a.skip(1)[i] == a[i + 1]);
        lemma_run_append(s1, a.skip(1), b);
        assert(s.run_spec(a + b).1 =~= s.run_spec(a).1 + s.run_spec(a).0.run_spec(b).1);
    }
}

impl ShardState {
    /// Whether staging one more event of `byte_size` bytes would flush
    /// first. The surrounding task consults this to restart its linger
    /// deadline whenever a flush was triggered, buffered rows or none.
    pub fn flush_due(&self, byte_size: usize, linger_expired: bool) -> (b: bool)
        ensures
            b == self@.flush_due(byte_size as int, linger_expired),
    {
        self.buffer.len() >= self.max_buffer_capacity || self.curr_batch_byte_size
            >= self.max_buffer_byte_size || self.max_buffer_byte_size - self.curr_batch_byte_size
            <= byte_size || linger_expired
    }
}

/// Any flush effect of a step carries the whole buffer the step
/// started with: the rows to submit are exactly the worker's staged
/// events, in order.
pub proof fn lemma_step_flush_whole_buffer(s: ShardModel, cmd: ShardCommand, linger_expired: bool)
    requires
        s.inv(),
        s.buffer.len() <= usize::MAX,
    ensures
        forall|k: int|
            0 <= k < s.step_spec(cmd, linger_expired).1.len() && (#[trigger] s.step_spec(
                cmd,
                linger_expired,
            ).1[k]) is Flush ==> s.step_spec(cmd, linger_expired).1[k] == (ShardAction::Flush {
            events: s.buffer.len() as usize,
        }),
{
    let acts = s.step_spec(cmd, linger_expired).1;
    let ca: Seq<ShardAction> = if s.commit_due() {
        seq![ShardAction::CommitPeriod { period: (s.curr_period() - 1) as ShardPeriod }]
    } else {
        Seq::empty()
    };
    let s1 = if s.commit_due() {
        ShardModel { last_committed_period: s.curr_period() - 1, ..s }
    } else {
        s
    };
    assert(s1.buffer == s.buffer);
    assert forall|k: int| 0 <= k < acts.len() && (#[trigger] acts[k]) is Flush implies acts[k]
        == (ShardAction::Flush { events: s.buffer.len() as usize }) by {
        match cmd {
            ShardCommand::Shutdown => {
                assert(acts =~= ca + s1.flush_actions());
            },
            _ => {},
        }
    }
}

/// Period boundary rule for a freshly spawned worker (nothing
/// committed yet, as `ShardState::new` starts it): before any row
/// whose offset opens a period reaches the log, the marker closing
/// the previous period was committed earlier in the same run.
pub proof fn lemma_boundary_commit_precedes_append(
    s: ShardModel,
    inputs: Seq<(ShardCommand, bool)>,
    j: int,
)
    requires
        s.inv(),
        s.last_committed_period == -1,
        s.next_offset + insert_count(inputs) <= i64::MAX,
        0 <= j < s.run_spec(inputs).1.len(),
        opens_period(s.run_spec(inputs).1[j], s.offset_modulo),
    ensures
        exists|i: int|
            0 <= i < j && s.run_spec(inputs).1[i] == closing_commit(
                s.run_spec(inputs).1[j],
                s.offset_modulo,
            ),
{
    lemma_boundary_append_has_commit(s, inputs, j);
    let acts = s.run_spec(inputs).1;
    if closed_period(acts[j], s.offset_modulo) == s.last_committed_period {
        // impossible: a period-opening offset is a positive multiple
        // of the period size, so the period it closes is not -1
        match acts[j] {
            ShardAction::Append { event } => {
                let off = event.offset as int;
                let m = s.offset_modulo;
                vstd::arithmetic::div_mod::lemma_fundamental_div_mod(off, m);
                vstd::arithmetic::div_mod::lemma_div_pos_is_pos(off, m);
                assert(off == m * (off / m));
                if off / m == 0 {
                    assert(off == 0);
                }
            },
            _ => {},
        }
    }
}

/// A worker step keeps the state well-formed.
pub proof fn lemma_step_preserves_inv(s: ShardModel, cmd: ShardCommand, linger_expired: bool)
    requires
        s.inv(),
        !(cmd is Shutdown) ==> s.next_offset < i64::MAX,
    ensures
        s.step_spec(cmd, linger_expired).0.inv(),
{
    let s1 = s.step_spec(cmd, linger_expired).0;
    vstd::arithmetic::div_mod::lemma_div_pos_is_pos(s.next_offset, s.offset_modulo);
    match cmd {
        ShardCommand::Shutdown => {},
        _ => {
            assert(s1.next_offset == s.next_offset + 1);
            vstd::arithmetic::div_mod::lemma_div_is_ordered(
                s.next_offset,
                s.next_offset + 1,
                s.offset_modulo,
            );
        },
    }
}

} // verus!
