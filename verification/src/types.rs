//! Core identifiers and data model of the sink: shards, offsets, periods,
//! slots, producers, commands, and the sink configuration.

use vstd::prelude::*;

verus! {

/// Identifier of one shard (one ordered lane) of a producer's output.
pub type ShardId = i16;

/// Per-(producer, shard) monotonically increasing sequence number.
pub type ShardOffset = i64;

/// A fixed-size window of offsets: `period == offset / offset_modulo`.
pub type ShardPeriod = i64;

/// Blockchain slot number, an external domain timestamp.
pub type Slot = i64;

/// One-byte opaque tag identifying a single logical writer.
pub type ProducerId = u8;

/// Sentinel slot value, used where no real slot is known.
pub const UNDEFINED_SLOT: Slot = -1;

/// Bound on the set of distinct slots the router remembers;
/// roughly an hour of slots at one slot per 400 ms.
pub const SLOT_SEEN_RETENTION: usize = 9000;

/// Default number of events a shard buffers before a flush is forced,
/// and the depth of the router's inbound mailbox.
pub const DEFAULT_SHARD_MAX_BUFFER_CAPACITY: usize = 15;

/// How finalized the observed events are.
#[derive(Clone, Copy, Debug, PartialEq, Eq, Structural)]
pub enum CommitmentLevel {
    Processed,
    Confirmed,
    Finalized,
}

/// Where a consumer asks to start reading.
#[derive(Clone, Copy, Debug, PartialEq, Eq, Structural)]
pub enum SeekLocation {
    Earliest,
    Latest,
    SlotApprox { desired_slot: Slot, min_slot: Slot },
}

/// An account-update event, reduced to what the write path reads of it:
/// its slot and its measured size in bytes.
#[derive(Clone, Copy, Debug, PartialEq, Eq, Structural)]
pub struct AccountUpdate {
    pub slot: Slot,
    pub byte_size: usize,
}

/// A transaction event, reduced to what the write path reads of it.
#[derive(Clone, Copy, Debug, PartialEq, Eq, Structural)]
pub struct Transaction {
    pub slot: Slot,
    pub byte_size: usize,
}

/// A command sent to the router and, from there, to one shard worker.
#[derive(Clone, Copy, Debug, PartialEq, Eq, Structural)]
pub enum ShardCommand {
    Shutdown,
    InsertAccountUpdate(AccountUpdate),
    InsertTransaction(Transaction),
}

/// Which kind of event a stamped log row holds.
#[derive(Clone, Copy, Debug, PartialEq, Eq, Structural)]
pub enum EventKind {
    AccountUpdate,
    Transaction,
}

/// An event as it is appended to the log: the inbound event stamped
/// with the shard, producer and offset it was assigned.
#[derive(Clone, Copy, Debug, PartialEq, Eq, Structural)]
pub struct BlockchainEvent {
    pub shard_id: ShardId,
    pub producer_id: ProducerId,
    pub offset: ShardOffset,
    pub slot: Slot,
    pub byte_size: usize,
    pub kind: EventKind,
}

impl ShardCommand {
    /// The slot carried by a command; the sentinel for `Shutdown`.
    pub open spec fn slot_spec(self) -> Slot {
        match self {
            ShardCommand::Shutdown => UNDEFINED_SLOT,
            ShardCommand::InsertAccountUpdate(u) => u.slot,
            ShardCommand::InsertTransaction(t) => t.slot,
        }
    }

    /// The measured byte size of the event a command carries.
    pub open spec fn byte_size_spec(self) -> usize {
        match self {
            ShardCommand::Shutdown => 0,
            ShardCommand::InsertAccountUpdate(u) => u.byte_size,
            ShardCommand::InsertTransaction(t) => t.byte_size,
        }
    }

    pub fn slot(&self) -> (s: Slot)
        ensures
            s == self.slot_spec(),
    {
        match self {
            ShardCommand::Shutdown => UNDEFINED_SLOT,
            ShardCommand::InsertAccountUpdate(u) => u.slot,
            ShardCommand::InsertTransaction(t) => t.slot,
        }
    }

    pub fn byte_size(&self) -> (n: usize)
        ensures
            n == self.byte_size_spec(),
    {
        match self {
            ShardCommand::Shutdown => 0,
            ShardCommand::InsertAccountUpdate(u) => u.byte_size,
            ShardCommand::InsertTransaction(t) => t.byte_size,
        }
    }
}

/// The error the sink facade reports when routing fails because the
/// sink is closing.
#[derive(Clone, Copy, Debug, PartialEq, Eq, Structural)]
pub enum ScyllaSinkError {
    SinkClose,
}

/// Configuration of the sink, with every field the logic reads held as
/// a plain value. The interface name is kept as raw bytes.
#[derive(Clone, Debug, PartialEq)]
pub struct ScyllaSinkConfig {
    pub producer_id: Option<ProducerId>,
    pub num_shards: usize,
    pub batch_len_limit: usize,
    pub batch_size_kb_limit: usize,
    pub linger_ms: u64,
    pub keyspace: String,
    pub ifname: Option<Vec<u8>>,
    pub commitment_level: CommitmentLevel,
}

impl ScyllaSinkConfig {
    /// Byte-size cap of one shard's buffer: `batch_size_kb_limit` kibibytes.
    pub fn max_buffer_byte_size(&self) -> (n: usize)
        requires
            self.batch_size_kb_limit * 1024 <= usize::MAX,
        ensures
            n == self.batch_size_kb_limit * 1024,
    {
        self.batch_size_kb_limit * 1024
    }

    /// The producer identity to run under: the configured one, or the
    /// freshly generated fallback.
    pub fn resolve_producer_id(&self, fallback: ProducerId) -> (p: ProducerId)
        ensures
            p == match self.producer_id {
                Some(q) => q,
                None => fallback,
            },
    {
        match self.producer_id {
            Some(q) => q,
            None => fallback,
        }
    }
}

} // verus!
