//! The resolved identity behind a poll request: either a standalone consumer
//! reading one fixed partition, or a member of a consumer group whose
//! partition is determined by the group coordinator.

use vstd::prelude::*;
use vstd::string::StrSliceExecFns;
use vstd::string::StringExecFns;
use crate::identifier::Identifier;
use crate::identifier::spec_resolve_key;
use crate::text::spec_decimal;
use crate::text::u32_to_decimal;

verus! {

/// The consuming entity a poll or commit request resolves to. Callers must
/// handle both variants exhaustively.
#[derive(Clone, Copy, Debug, PartialEq, Eq, Structural)]
pub enum PollingConsumer {
    /// A standalone consumer: consumer id and the fixed partition it reads.
    Consumer(u32, u32),
    /// A group member: consumer group id and member id; the partition read
    /// is determined by the coordinator, not by the caller.
    ConsumerGroup(u32, u32),
}

/// The key under which an entity's committed offsets are stored. A group's
/// members share the group's read progress, so the key carries the group id
/// and not the member id; bit 32 keeps the two id spaces apart.
pub open spec fn spec_entity_key(pc: PollingConsumer) -> u64 {
    match pc {
        PollingConsumer::Consumer(consumer_id, _) => consumer_id as u64,
        PollingConsumer::ConsumerGroup(group_id, _) => (0x1_0000_0000u64 + group_id as u64) as u64,
    }
}

/// The human-readable description of a polling consumer.
pub open spec fn spec_describe(pc: PollingConsumer) -> Seq<char> {
    match pc {
        PollingConsumer::Consumer(consumer_id, partition_id) => "consumer ID: "@ + spec_decimal(
            consumer_id as nat,
        ) + ", partition ID: "@ + spec_decimal(partition_id as nat),
        PollingConsumer::ConsumerGroup(group_id, member_id) => "consumer group ID: "@
            + spec_decimal(group_id as nat) + ", member ID: "@ + spec_decimal(member_id as nat),
    }
}

impl PollingConsumer {
    /// Resolves a standalone consumer: the identifier is normalized to its
    /// routing key and paired with the explicitly requested partition.
    pub fn consumer(consumer_id: &Identifier, partition_id: u32) -> (pc: Self)
        ensures
            pc == PollingConsumer::Consumer(spec_resolve_key(consumer_id@), partition_id),
    {
        PollingConsumer::Consumer(Self::resolve_consumer_id(consumer_id), partition_id)
    }

    /// Pairs a consumer group id with a member id; both are already numeric.
    pub fn consumer_group(consumer_group_id: u32, member_id: u32) -> (pc: Self)
        ensures
            pc == PollingConsumer::ConsumerGroup(consumer_group_id, member_id),
    {
        PollingConsumer::ConsumerGroup(consumer_group_id, member_id)
    }

    /// Normalizes an identifier to a consumer id: the embedded value of a
    /// numeric identifier, the stable 32-bit hash of a named one. Total for
    /// every well-formed identifier; no input aborts.
    pub fn resolve_consumer_id(identifier: &Identifier) -> (key: u32)
        ensures
            key == spec_resolve_key(identifier@),
    {
        identifier.resolve_key()
    }

    /// The key under which this entity's committed offsets are stored.
    pub fn entity_key(&self) -> (k: u64)
        ensures
            k == spec_entity_key(*self),
    {
        match self {
            PollingConsumer::Consumer(consumer_id, _) => *consumer_id as u64,
            PollingConsumer::ConsumerGroup(group_id, _) => 0x1_0000_0000u64 + (*group_id as u64),
        }
    }

    /// Renders the human-readable description of this polling consumer.
    pub fn describe(&self) -> (s: String)
        ensures
            s@ == spec_describe(*self),
    {
        match self {
            PollingConsumer::Consumer(consumer_id, partition_id) => {
                let mut s = String::from_str("consumer ID: ");
                s.append(u32_to_decimal(*consumer_id).as_str());
                s.append(", partition ID: ");
                s.append(u32_to_decimal(*partition_id).as_str());
                assert(s@ =~= spec_describe(*self));
                s
            },
            PollingConsumer::ConsumerGroup(group_id, member_id) => {
                let mut s = String::from_str("consumer group ID: ");
                s.append(u32_to_decimal(*group_id).as_str());
                s.append(", member ID: ");
                s.append(u32_to_decimal(*member_id).as_str());
                assert(s@ =~= spec_describe(*self));
                s
            },
        }
    }
}

} // verus!
