//! The error kinds that the coordination engine returns to its callers.
//!
//! Every failure is a typed, returned value; malformed input never aborts.
//! Transport handlers are expected to map each kind to a protocol-specific
//! status of their own.

use vstd::prelude::*;

verus! {

/// A typed failure of an identifier, membership, ownership or offset check.
#[derive(Clone, Copy, Debug, PartialEq, Eq, Structural)]
pub enum CoordinatorError {
    /// The identifier is malformed: a numeric payload that does not hold a
    /// positive 32-bit value, or a name that is empty or too long.
    InvalidIdentifier,
    /// No consumer group with the given id exists.
    ConsumerGroupNotFound,
    /// The member id is not registered in the group.
    MemberNotInGroup,
    /// A group member asked for a partition that the current assignment
    /// gives to another member (or to nobody).
    PartitionNotOwnedByMember,
    /// The partition id does not exist, or no partition is available.
    PartitionNotFound,
    /// The offset is below the committed value or beyond the log's tail.
    OffsetOutOfRange,
}

} // verus!
