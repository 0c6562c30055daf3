//! The poll dispatcher: the engine's entry point. It resolves a poll or
//! commit request to a concrete consuming entity, validates ownership
//! against the coordinator, reads from the right partition log starting at
//! the offset the poll policy selects, and updates the offset table.
//!
//! Steps one to three of a poll -- resolving, choosing the start offset,
//! reading -- are read-only and safe to retry; only the commit in step four
//! has a side effect, so an aborted poll leaves no trace. Partitions are
//! numbered `1..=partition_count`, and a read never crosses partition
//! boundaries. The dispatcher owns neither group nor offset state: the
//! coordinator and the offset table do, and it orchestrates them.

use vstd::prelude::*;
use crate::coordinator::ConsumerGroupCoordinator;
use crate::errors::CoordinatorError;
use crate::group::GroupView;
use crate::group::group_wf;
use crate::group::lemma_first_owned_entry;
use crate::group::spec_assigned_member;
use crate::group::spec_first_owned;
use crate::identifier::Identifier;
use crate::identifier::spec_resolve_key;
use crate::log::Message;
use crate::log::PartitionLog;
use crate::offsets::ConsumerOffsetTable;
use crate::polling_consumer::PollingConsumer;
use crate::polling_consumer::spec_entity_key;

verus! {

/// Where a poll starts reading: a closed enumeration of start-offset
/// policies.
#[derive(Clone, Copy, Debug, PartialEq, Eq, Structural)]
pub enum PollPolicy {
    /// Continue from the last committed offset; with no prior commit, from
    /// the start of the log.
    Next,
    /// From the start of the log.
    First,
    /// From the tail of the log: only messages appended later are seen.
    Last,
    /// From an explicit offset, subject to the range check.
    Offset(u64),
}

/// Whom a poll request names: a plain consumer with its fixed partition, or
/// a group member, whose partition the coordinator determines unless the
/// caller names one to validate.
pub enum PollTarget {
    Consumer { consumer_id: Identifier, partition_id: u32 },
    GroupMember { group_id: u32, member_id: u32, partition_id: Option<u32> },
}

/// What a successful poll returns: the messages read, in order, and the
/// offset of the last one (or the resolved start offset when none was
/// available).
#[derive(Debug)]
pub struct PollResult {
    pub messages: Vec<Message>,
    pub last_offset: u64,
}

/// The start offset a policy selects, given the entity's committed offset
/// and the log's tail; an explicit offset past the tail is out of range.
pub open spec fn spec_start_offset(policy: PollPolicy, committed: Option<u64>, tail: nat) -> Result<
    u64,
    CoordinatorError,
> {
    match policy {
        PollPolicy::Next => Ok(
            match committed {
                Some(o) => o,
                None => 0,
            },
        ),
        PollPolicy::First => Ok(0),
        PollPolicy::Last => Ok(tail as u64),
        PollPolicy::Offset(n) => if n <= tail {
            Ok(n)
        } else {
            Err(CoordinatorError::OffsetOutOfRange)
        },
    }
}

/// What an auto-commit leaves stored: the delivered position, except that a
/// stored offset already ahead of it stays (stored offsets never move
/// backwards).
pub open spec fn spec_advanced(committed: Option<u64>, candidate: u64) -> Option<u64> {
    match committed {
        Some(s) => if s >= candidate {
            Some(s)
        } else {
            Some(candidate)
        },
        None => Some(candidate),
    }
}

/// Law: a plain consumer's poll resolves to exactly the partition it asked
/// for. Together with `poll`'s postcondition -- every delivered message is an
/// entry of the resolved partition's log -- a plain consumer polling one
/// partition never receives messages from another.
pub proof fn lemma_plain_consumer_reads_its_partition(
    d: PollDispatcher,
    consumer_id: Identifier,
    partition_id: u32,
)
    requires
        d.spec_resolve(PollTarget::Consumer { consumer_id, partition_id }) is Ok,
    ensures
        d.spec_resolve(PollTarget::Consumer { consumer_id, partition_id }).unwrap().1
            == partition_id,
{
}

/// Law: a group member naming a partition that the current assignment gives
/// to another member is rejected with `PartitionNotOwnedByMember`; `poll`
/// then changes nothing and delivers nothing.
pub proof fn lemma_unowned_partition_is_rejected(
    d: PollDispatcher,
    group_id: u32,
    member_id: u32,
    partition_id: u32,
)
    requires
        d.spec_group(group_id) is Some,
        d.spec_group(group_id).unwrap().members.contains(member_id),
        spec_assigned_member(d.spec_group(group_id).unwrap().assignment, partition_id) is Some,
        spec_assigned_member(d.spec_group(group_id).unwrap().assignment, partition_id) != Some(
            member_id,
        ),
    ensures
        d.spec_resolve(
            PollTarget::GroupMember { group_id, member_id, partition_id: Some(partition_id) },
        ) == Err::<(PollingConsumer, u32), CoordinatorError>(
            CoordinatorError::PartitionNotOwnedByMember,
        ),
{
}

/// The partition assignment and polling coordination engine: one partition
/// log per partition id, the group coordinator, and the offset table.
pub struct PollDispatcher {
    partition_ids: Vec<u32>,
    logs: Vec<PartitionLog>,
    coordinator: ConsumerGroupCoordinator,
    offsets: ConsumerOffsetTable,
}

impl PollDispatcher {
    /// How many partitions the topic has; their ids are `1..=count`.
    pub closed spec fn spec_partition_count(&self) -> nat {
        self.logs@.len()
    }

    /// The content of one partition's log: the payload at each offset.
    pub closed spec fn spec_log(&self, partition_id: u32) -> Seq<Seq<u8>> {
        self.logs@[partition_id - 1]@
    }

    /// The group registered under an id, if any.
    pub closed spec fn spec_group(&self, group_id: u32) -> Option<GroupView> {
        self.coordinator.spec_group(group_id)
    }

    /// The committed offset of one entity on one partition, if any.
    pub closed spec fn spec_committed(&self, entity_key: u64, partition_id: u32) -> Option<u64> {
        self.offsets.spec_get(entity_key, partition_id)
    }

    /// Logs and partition ids line up, every component is well formed, and
    /// every group's partition set is the topic's.
    pub closed spec fn wf(&self) -> bool {
        &&& self.partition_ids@.len() == self.logs@.len()
        &&& self.logs@.len() <= u32::MAX
        &&& (forall|i: int|
            0 <= i < self.partition_ids@.len() ==> #[trigger] self.partition_ids@[i] == i + 1)
        &&& (forall|i: int| 0 <= i < self.logs@.len() ==> (#[trigger] self.logs@[i]).wf())
        &&& self.coordinator.wf()
        &&& self.offsets.wf()
        &&& (forall|gid: u32|
            match #[trigger] self.coordinator.spec_group(gid) {
                Some(g) => g.partitions == self.partition_ids@,
                None => true,
            })
    }

    /// Step one of a poll: whom the request resolves to and which partition
    /// it reads, or why it is rejected. A plain consumer reads exactly the
    /// partition it asked for; a group member reads a partition the current
    /// assignment gives it, and naming a partition owned by another member
    /// (or by nobody) is `PartitionNotOwnedByMember` (or `PartitionNotFound`).
    pub open spec fn spec_resolve(&self, target: PollTarget) -> Result<
        (PollingConsumer, u32),
        CoordinatorError,
    > {
        match target {
            PollTarget::Consumer { consumer_id, partition_id } => if 1 <= partition_id
                <= self.spec_partition_count() {
                Ok((PollingConsumer::Consumer(spec_resolve_key(consumer_id@), partition_id), partition_id))
            } else {
                Err(CoordinatorError::PartitionNotFound)
            },
            PollTarget::GroupMember { group_id, member_id, partition_id } => match self.spec_group(
                group_id,
            ) {
                None => Err(CoordinatorError::ConsumerGroupNotFound),
                Some(g) => if !g.members.contains(member_id) {
                    Err(CoordinatorError::MemberNotInGroup)
                } else {
                    match partition_id {
                        Some(pid) => match spec_assigned_member(g.assignment, pid) {
                            None => Err(CoordinatorError::PartitionNotFound),
                            Some(owner) => if owner == member_id {
                                Ok((PollingConsumer::ConsumerGroup(group_id, member_id), pid))
                            } else {
                                Err(CoordinatorError::PartitionNotOwnedByMember)
                            },
                        },
                        None => match spec_first_owned(g.assignment, member_id) {
                            Some(pid) => Ok(
                                (PollingConsumer::ConsumerGroup(group_id, member_id), pid),
                            ),
                            None => Err(CoordinatorError::PartitionNotFound),
                        },
                    }
                },
            },
        }
    }

    /// An engine over `partition_count` partitions, all logs empty, no
    /// groups, nothing committed.
    pub fn new(partition_count: u32) -> (d: PollDispatcher)
        ensures
            d.wf(),
            d.spec_partition_count() == partition_count,
            forall|pid: u32|
                1 <= pid <= partition_count ==> (#[trigger] d.spec_log(pid)).len() == 0,
            forall|gid: u32| #[trigger] d.spec_group(gid) is None,
            forall|k: u64, p: u32| #[trigger] d.spec_committed(k, p) is None,
    {
        let mut partition_ids: Vec<u32> = Vec::new();
        let mut logs: Vec<PartitionLog> = Vec::new();
        let mut i: u32 = 0;
        while i < partition_count
            invariant
                i <= partition_count,
                partition_ids@.len() == i,
                logs@.len() == i,
                forall|k: int| 0 <= k < i ==> #[trigger] partition_ids@[k] == k + 1,
                forall|k: int|
                    0 <= k < i ==> (#[trigger] logs@[k]).wf() && logs@[k]@.len() == 0,
            decreases partition_count - i,
        {
            partition_ids.push(i + 1);
            logs.push(PartitionLog::new());
            i = i + 1;
        }
        PollDispatcher {
            partition_ids,
            logs,
            coordinator: ConsumerGroupCoordinator::new(),
            offsets: ConsumerOffsetTable::new(),
        }
    }

    /// How many partitions the topic has.
    pub fn partition_count(&self) -> (n: u32)
        requires
            self.wf(),
        ensures
            n == self.spec_partition_count(),
    {
        self.logs.len() as u32
    }

    /// The index of a partition's log, or `None` for an id outside
    /// `1..=partition_count`.
    fn partition_index(&self, partition_id: u32) -> (r: Option<usize>)
        requires
            self.wf(),
        ensures
            match r {
                Some(i) => 1 <= partition_id <= self.spec_partition_count() && i == partition_id
                    - 1,
                None => !(1 <= partition_id <= self.spec_partition_count()),
            },
    {
        if partition_id >= 1 && partition_id as usize <= self.logs.len() {
            Some((partition_id - 1) as usize)
        } else {
            None
        }
    }

    /// Appends a message to a partition's log, returning the offset it
    /// received; `PartitionNotFound` for an id outside the topic. Other
    /// partitions, groups and offsets are untouched.
    pub fn append(&mut self, partition_id: u32, payload: Vec<u8>) -> (r: Result<
        u64,
        CoordinatorError,
    >)
        requires
            old(self).wf(),
        ensures
            final(self).wf(),
            final(self).spec_partition_count() == old(self).spec_partition_count(),
            forall|gid: u32| #[trigger] final(self).spec_group(gid) == old(self).spec_group(gid),
            forall|k: u64, p: u32|
                #[trigger] final(self).spec_committed(k, p) == old(self).spec_committed(k, p),
            match r {
                Ok(offset) => {
                    &&& 1 <= partition_id <= old(self).spec_partition_count()
                    &&& offset == old(self).spec_log(partition_id).len()
                    &&& final(self).spec_log(partition_id) =~= old(self).spec_log(
                        partition_id,
                    ).push(payload@)
                    &&& forall|p: u32|
                        1 <= p <= old(self).spec_partition_count() && p != partition_id
                            ==> #[trigger] final(self).spec_log(p) == old(self).spec_log(p)
                },
                Err(e) => {
                    &&& !(1 <= partition_id <= old(self).spec_partition_count())
                    &&& e == CoordinatorError::PartitionNotFound
                    &&& *final(self) == *old(self)
                },
            },
    {
        match self.partition_index(partition_id) {
            None => Err(CoordinatorError::PartitionNotFound),
            Some(i) => {
                let ghost prev_logs = self.logs@;
                let offset = self.logs[i].append(payload);
                proof {
                    assert(forall|x: int|
                        0 <= x < prev_logs.len() && x != i ==> self.logs@[x] == prev_logs[x]);
                }
                Ok(offset)
            },
        }
    }

    /// The tail of a partition's log: its highest available offset, one past
    /// the last stored message.
    pub fn highest_offset(&self, partition_id: u32) -> (r: Result<u64, CoordinatorError>)
        requires
            self.wf(),
        ensures
            match r {
                Ok(h) => 1 <= partition_id <= self.spec_partition_count() && h == self.spec_log(
                    partition_id,
                ).len(),
                Err(e) => !(1 <= partition_id <= self.spec_partition_count()) && e
                    == CoordinatorError::PartitionNotFound,
            },
    {
        match self.partition_index(partition_id) {
            None => Err(CoordinatorError::PartitionNotFound),
            Some(i) => Ok(self.logs[i].highest_offset()),
        }
    }

    /// Registers a member in a group, creating the group over the topic's
    /// full partition set on first join, and rebalances it. The member id is
    /// the client id. Logs, offsets and every other group are untouched.
    pub fn join_group(&mut self, group_id: u32, client_id: u32) -> (member_id: u32)
        requires
            old(self).wf(),
            match old(self).spec_group(group_id) {
                Some(g) => g.members.len() < usize::MAX,
                None => true,
            },
        ensures
            final(self).wf(),
            member_id == client_id,
            final(self).spec_partition_count() == old(self).spec_partition_count(),
            forall|p: u32|
                1 <= p <= old(self).spec_partition_count() ==> #[trigger] final(self).spec_log(p)
                    == old(self).spec_log(p),
            forall|k: u64, p: u32|
                #[trigger] final(self).spec_committed(k, p) == old(self).spec_committed(k, p),
            forall|id: u32|
                id != group_id ==> #[trigger] final(self).spec_group(id) == old(self).spec_group(
                    id,
                ),
            final(self).spec_group(group_id) is Some,
            final(self).spec_group(group_id).unwrap().group_id == group_id,
            group_wf(final(self).spec_group(group_id).unwrap()),
            final(self).spec_group(group_id).unwrap().partitions.len() == old(
                self,
            ).spec_partition_count(),
            forall|i: int|
                0 <= i < final(self).spec_group(group_id).unwrap().partitions.len()
                    ==> #[trigger] final(self).spec_group(group_id).unwrap().partitions[i] == i + 1,
            forall|y: u32|
                #![trigger final(self).spec_group(group_id).unwrap().members.contains(y)]
                final(self).spec_group(group_id).unwrap().members.contains(y) <==> ((match old(
                    self,
                ).spec_group(group_id) {
                    Some(og) => og.members.contains(y),
                    None => false,
                }) || y == client_id),
            (match old(self).spec_group(group_id) {
                Some(og) => og.members.contains(client_id),
                None => false,
            }) ==> final(self).spec_group(group_id).unwrap().members == old(self).spec_group(
                group_id,
            ).unwrap().members,
    {
        proof {
            assert(forall|i: int, j: int|
                0 <= i < j < self.partition_ids@.len() ==> self.partition_ids@[i]
                    < self.partition_ids@[j]);
        }
        self.coordinator.join(group_id, client_id, &self.partition_ids)
    }

    /// Removes a member from its group and rebalances the remainder; fails
    /// with `ConsumerGroupNotFound` or `MemberNotInGroup`, changing nothing.
    pub fn leave_group(&mut self, group_id: u32, member_id: u32) -> (r: Result<
        (),
        CoordinatorError,
    >)
        requires
            old(self).wf(),
        ensures
            final(self).wf(),
            final(self).spec_partition_count() == old(self).spec_partition_count(),
            forall|p: u32|
                1 <= p <= old(self).spec_partition_count() ==> #[trigger] final(self).spec_log(p)
                    == old(self).spec_log(p),
            forall|k: u64, p: u32|
                #[trigger] final(self).spec_committed(k, p) == old(self).spec_committed(k, p),
            forall|id: u32|
                id != group_id ==> #[trigger] final(self).spec_group(id) == old(self).spec_group(
                    id,
                ),
            r is Ok <==> (match old(self).spec_group(group_id) {
                Some(g) => g.members.contains(member_id),
                None => false,
            }),
            r is Err ==> final(self).spec_group(group_id) == old(self).spec_group(group_id) && r
                == Err::<(), CoordinatorError>(
                if old(self).spec_group(group_id) is None {
                    CoordinatorError::ConsumerGroupNotFound
                } else {
                    CoordinatorError::MemberNotInGroup
                },
            ),
            r is Ok ==> ({
                let g = final(self).spec_group(group_id).unwrap();
                let og = old(self).spec_group(group_id).unwrap();
                &&& final(self).spec_group(group_id) is Some
                &&& g.group_id == group_id
                &&& group_wf(g)
                &&& g.partitions == og.partitions
                &&& (forall|y: u32| g.members.contains(y) <==> (og.members.contains(y) && y != member_id))
            }),
    {
        self.coordinator.leave(group_id, member_id)
    }

    /// Destroys a group explicitly -- a group is never destroyed merely by
    /// becoming empty; fails with `ConsumerGroupNotFound` if no group has
    /// the id.
    pub fn delete_group(&mut self, group_id: u32) -> (r: Result<(), CoordinatorError>)
        requires
            old(self).wf(),
        ensures
            final(self).wf(),
            final(self).spec_partition_count() == old(self).spec_partition_count(),
            forall|p: u32|
                1 <= p <= old(self).spec_partition_count() ==> #[trigger] final(self).spec_log(p)
                    == old(self).spec_log(p),
            forall|k: u64, p: u32|
                #[trigger] final(self).spec_committed(k, p) == old(self).spec_committed(k, p),
            forall|id: u32|
                id != group_id ==> #[trigger] final(self).spec_group(id) == old(self).spec_group(
                    id,
                ),
            r is Ok <==> old(self).spec_group(group_id) is Some,
            final(self).spec_group(group_id) is None,
            r is Err ==> r == Err::<(), CoordinatorError>(CoordinatorError::ConsumerGroupNotFound),
    {
        self.coordinator.delete_group(group_id)
    }

    /// Commits a read offset for an entity on a partition. Accepted exactly
    /// when the partition exists, the offset does not pass the log's tail,
    /// and it does not move the stored offset backwards; stored offsets
    /// never decrease. Rejections change nothing.
    pub fn commit_offset(&mut self, entity_key: u64, partition_id: u32, offset: u64) -> (r: Result<
        (),
        CoordinatorError,
    >)
        requires
            old(self).wf(),
        ensures
            final(self).wf(),
            final(self).spec_partition_count() == old(self).spec_partition_count(),
            forall|p: u32|
                1 <= p <= old(self).spec_partition_count() ==> #[trigger] final(self).spec_log(p)
                    == old(self).spec_log(p),
            forall|gid: u32| #[trigger] final(self).spec_group(gid) == old(self).spec_group(gid),
            r is Ok <==> (1 <= partition_id <= old(self).spec_partition_count() && offset <= old(
                self,
            ).spec_log(partition_id).len() && (match old(self).spec_committed(
                entity_key,
                partition_id,
            ) {
                Some(prev) => prev <= offset,
                None => true,
            })),
            r is Ok ==> forall|k: u64, p: u32|
                #[trigger] final(self).spec_committed(k, p) == if k == entity_key && p
                    == partition_id {
                    Some(offset)
                } else {
                    old(self).spec_committed(k, p)
                },
            r is Err ==> (forall|k: u64, p: u32|
                #[trigger] final(self).spec_committed(k, p) == old(self).spec_committed(k, p)) && r
                == Err::<(), CoordinatorError>(
                if !(1 <= partition_id <= old(self).spec_partition_count()) {
                    CoordinatorError::PartitionNotFound
                } else {
                    CoordinatorError::OffsetOutOfRange
                },
            ),
            forall|k: u64, p: u32|
                old(self).spec_committed(k, p) is Some ==> #[trigger] final(self).spec_committed(
                    k,
                    p,
                ) is Some && old(self).spec_committed(k, p).unwrap() <= final(self).spec_committed(
                    k,
                    p,
                ).unwrap(),
    {
        match self.partition_index(partition_id) {
            None => Err(CoordinatorError::PartitionNotFound),
            Some(i) => {
                let tail = self.logs[i].highest_offset();
                self.offsets.commit(entity_key, partition_id, offset, tail)
            },
        }
    }

    /// Serves a poll request: resolves the caller (step one), determines the
    /// start offset per the policy (step two), reads up to `count` messages
    /// from the resolved partition's log (step three), and, when asked to
    /// commit and something was delivered, advances the entity's offset to
    /// one past the last delivered message (step four). Steps one to three
    /// are read-only; rejected requests change nothing. Messages come only
    /// from the resolved partition's log, and exactly in order from the
    /// start offset.
    pub fn poll(&mut self, target: &PollTarget, count: u32, policy: PollPolicy, auto_commit: bool)
        -> (r: Result<PollResult, CoordinatorError>)
        requires
            old(self).wf(),
        ensures
            final(self).wf(),
            final(self).spec_partition_count() == old(self).spec_partition_count(),
            forall|p: u32|
                1 <= p <= old(self).spec_partition_count() ==> #[trigger] final(self).spec_log(p)
                    == old(self).spec_log(p),
            forall|gid: u32| #[trigger] final(self).spec_group(gid) == old(self).spec_group(gid),
            match r {
                Err(e) => {
                    &&& (forall|k: u64, p: u32|
                        #[trigger] final(self).spec_committed(k, p) == old(self).spec_committed(
                            k,
                            p,
                        ))
                    &&& match old(self).spec_resolve(*target) {
                        Err(re) => e == re,
                        Ok(resolved) => {
                            &&& spec_start_offset(
                                policy,
                                old(self).spec_committed(spec_entity_key(resolved.0), resolved.1),
                                old(self).spec_log(resolved.1).len(),
                            ) is Err
                            &&& e == CoordinatorError::OffsetOutOfRange
                        },
                    }
                },
                Ok(res) => {
                    &&& old(self).spec_resolve(*target) is Ok
                    &&& ({
                        let resolved = old(self).spec_resolve(*target).unwrap();
                        let pc = resolved.0;
                        let pid = resolved.1;
                        let key = spec_entity_key(pc);
                        let log = old(self).spec_log(pid);
                        let startr = spec_start_offset(
                            policy,
                            old(self).spec_committed(key, pid),
                            log.len(),
                        );
                        &&& 1 <= pid <= old(self).spec_partition_count()
                        &&& startr is Ok
                        &&& ({
                            let start = startr.unwrap();
                            let n = res.messages@.len();
                            &&& n == if start <= log.len() {
                                vstd::math::min((log.len() - start) as int, count as int)
                            } else {
                                0int
                            }
                            &&& (forall|k: int|
                                0 <= k < n ==> (#[trigger] res.messages@[k]).offset == start + k
                                    && res.messages@[k].payload@ == log[start + k])
                            &&& res.last_offset == if n > 0 {
                                start + n - 1
                            } else {
                                start as int
                            }
                            &&& (forall|k2: u64, p2: u32|
                                #[trigger] final(self).spec_committed(k2, p2) == (
                                if auto_commit && n > 0 && k2 == key && p2 == pid {
                                    spec_advanced(
                                        old(self).spec_committed(key, pid),
                                        (start + n) as u64,
                                    )
                                } else {
                                    old(self).spec_committed(k2, p2)
                                }))
                        })
                    })
                },
            },
    {
        let (consumer, pid): (PollingConsumer, u32) = match target {
            PollTarget::Consumer { consumer_id, partition_id } => {
                if !(*partition_id >= 1 && (*partition_id as usize) <= self.logs.len()) {
                    return Err(CoordinatorError::PartitionNotFound);
                }
                (PollingConsumer::consumer(consumer_id, *partition_id), *partition_id)
            },
            PollTarget::GroupMember { group_id, member_id, partition_id } => {
                match self.coordinator.get_group(*group_id) {
                    None => {
                        return Err(CoordinatorError::ConsumerGroupNotFound);
                    },
                    Some(g) => {
                        if !g.is_member(*member_id) {
                            return Err(CoordinatorError::MemberNotInGroup);
                        }
                        match partition_id {
                            Some(requested) => {
                                match g.assigned_member(*requested) {
                                    Err(e) => {
                                        return Err(e);
                                    },
                                    Ok(owner) => {
                                        if owner != *member_id {
                                            return Err(
                                                CoordinatorError::PartitionNotOwnedByMember,
                                            );
                                        }
                                        proof {
                                            let parts = g@.partitions;
                                            let k = choose|k: int|
                                                0 <= k < parts.len() && parts[k] == *requested;
                                            assert(self.partition_ids@[k] == k + 1);
                                        }
                                        (
                                            PollingConsumer::consumer_group(*group_id, *member_id),
                                            *requested,
                                        )
                                    },
                                }
                            },
                            None => {
                                match g.first_owned_partition(*member_id) {
                                    Some(owned) => {
                                        proof {
                                            lemma_first_owned_entry(g@.assignment, *member_id);
                                            let k = choose|k: int|
                                                0 <= k < g@.assignment.len()
                                                    && #[trigger] g@.assignment[k] == (
                                                owned,
                                                *member_id,
                                                );
                                            assert(g@.assignment[k].0 == g@.partitions[k]);
                                            assert(self.partition_ids@[k] == k + 1);
                                        }
                                        (
                                            PollingConsumer::consumer_group(*group_id, *member_id),
                                            owned,
                                        )
                                    },
                                    None => {
                                        return Err(CoordinatorError::PartitionNotFound);
                                    },
                                }
                            },
                        }
                    },
                }
            },
        };
        assert(self.spec_resolve(*target) == Ok::<(PollingConsumer, u32), CoordinatorError>(
            (consumer, pid),
        ));
        assert(1 <= pid <= self.spec_partition_count());
        let entity_key = consumer.entity_key();
        let idx = (pid - 1) as usize;
        let tail = self.logs[idx].highest_offset();
        let committed = self.offsets.get(entity_key, pid);
        let start: u64 = match policy {
            PollPolicy::Next => match committed {
                Some(o) => o,
                None => 0,
            },
            PollPolicy::First => 0,
            PollPolicy::Last => tail,
            PollPolicy::Offset(n) => {
                if n > tail {
                    return Err(CoordinatorError::OffsetOutOfRange);
                }
                n
            },
        };
        let messages = self.logs[idx].read(start, count);
        let n = messages.len();
        let last_offset: u64 = if n > 0 {
            start + (n as u64) - 1
        } else {
            start
        };
        if auto_commit && n > 0 {
            let next_offset = start + (n as u64);
            assert(next_offset <= tail);
            let _ = self.offsets.commit(entity_key, pid, next_offset, tail);
        }
        Ok(PollResult { messages, last_offset })
    }
}

} // verus!
