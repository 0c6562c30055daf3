//! One consumer group: its live members and the current partition-to-member
//! assignment.
//!
//! A group is created on first join and destroyed only explicitly -- never
//! implicitly on becoming empty, which is a valid transient state. Every
//! membership change recomputes the assignment wholesale from the sorted
//! partition and member lists; member ids are derived from client ids by
//! identity, which is stable for a client's session.

use vstd::prelude::*;
use crate::assignment::assignment_wf;
use crate::assignment::compute_assignment;
use crate::errors::CoordinatorError;
use crate::sorted::insert_sorted;
use crate::sorted::remove_value;
use crate::sorted::strictly_sorted;

verus! {

/// The mathematical content of a [`ConsumerGroup`].
#[verifier::ext_equal]
pub struct GroupView {
    pub group_id: u32,
    pub partitions: Seq<u32>,
    pub members: Seq<u32>,
    pub assignment: Seq<(u32, u32)>,
}

/// A well-formed group keeps both id lists strictly sorted and its
/// assignment exactly the balanced split of the one over the other.
pub open spec fn group_wf(g: GroupView) -> bool {
    &&& strictly_sorted(g.partitions)
    &&& strictly_sorted(g.members)
    &&& assignment_wf(g.assignment, g.partitions, g.members)
}

/// The member owning a partition, reading the assignment first to last.
pub open spec fn spec_assigned_member(asg: Seq<(u32, u32)>, partition_id: u32) -> Option<u32>
    decreases asg.len(),
{
    if asg.len() == 0 {
        None
    } else if asg[0].0 == partition_id {
        Some(asg[0].1)
    } else {
        spec_assigned_member(asg.drop_first(), partition_id)
    }
}

/// The first partition assigned to a member, reading the assignment first
/// to last; the lowest-indexed partition the member owns.
pub open spec fn spec_first_owned(asg: Seq<(u32, u32)>, member_id: u32) -> Option<u32>
    decreases asg.len(),
{
    if asg.len() == 0 {
        None
    } else if asg[0].1 == member_id {
        Some(asg[0].0)
    } else {
        spec_first_owned(asg.drop_first(), member_id)
    }
}

/// A partition that appears anywhere in the assignment has an owner.
pub proof fn lemma_assigned_member_present(asg: Seq<(u32, u32)>, partition_id: u32, i: int)
    requires
        0 <= i < asg.len(),
        asg[i].0 == partition_id,
    ensures
        spec_assigned_member(asg, partition_id) is Some,
    decreases asg.len(),
{
    if asg[0].0 != partition_id {
        lemma_assigned_member_present(asg.drop_first(), partition_id, i - 1);
    }
}

/// A partition that appears nowhere in the assignment has no owner.
pub proof fn lemma_assigned_member_absent(asg: Seq<(u32, u32)>, partition_id: u32)
    requires
        forall|i: int| 0 <= i < asg.len() ==> (#[trigger] asg[i]).0 != partition_id,
    ensures
        spec_assigned_member(asg, partition_id) is None,
    decreases asg.len(),
{
    if asg.len() > 0 {
        lemma_assigned_member_absent(asg.drop_first(), partition_id);
    }
}

/// A member's first owned partition is paired with it somewhere in the
/// assignment.
pub proof fn lemma_first_owned_entry(asg: Seq<(u32, u32)>, member_id: u32)
    requires
        spec_first_owned(asg, member_id) is Some,
    ensures
        exists|i: int|
            0 <= i < asg.len() && #[trigger] asg[i] == (
            spec_first_owned(asg, member_id).unwrap(),
            member_id,
            ),
    decreases asg.len(),
{
    if asg[0].1 == member_id {
        assert(asg[0] == (spec_first_owned(asg, member_id).unwrap(), member_id));
    } else {
        lemma_first_owned_entry(asg.drop_first(), member_id);
        let i = choose|i: int|
            0 <= i < asg.drop_first().len() && #[trigger] asg.drop_first()[i] == (
            spec_first_owned(asg.drop_first(), member_id).unwrap(),
            member_id,
            );
        assert(asg[i + 1] == (spec_first_owned(asg, member_id).unwrap(), member_id));
    }
}

/// A consumer group: id, sorted live member ids, the sorted partition set of
/// its topic, and the current assignment.
pub struct ConsumerGroup {
    group_id: u32,
    partitions: Vec<u32>,
    members: Vec<u32>,
    assignment: Vec<(u32, u32)>,
}

impl View for ConsumerGroup {
    type V = GroupView;

    closed spec fn view(&self) -> GroupView {
        GroupView {
            group_id: self.group_id,
            partitions: self.partitions@,
            members: self.members@,
            assignment: self.assignment@,
        }
    }
}

impl ConsumerGroup {
    /// A new, empty group over a topic's partition set. Emptiness is a valid
    /// state; the group lives until explicitly deleted.
    pub fn new(group_id: u32, partitions: Vec<u32>) -> (g: ConsumerGroup)
        requires
            strictly_sorted(partitions@),
        ensures
            group_wf(g@),
            g@.group_id == group_id,
            g@.partitions == partitions@,
            g@.members =~= Seq::<u32>::empty(),
    {
        ConsumerGroup { group_id, partitions, members: Vec::new(), assignment: Vec::new() }
    }

    /// The group's id.
    pub fn group_id(&self) -> (id: u32)
        ensures
            id == self@.group_id,
    {
        self.group_id
    }

    /// The number of live members.
    pub fn member_count(&self) -> (n: usize)
        ensures
            n == self@.members.len(),
    {
        self.members.len()
    }

    /// The sorted live member ids.
    pub fn members(&self) -> (m: &Vec<u32>)
        ensures
            m@ == self@.members,
    {
        &self.members
    }

    /// The current assignment, as (partition id, member id) pairs ordered by
    /// partition.
    pub fn current_assignment(&self) -> (a: &Vec<(u32, u32)>)
        ensures
            a@ == self@.assignment,
    {
        &self.assignment
    }

    /// Registers a member under the id derived from its client id and
    /// recomputes the assignment over the group's full partition set. Joining
    /// twice under one client id leaves the membership as it was.
    pub fn join(&mut self, client_id: u32) -> (member_id: u32)
        requires
            group_wf(old(self)@),
            old(self)@.members.len() < usize::MAX,
        ensures
            group_wf(final(self)@),
            member_id == client_id,
            final(self)@.group_id == old(self)@.group_id,
            final(self)@.partitions == old(self)@.partitions,
            forall|y: u32|
                final(self)@.members.contains(y) <==> (old(self)@.members.contains(y) || y
                    == client_id),
            old(self)@.members.contains(client_id) ==> final(self)@.members == old(self)@.members,
    {
        insert_sorted(&mut self.members, client_id);
        self.assignment = compute_assignment(&self.partitions, &self.members);
        client_id
    }

    /// Unregisters a member and recomputes the assignment over the remaining
    /// members; fails with `MemberNotInGroup`, changing nothing, if the
    /// member is absent.
    pub fn leave(&mut self, member_id: u32) -> (r: Result<(), CoordinatorError>)
        requires
            group_wf(old(self)@),
        ensures
            group_wf(final(self)@),
            final(self)@.group_id == old(self)@.group_id,
            final(self)@.partitions == old(self)@.partitions,
            r is Ok <==> old(self)@.members.contains(member_id),
            r is Err ==> final(self)@ =~= old(self)@ && r == Err::<(), CoordinatorError>(
                CoordinatorError::MemberNotInGroup,
            ),
            r is Ok ==> forall|y: u32|
                final(self)@.members.contains(y) <==> (old(self)@.members.contains(y) && y
                    != member_id),
    {
        let found = remove_value(&mut self.members, member_id);
        if !found {
            return Err(CoordinatorError::MemberNotInGroup);
        }
        self.assignment = compute_assignment(&self.partitions, &self.members);
        Ok(())
    }

    /// Whether a member id is registered.
    pub fn is_member(&self, member_id: u32) -> (b: bool)
        ensures
            b == self@.members.contains(member_id),
    {
        match crate::sorted::find_index(&self.members, member_id) {
            Some(_) => true,
            None => false,
        }
    }

    /// Looks the partition up in the current assignment. With at least one
    /// member, succeeds exactly for the partitions of the group's set; with
    /// none, every lookup fails with `PartitionNotFound`.
    pub fn assigned_member(&self, partition_id: u32) -> (r: Result<u32, CoordinatorError>)
        requires
            group_wf(self@),
        ensures
            match r {
                Ok(member) => spec_assigned_member(self@.assignment, partition_id) == Some(member),
                Err(e) => spec_assigned_member(self@.assignment, partition_id) is None && e
                    == CoordinatorError::PartitionNotFound,
            },
            self@.members.len() >= 1 ==> (r is Ok <==> self@.partitions.contains(partition_id)),
            self@.members.len() == 0 ==> r is Err,
    {
        let ghost asg = self@.assignment;
        let mut i: usize = 0;
        let mut found: Option<u32> = None;
        assert(asg.subrange(0, asg.len() as int) =~= asg);
        while i < self.assignment.len() && found.is_none()
            invariant
                i <= asg.len(),
                asg == self@.assignment,
                found is None ==> spec_assigned_member(asg, partition_id) == spec_assigned_member(
                    asg.subrange(i as int, asg.len() as int),
                    partition_id,
                ),
                found is Some ==> spec_assigned_member(asg, partition_id) == found,
            decreases asg.len() - i,
        {
            let entry = self.assignment[i];
            proof {
                let suffix = asg.subrange(i as int, asg.len() as int);
                assert(suffix[0] == asg[i as int]);
                assert(suffix.drop_first() =~= asg.subrange(i + 1, asg.len() as int));
            }
            if entry.0 == partition_id {
                found = Some(entry.1);
            }
            i = i + 1;
        }
        proof {
            if found is None {
                assert(asg.subrange(asg.len() as int, asg.len() as int) =~= Seq::<(
                    u32,
                    u32,
                )>::empty());
            }
            if self@.members.len() >= 1 {
                if self@.partitions.contains(partition_id) {
                    let k = choose|k: int|
                        0 <= k < self@.partitions.len() && self@.partitions[k] == partition_id;
                    lemma_assigned_member_present(asg, partition_id, k);
                } else {
                    assert(forall|k: int|
                        0 <= k < asg.len() ==> (#[trigger] asg[k]).0 != partition_id) by {
                        assert(forall|k: int|
                            0 <= k < asg.len() ==> (#[trigger] asg[k]).0 == self@.partitions[k]
                                && self@.partitions.contains(self@.partitions[k]));
                    }
                    lemma_assigned_member_absent(asg, partition_id);
                }
            }
        }
        match found {
            Some(member) => Ok(member),
            None => Err(CoordinatorError::PartitionNotFound),
        }
    }

    /// The first partition the member owns under the current assignment, by
    /// partition order; `None` when the member owns none (more members than
    /// partitions, or the member is not registered).
    pub fn first_owned_partition(&self, member_id: u32) -> (r: Option<u32>)
        requires
            group_wf(self@),
        ensures
            r == spec_first_owned(self@.assignment, member_id),
    {
        let ghost asg = self@.assignment;
        let mut i: usize = 0;
        assert(asg.subrange(0, asg.len() as int) =~= asg);
        while i < self.assignment.len()
            invariant
                i <= asg.len(),
                asg == self@.assignment,
                spec_first_owned(asg, member_id) == spec_first_owned(
                    asg.subrange(i as int, asg.len() as int),
                    member_id,
                ),
            decreases asg.len() - i,
        {
            let entry = self.assignment[i];
            proof {
                let suffix = asg.subrange(i as int, asg.len() as int);
                assert(suffix[0] == asg[i as int]);
                assert(suffix.drop_first() =~= asg.subrange(i + 1, asg.len() as int));
            }
            if entry.1 == member_id {
                return Some(entry.0);
            }
            i = i + 1;
        }
        proof {
            assert(asg.subrange(asg.len() as int, asg.len() as int) =~= Seq::<(u32, u32)>::empty());
        }
        None
    }
}

} // verus!
