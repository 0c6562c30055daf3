//! The consumer group coordinator: owns all group membership and
//! partition-to-member assignment state, and enforces that each partition
//! has at most one owner within a group.
//!
//! All mutations to one group's state are serialized -- here by exclusive
//! access to the coordinator -- and operations on different groups are
//! independent: no operation below touches any group but the one it names.

use vstd::prelude::*;
use crate::errors::CoordinatorError;
use crate::group::ConsumerGroup;
use crate::group::GroupView;
use crate::group::group_wf;
use crate::group::spec_assigned_member;
use crate::sorted::strictly_sorted;

verus! {

/// The group registered under an id, reading the registry first to last.
pub open spec fn spec_find_group(gs: Seq<GroupView>, group_id: u32) -> Option<GroupView>
    decreases gs.len(),
{
    if gs.len() == 0 {
        None
    } else if gs[0].group_id == group_id {
        Some(gs[0])
    } else {
        spec_find_group(gs.drop_first(), group_id)
    }
}

/// No two groups share an id.
pub open spec fn group_ids_unique(gs: Seq<GroupView>) -> bool {
    forall|i: int, j: int|
        0 <= i < j < gs.len() ==> (#[trigger] gs[i]).group_id != (#[trigger] gs[j]).group_id
}

/// Group ids are unique and every group is well formed.
pub open spec fn coordinator_wf(gs: Seq<GroupView>) -> bool {
    &&& group_ids_unique(gs)
    &&& forall|i: int| 0 <= i < gs.len() ==> group_wf(#[trigger] gs[i])
}

/// With unique ids, the group at any position is what its id finds.
proof fn lemma_find_at_index(gs: Seq<GroupView>, i: int)
    requires
        group_ids_unique(gs),
        0 <= i < gs.len(),
    ensures
        spec_find_group(gs, gs[i].group_id) == Some(gs[i]),
    decreases gs.len(),
{
    if i > 0 {
        assert(group_ids_unique(gs.drop_first())) by {
            assert(forall|x: int, y: int|
                0 <= x < y < gs.drop_first().len() ==> gs.drop_first()[x] == gs[x + 1]
                    && gs.drop_first()[y] == gs[y + 1]);
        }
        lemma_find_at_index(gs.drop_first(), i - 1);
    }
}

/// An id matching no group finds nothing.
proof fn lemma_find_absent(gs: Seq<GroupView>, group_id: u32)
    requires
        forall|i: int| 0 <= i < gs.len() ==> (#[trigger] gs[i]).group_id != group_id,
    ensures
        spec_find_group(gs, group_id) is None,
    decreases gs.len(),
{
    if gs.len() > 0 {
        lemma_find_absent(gs.drop_first(), group_id);
    }
}

/// Replacing one group with another of the same id changes exactly that
/// id's lookup.
proof fn lemma_find_update(gs: Seq<GroupView>, i: int, g: GroupView, id: u32)
    requires
        group_ids_unique(gs),
        0 <= i < gs.len(),
        g.group_id == gs[i].group_id,
    ensures
        group_ids_unique(gs.update(i, g)),
        spec_find_group(gs.update(i, g), id) == if id == g.group_id {
            Some(g)
        } else {
            spec_find_group(gs, id)
        },
    decreases gs.len(),
{
    let updated = gs.update(i, g);
    assert(forall|x: int| 0 <= x < gs.len() && x != i ==> updated[x] == gs[x]);
    assert(updated[i] == g);
    if i == 0 {
        assert(updated.drop_first() =~= gs.drop_first());
        if id != g.group_id && gs[0].group_id == id {
            assert(false);
        }
    } else {
        assert(group_ids_unique(gs.drop_first())) by {
            assert(forall|x: int, y: int|
                0 <= x < y < gs.drop_first().len() ==> gs.drop_first()[x] == gs[x + 1]
                    && gs.drop_first()[y] == gs[y + 1]);
        }
        assert(updated.drop_first() =~= gs.drop_first().update(i - 1, g));
        lemma_find_update(gs.drop_first(), i - 1, g, id);
        if id == g.group_id {
            assert(gs[0].group_id != id);
        }
    }
    assert(group_ids_unique(updated)) by {
        assert(forall|x: int, y: int|
            0 <= x < y < updated.len() ==> updated[x].group_id == gs[x].group_id
                && updated[y].group_id == gs[y].group_id);
    }
}

/// Registering a fresh id leaves every other id's lookup unchanged and
/// makes the new group findable.
proof fn lemma_find_push(gs: Seq<GroupView>, g: GroupView, id: u32)
    requires
        group_ids_unique(gs),
        spec_find_group(gs, g.group_id) is None,
    ensures
        group_ids_unique(gs.push(g)),
        spec_find_group(gs.push(g), id) == if id == g.group_id {
            Some(g)
        } else {
            spec_find_group(gs, id)
        },
    decreases gs.len(),
{
    let pushed = gs.push(g);
    assert(forall|x: int| 0 <= x < gs.len() ==> pushed[x] == gs[x]);
    assert(pushed[gs.len() as int] == g);
    assert(spec_find_group(pushed, id) == if pushed[0].group_id == id {
        Some(pushed[0])
    } else {
        spec_find_group(pushed.drop_first(), id)
    });
    if gs.len() == 0 {
        assert(pushed.drop_first() =~= Seq::<GroupView>::empty());
        assert(spec_find_group(pushed.drop_first(), id) is None);
    } else {
        assert(group_ids_unique(gs.drop_first())) by {
            assert(forall|x: int, y: int|
                0 <= x < y < gs.drop_first().len() ==> gs.drop_first()[x] == gs[x + 1]
                    && gs.drop_first()[y] == gs[y + 1]);
        }
        assert(pushed.drop_first() =~= gs.drop_first().push(g));
        lemma_find_push(gs.drop_first(), g, id);
    }
    assert forall|x: int, y: int| 0 <= x < y < pushed.len() implies (#[trigger] pushed[x]).group_id
        != (#[trigger] pushed[y]).group_id by {
        if y == gs.len() as int {
            if pushed[x].group_id == g.group_id {
                lemma_find_at_index(gs, x);
                assert(false);
            }
        }
    }
}

/// Dropping one group removes exactly that id's lookup.
proof fn lemma_find_remove(gs: Seq<GroupView>, i: int, id: u32)
    requires
        group_ids_unique(gs),
        0 <= i < gs.len(),
    ensures
        group_ids_unique(gs.remove(i)),
        spec_find_group(gs.remove(i), id) == if id == gs[i].group_id {
            None
        } else {
            spec_find_group(gs, id)
        },
    decreases gs.len(),
{
    let removed = gs.remove(i);
    assert(forall|x: int| 0 <= x < i ==> removed[x] == gs[x]);
    assert(forall|x: int| i <= x < removed.len() ==> removed[x] == gs[x + 1]);
    assert forall|x: int, y: int| 0 <= x < y < removed.len() implies (#[trigger] removed[x]).group_id
        != (#[trigger] removed[y]).group_id by {
        let xo = if x < i {
            x
        } else {
            x + 1
        };
        let yo = if y < i {
            y
        } else {
            y + 1
        };
        assert(removed[x] == gs[xo]);
        assert(removed[y] == gs[yo]);
    }
    if i == 0 {
        assert(removed =~= gs.drop_first());
        if id == gs[0].group_id {
            assert(forall|x: int|
                0 <= x < removed.len() ==> (#[trigger] removed[x]).group_id != id);
            lemma_find_absent(removed, id);
        }
    } else {
        assert(group_ids_unique(gs.drop_first())) by {
            assert(forall|x: int, y: int|
                0 <= x < y < gs.drop_first().len() ==> gs.drop_first()[x] == gs[x + 1]
                    && gs.drop_first()[y] == gs[y + 1]);
        }
        assert(removed.drop_first() =~= gs.drop_first().remove(i - 1));
        lemma_find_remove(gs.drop_first(), i - 1, id);
        assert(removed[0] == gs[0]);
        if id == gs[i].group_id {
            assert(gs[0].group_id != id);
        }
    }
}

/// Copies a vector of ids.
fn copy_ids(v: &Vec<u32>) -> (r: Vec<u32>)
    ensures
        r@ == v@,
{
    let mut r: Vec<u32> = Vec::new();
    let mut i: usize = 0;
    while i < v.len()
        invariant
            i <= v@.len(),
            r@ =~= v@.subrange(0, i as int),
        decreases v@.len() - i,
    {
        r.push(v[i]);
        i = i + 1;
    }
    assert(r@ =~= v@);
    r
}

/// The registry of consumer groups, one entry per group id.
pub struct ConsumerGroupCoordinator {
    groups: Vec<ConsumerGroup>,
}

impl View for ConsumerGroupCoordinator {
    type V = Seq<GroupView>;

    closed spec fn view(&self) -> Seq<GroupView> {
        Seq::new(self.groups@.len() as nat, |i: int| self.groups@[i]@)
    }
}

impl ConsumerGroupCoordinator {
    /// Group ids unique, every group well formed.
    pub open spec fn wf(&self) -> bool {
        coordinator_wf(self@)
    }

    /// The group registered under an id, if any.
    pub open spec fn spec_group(&self, group_id: u32) -> Option<GroupView> {
        spec_find_group(self@, group_id)
    }

    /// A coordinator with no groups.
    pub fn new() -> (c: ConsumerGroupCoordinator)
        ensures
            c.wf(),
            forall|id: u32| c.spec_group(id) is None,
            c@.len() == 0,
    {
        let c = ConsumerGroupCoordinator { groups: Vec::new() };
        proof {
            assert(c@ =~= Seq::<GroupView>::empty());
        }
        c
    }

    /// Finds the position of a group by id.
    fn find_group_index(&self, group_id: u32) -> (r: Option<usize>)
        requires
            self.wf(),
        ensures
            match r {
                Some(i) => i < self@.len() && self@[i as int].group_id == group_id
                    && self.spec_group(group_id) == Some(self@[i as int]),
                None => self.spec_group(group_id) is None,
            },
    {
        let mut i: usize = 0;
        while i < self.groups.len()
            invariant
                self.wf(),
                i <= self@.len(),
                forall|x: int| 0 <= x < i ==> (#[trigger] self@[x]).group_id != group_id,
            decreases self@.len() - i,
        {
            if self.groups[i].group_id() == group_id {
                proof {
                    lemma_find_at_index(self@, i as int);
                }
                return Some(i);
            }
            i = i + 1;
        }
        proof {
            lemma_find_absent(self@, group_id);
        }
        None
    }

    /// A read-only view of the group registered under an id.
    pub fn get_group(&self, group_id: u32) -> (r: Option<&ConsumerGroup>)
        requires
            self.wf(),
        ensures
            match r {
                Some(g) => self.spec_group(group_id) == Some(g@) && g@.group_id == group_id
                    && group_wf(g@),
                None => self.spec_group(group_id) is None,
            },
    {
        match self.find_group_index(group_id) {
            Some(i) => Some(&self.groups[i]),
            None => None,
        }
    }

    /// Registers a member in a group, creating the group over
    /// `topic_partitions` on its first join, and rebalances it. Returns the
    /// member id, which is the client id: a derivation that is stable for
    /// the client's session. Every group but the named one is untouched.
    pub fn join(&mut self, group_id: u32, client_id: u32, topic_partitions: &Vec<u32>) -> (member_id:
        u32)
        requires
            old(self).wf(),
            strictly_sorted(topic_partitions@),
            match spec_find_group(old(self)@, group_id) {
                Some(g) => g.members.len() < usize::MAX,
                None => true,
            },
        ensures
            final(self).wf(),
            member_id == client_id,
            forall|id: u32|
                id != group_id ==> #[trigger] final(self).spec_group(id) == old(self).spec_group(
                    id,
                ),
            final(self).spec_group(group_id) is Some,
            final(self).spec_group(group_id).unwrap().group_id == group_id,
            group_wf(final(self).spec_group(group_id).unwrap()),
            final(self).spec_group(group_id).unwrap().partitions == (match old(self).spec_group(
                group_id,
            ) {
                Some(og) => og.partitions,
                None => topic_partitions@,
            }),
            forall|y: u32|
                #![trigger final(self).spec_group(group_id).unwrap().members.contains(y)]
                final(self).spec_group(group_id).unwrap().members.contains(y) <==> ((match old(
                    self,
                ).spec_group(group_id) {
                    Some(og) => og.members.contains(y),
                    None => false,
                }) || y == client_id),
            (match old(self).spec_group(group_id) {
                Some(og) => og.members.contains(client_id),
                None => false,
            }) ==> final(self).spec_group(group_id).unwrap().members == old(self).spec_group(
                group_id,
            ).unwrap().members,
    {
        let ghost prev = self@;
        match self.find_group_index(group_id) {
            Some(i) => {
                let member_id = self.groups[i].join(client_id);
                proof {
                    assert(self@ =~= prev.update(i as int, self@[i as int]));
                    assert forall|id: u32| #[trigger]
                        spec_find_group(self@, id) == (if id == group_id {
                            Some(self@[i as int])
                        } else {
                            spec_find_group(prev, id)
                        }) by {
                        lemma_find_update(prev, i as int, self@[i as int], id);
                    }
                    lemma_find_update(prev, i as int, self@[i as int], group_id);
                    assert forall|k: int| 0 <= k < self@.len() implies group_wf(
                        #[trigger] self@[k],
                    ) by {
                        if k != i as int {
                            assert(self@[k] == prev[k]);
                        }
                    }
                }
                member_id
            },
            None => {
                let parts = copy_ids(topic_partitions);
                let mut g = ConsumerGroup::new(group_id, parts);
                let member_id = g.join(client_id);
                let ghost gv = g@;
                self.groups.push(g);
                proof {
                    assert(self@ =~= prev.push(gv));
                    assert forall|id: u32| #[trigger]
                        spec_find_group(self@, id) == (if id == group_id {
                            Some(gv)
                        } else {
                            spec_find_group(prev, id)
                        }) by {
                        lemma_find_push(prev, gv, id);
                    }
                    lemma_find_push(prev, gv, group_id);
                    assert forall|k: int| 0 <= k < self@.len() implies group_wf(
                        #[trigger] self@[k],
                    ) by {
                        if k != prev.len() {
                            assert(self@[k] == prev[k]);
                        } else {
                            assert(self@[k] == gv);
                        }
                    }
                }
                member_id
            },
        }
    }

    /// Removes a member from a group and rebalances the remainder; fails
    /// with `ConsumerGroupNotFound` or `MemberNotInGroup`, changing nothing.
    /// Every group but the named one is untouched.
    pub fn leave(&mut self, group_id: u32, member_id: u32) -> (r: Result<(), CoordinatorError>)
        requires
            old(self).wf(),
        ensures
            final(self).wf(),
            forall|id: u32|
                id != group_id ==> #[trigger] final(self).spec_group(id) == old(self).spec_group(
                    id,
                ),
            r is Ok <==> (match old(self).spec_group(group_id) {
                Some(g) => g.members.contains(member_id),
                None => false,
            }),
            r is Err ==> final(self)@ =~= old(self)@ && r == Err::<(), CoordinatorError>(
                if old(self).spec_group(group_id) is None {
                    CoordinatorError::ConsumerGroupNotFound
                } else {
                    CoordinatorError::MemberNotInGroup
                },
            ),
            r is Ok ==> ({
                let g = final(self).spec_group(group_id).unwrap();
                let og = old(self).spec_group(group_id).unwrap();
                &&& final(self).spec_group(group_id) is Some
                &&& g.group_id == group_id
                &&& g.partitions == og.partitions
                &&& group_wf(g)
                &&& forall|y: u32| g.members.contains(y) <==> (og.members.contains(y) && y != member_id)
            }),
    {
        let ghost prev = self@;
        match self.find_group_index(group_id) {
            Some(i) => {
                let r = self.groups[i].leave(member_id);
                proof {
                    assert(self@ =~= prev.update(i as int, self@[i as int]));
                    assert forall|id: u32| #[trigger]
                        spec_find_group(self@, id) == (if id == group_id {
                            Some(self@[i as int])
                        } else {
                            spec_find_group(prev, id)
                        }) by {
                        lemma_find_update(prev, i as int, self@[i as int], id);
                    }
                    lemma_find_update(prev, i as int, self@[i as int], group_id);
                    assert forall|k: int| 0 <= k < self@.len() implies group_wf(
                        #[trigger] self@[k],
                    ) by {
                        if k != i as int {
                            assert(self@[k] == prev[k]);
                        }
                    }
                    if r is Err {
                        assert(self@[i as int] =~= prev[i as int]);
                        assert(self@ =~= prev);
                    }
                }
                r
            },
            None => {
                Err(CoordinatorError::ConsumerGroupNotFound)
            },
        }
    }

    /// Looks up the member that currently owns a partition within a group:
    /// the answer of the current assignment, `ConsumerGroupNotFound` or
    /// `PartitionNotFound` as appropriate.
    pub fn owner_of(&self, group_id: u32, partition_id: u32) -> (r: Result<u32, CoordinatorError>)
        requires
            self.wf(),
        ensures
            match r {
                Ok(member) => self.spec_group(group_id) is Some && spec_assigned_member(
                    self.spec_group(group_id).unwrap().assignment,
                    partition_id,
                ) == Some(member),
                Err(e) => if self.spec_group(group_id) is None {
                    e == CoordinatorError::ConsumerGroupNotFound
                } else {
                    e == CoordinatorError::PartitionNotFound && spec_assigned_member(
                        self.spec_group(group_id).unwrap().assignment,
                        partition_id,
                    ) is None
                },
            },
    {
        match self.get_group(group_id) {
            Some(g) => g.assigned_member(partition_id),
            None => Err(CoordinatorError::ConsumerGroupNotFound),
        }
    }

    /// Destroys a group explicitly; fails with `ConsumerGroupNotFound` if no
    /// group has the id. Every other group is untouched.
    pub fn delete_group(&mut self, group_id: u32) -> (r: Result<(), CoordinatorError>)
        requires
            old(self).wf(),
        ensures
            final(self).wf(),
            r is Ok <==> old(self).spec_group(group_id) is Some,
            r is Err ==> final(self)@ =~= old(self)@ && r == Err::<(), CoordinatorError>(
                CoordinatorError::ConsumerGroupNotFound,
            ),
            final(self).spec_group(group_id) is None,
            forall|id: u32|
                id != group_id ==> #[trigger] final(self).spec_group(id) == old(self).spec_group(
                    id,
                ),
    {
        let ghost prev = self@;
        match self.find_group_index(group_id) {
            Some(i) => {
                self.groups.remove(i);
                proof {
                    assert(self@ =~= prev.remove(i as int));
                    assert forall|id: u32| #[trigger]
                        spec_find_group(self@, id) == (if id == group_id {
                            None::<GroupView>
                        } else {
                            spec_find_group(prev, id)
                        }) by {
                        lemma_find_remove(prev, i as int, id);
                    }
                    lemma_find_remove(prev, i as int, group_id);
                    assert forall|k: int| 0 <= k < self@.len() implies group_wf(
                        #[trigger] self@[k],
                    ) by {
                        if k < i as int {
                            assert(self@[k] == prev[k]);
                        } else {
                            assert(self@[k] == prev[k + 1]);
                        }
                    }
                }
                Ok(())
            },
            None => {
                Err(CoordinatorError::ConsumerGroupNotFound)
            },
        }
    }
}

} // verus!
