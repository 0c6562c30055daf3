use polling_engine::coordinator::ConsumerGroupCoordinator;
use polling_engine::errors::CoordinatorError;

fn partition_set(count: u32) -> Vec<u32> {
    let mut partitions = Vec::new();
    let mut id = 1;
    while id <= count {
        partitions.push(id);
        id += 1;
    }
    partitions
}

fn owned_partitions(coordinator: &ConsumerGroupCoordinator, group_id: u32, member_id: u32) -> Vec<u32> {
    let group = coordinator.get_group(group_id).unwrap();
    let mut owned = Vec::new();
    for entry in group.current_assignment() {
        if entry.1 == member_id {
            owned.push(entry.0);
        }
    }
    owned
}

#[test]
fn three_members_over_six_partitions_own_two_each() {
    let partitions = partition_set(6);
    let mut coordinator = ConsumerGroupCoordinator::new();
    for client in [1, 2, 3] {
        let member = coordinator.join(7, client, &partitions);
        assert_eq!(member, client);
    }
    let mut covered = Vec::new();
    for member in [1, 2, 3] {
        let owned = owned_partitions(&coordinator, 7, member);
        assert_eq!(owned.len(), 2);
        covered.extend(owned);
    }
    covered.sort();
    assert_eq!(covered, vec![1, 2, 3, 4, 5, 6]);
}

#[test]
fn a_leave_rebalances_to_three_partitions_each_and_a_rejoin_restores_the_even_split() {
    let partitions = partition_set(6);
    let mut coordinator = ConsumerGroupCoordinator::new();
    for client in [1, 2, 3] {
        coordinator.join(7, client, &partitions);
    }

    coordinator.leave(7, 2).unwrap();
    let mut covered = Vec::new();
    for member in [1, 3] {
        let owned = owned_partitions(&coordinator, 7, member);
        assert_eq!(owned.len(), 3);
        covered.extend(owned);
    }
    covered.sort();
    assert_eq!(covered, vec![1, 2, 3, 4, 5, 6]);
    assert_eq!(owned_partitions(&coordinator, 7, 2).len(), 0);

    coordinator.join(7, 4, &partitions);
    let mut covered = Vec::new();
    for member in [1, 3, 4] {
        let owned = owned_partitions(&coordinator, 7, member);
        assert_eq!(owned.len(), 2);
        covered.extend(owned);
    }
    covered.sort();
    assert_eq!(covered, vec![1, 2, 3, 4, 5, 6]);
}

#[test]
fn member_counts_differ_by_at_most_one_for_uneven_splits() {
    let partitions = partition_set(7);
    let mut coordinator = ConsumerGroupCoordinator::new();
    for client in [10, 20, 30] {
        coordinator.join(1, client, &partitions);
    }
    let counts: Vec<usize> = [10, 20, 30]
        .iter()
        .map(|m| owned_partitions(&coordinator, 1, *m).len())
        .collect();
    assert_eq!(counts.iter().sum::<usize>(), 7);
    let max = counts.iter().max().unwrap();
    let min = counts.iter().min().unwrap();
    assert!(max - min <= 1);
}

#[test]
fn more_members_than_partitions_leaves_some_members_idle() {
    let partitions = partition_set(2);
    let mut coordinator = ConsumerGroupCoordinator::new();
    for client in [1, 2, 3] {
        coordinator.join(5, client, &partitions);
    }
    let counts: Vec<usize> = [1, 2, 3]
        .iter()
        .map(|m| owned_partitions(&coordinator, 5, *m).len())
        .collect();
    assert_eq!(counts, vec![1, 1, 0]);
}

#[test]
fn rebalance_is_deterministic_in_the_sorted_member_order() {
    let partitions = partition_set(4);
    let mut first = ConsumerGroupCoordinator::new();
    first.join(1, 8, &partitions);
    first.join(1, 3, &partitions);
    let mut second = ConsumerGroupCoordinator::new();
    second.join(1, 3, &partitions);
    second.join(1, 8, &partitions);
    let a = first.get_group(1).unwrap().current_assignment().clone();
    let b = second.get_group(1).unwrap().current_assignment().clone();
    assert_eq!(a, b);
    assert_eq!(a, vec![(1, 3), (2, 3), (3, 8), (4, 8)]);
}

#[test]
fn owner_of_reports_the_assignment_and_its_errors() {
    let partitions = partition_set(2);
    let mut coordinator = ConsumerGroupCoordinator::new();
    assert_eq!(
        coordinator.owner_of(9, 1).unwrap_err(),
        CoordinatorError::ConsumerGroupNotFound
    );
    coordinator.join(9, 4, &partitions);
    coordinator.join(9, 6, &partitions);
    assert_eq!(coordinator.owner_of(9, 1).unwrap(), 4);
    assert_eq!(coordinator.owner_of(9, 2).unwrap(), 6);
    assert_eq!(
        coordinator.owner_of(9, 3).unwrap_err(),
        CoordinatorError::PartitionNotFound
    );
}

#[test]
fn an_empty_group_is_a_valid_state_and_owns_nothing() {
    let partitions = partition_set(3);
    let mut coordinator = ConsumerGroupCoordinator::new();
    coordinator.join(2, 1, &partitions);
    coordinator.leave(2, 1).unwrap();
    let group = coordinator.get_group(2).unwrap();
    assert_eq!(group.member_count(), 0);
    assert_eq!(
        coordinator.owner_of(2, 1).unwrap_err(),
        CoordinatorError::PartitionNotFound
    );
}

#[test]
fn leaving_twice_or_leaving_a_missing_group_fails() {
    let partitions = partition_set(3);
    let mut coordinator = ConsumerGroupCoordinator::new();
    assert_eq!(
        coordinator.leave(2, 1).unwrap_err(),
        CoordinatorError::ConsumerGroupNotFound
    );
    coordinator.join(2, 1, &partitions);
    coordinator.leave(2, 1).unwrap();
    assert_eq!(
        coordinator.leave(2, 1).unwrap_err(),
        CoordinatorError::MemberNotInGroup
    );
}

#[test]
fn joining_twice_is_idempotent_for_the_same_client() {
    let partitions = partition_set(4);
    let mut coordinator = ConsumerGroupCoordinator::new();
    coordinator.join(3, 5, &partitions);
    coordinator.join(3, 5, &partitions);
    let group = coordinator.get_group(3).unwrap();
    assert_eq!(group.member_count(), 1);
    assert_eq!(owned_partitions(&coordinator, 3, 5).len(), 4);
}

#[test]
fn groups_are_destroyed_only_explicitly() {
    let partitions = partition_set(2);
    let mut coordinator = ConsumerGroupCoordinator::new();
    coordinator.join(11, 1, &partitions);
    coordinator.leave(11, 1).unwrap();
    assert!(coordinator.get_group(11).is_some());
    coordinator.delete_group(11).unwrap();
    assert!(coordinator.get_group(11).is_none());
    assert_eq!(
        coordinator.delete_group(11).unwrap_err(),
        CoordinatorError::ConsumerGroupNotFound
    );
}

#[test]
fn operations_on_one_group_leave_other_groups_alone() {
    let partitions = partition_set(4);
    let mut coordinator = ConsumerGroupCoordinator::new();
    coordinator.join(1, 10, &partitions);
    coordinator.join(2, 20, &partitions);
    coordinator.join(2, 21, &partitions);
    let before = coordinator.get_group(1).unwrap().current_assignment().clone();
    coordinator.leave(2, 20).unwrap();
    coordinator.delete_group(2).unwrap();
    let after = coordinator.get_group(1).unwrap().current_assignment().clone();
    assert_eq!(before, after);
    assert_eq!(coordinator.get_group(1).unwrap().member_count(), 1);
}
