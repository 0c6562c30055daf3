use polling_engine::dispatcher::PollDispatcher;
use polling_engine::dispatcher::PollPolicy;
use polling_engine::dispatcher::PollTarget;
use polling_engine::errors::CoordinatorError;
use polling_engine::identifier::Identifier;

fn consumer_target(consumer_id: u32, partition_id: u32) -> PollTarget {
    PollTarget::Consumer {
        consumer_id: Identifier::numeric(consumer_id).unwrap(),
        partition_id,
    }
}

fn member_target(group_id: u32, member_id: u32, partition_id: Option<u32>) -> PollTarget {
    PollTarget::GroupMember {
        group_id,
        member_id,
        partition_id,
    }
}

fn fill(dispatcher: &mut PollDispatcher, partition_id: u32, payloads: &[&[u8]]) {
    for payload in payloads {
        dispatcher.append(partition_id, payload.to_vec()).unwrap();
    }
}

#[test]
fn a_consumer_with_no_prior_commit_polling_next_starts_at_offset_zero() {
    let mut dispatcher = PollDispatcher::new(2);
    fill(&mut dispatcher, 1, &[b"alpha", b"beta", b"gamma"]);
    let result = dispatcher
        .poll(&consumer_target(10, 1), 10, PollPolicy::Next, false)
        .unwrap();
    assert_eq!(result.messages.len(), 3);
    assert_eq!(result.messages[0].offset, 0);
    assert_eq!(result.messages[0].payload, b"alpha");
    assert_eq!(result.last_offset, 2);
}

#[test]
fn a_consumer_never_receives_messages_from_another_partition() {
    let mut dispatcher = PollDispatcher::new(2);
    fill(&mut dispatcher, 1, &[b"one-a", b"one-b"]);
    fill(&mut dispatcher, 2, &[b"two-a", b"two-b", b"two-c"]);
    let result = dispatcher
        .poll(&consumer_target(10, 1), 10, PollPolicy::Next, false)
        .unwrap();
    assert_eq!(result.messages.len(), 2);
    for message in &result.messages {
        assert!(message.payload.starts_with(b"one-"));
    }
}

#[test]
fn auto_commit_advances_the_cursor_for_the_next_poll() {
    let mut dispatcher = PollDispatcher::new(1);
    fill(&mut dispatcher, 1, &[b"a", b"b", b"c"]);
    let first = dispatcher
        .poll(&consumer_target(10, 1), 2, PollPolicy::Next, true)
        .unwrap();
    assert_eq!(first.messages.len(), 2);
    assert_eq!(first.last_offset, 1);
    let second = dispatcher
        .poll(&consumer_target(10, 1), 2, PollPolicy::Next, true)
        .unwrap();
    assert_eq!(second.messages.len(), 1);
    assert_eq!(second.messages[0].offset, 2);
    let third = dispatcher
        .poll(&consumer_target(10, 1), 2, PollPolicy::Next, true)
        .unwrap();
    assert_eq!(third.messages.len(), 0);
    assert_eq!(third.last_offset, 3);
}

#[test]
fn commits_beyond_the_tail_are_out_of_range() {
    let mut dispatcher = PollDispatcher::new(1);
    fill(&mut dispatcher, 1, &[b"a", b"b"]);
    assert_eq!(
        dispatcher.commit_offset(10, 1, 3).unwrap_err(),
        CoordinatorError::OffsetOutOfRange
    );
    dispatcher.commit_offset(10, 1, 2).unwrap();
}

#[test]
fn commits_never_move_backwards() {
    let mut dispatcher = PollDispatcher::new(1);
    fill(&mut dispatcher, 1, &[b"a", b"b", b"c", b"d", b"e"]);
    dispatcher.commit_offset(10, 1, 4).unwrap();
    assert_eq!(
        dispatcher.commit_offset(10, 1, 3).unwrap_err(),
        CoordinatorError::OffsetOutOfRange
    );
    dispatcher.commit_offset(10, 1, 4).unwrap();
    dispatcher.commit_offset(10, 1, 5).unwrap();
    let result = dispatcher
        .poll(&consumer_target(10, 1), 10, PollPolicy::Next, false)
        .unwrap();
    assert_eq!(result.messages.len(), 0);
}

#[test]
fn commits_on_a_missing_partition_are_rejected() {
    let mut dispatcher = PollDispatcher::new(1);
    assert_eq!(
        dispatcher.commit_offset(10, 2, 0).unwrap_err(),
        CoordinatorError::PartitionNotFound
    );
}

#[test]
fn unrelated_offset_keys_commit_independently() {
    let mut dispatcher = PollDispatcher::new(2);
    fill(&mut dispatcher, 1, &[b"a", b"b"]);
    fill(&mut dispatcher, 2, &[b"c", b"d"]);
    dispatcher.commit_offset(10, 1, 2).unwrap();
    dispatcher.commit_offset(10, 2, 1).unwrap();
    dispatcher.commit_offset(11, 1, 1).unwrap();
    let same_key_other_partition = dispatcher
        .poll(&consumer_target(10, 2), 10, PollPolicy::Next, false)
        .unwrap();
    assert_eq!(same_key_other_partition.messages.len(), 1);
    let other_key = dispatcher
        .poll(&consumer_target(11, 1), 10, PollPolicy::Next, false)
        .unwrap();
    assert_eq!(other_key.messages.len(), 1);
}

#[test]
fn polling_a_missing_partition_is_rejected() {
    let mut dispatcher = PollDispatcher::new(2);
    assert_eq!(
        dispatcher
            .poll(&consumer_target(10, 3), 1, PollPolicy::Next, false)
            .unwrap_err(),
        CoordinatorError::PartitionNotFound
    );
    assert_eq!(
        dispatcher
            .poll(&consumer_target(10, 0), 1, PollPolicy::Next, false)
            .unwrap_err(),
        CoordinatorError::PartitionNotFound
    );
}

#[test]
fn a_member_polling_a_partition_it_does_not_own_is_rejected() {
    let mut dispatcher = PollDispatcher::new(2);
    fill(&mut dispatcher, 1, &[b"a"]);
    fill(&mut dispatcher, 2, &[b"b"]);
    dispatcher.join_group(1, 1);
    dispatcher.join_group(1, 2);
    let owned = dispatcher
        .poll(&member_target(1, 1, Some(1)), 10, PollPolicy::Next, false)
        .unwrap();
    assert_eq!(owned.messages.len(), 1);
    assert_eq!(
        dispatcher
            .poll(&member_target(1, 1, Some(2)), 10, PollPolicy::Next, false)
            .unwrap_err(),
        CoordinatorError::PartitionNotOwnedByMember
    );
}

#[test]
fn group_poll_errors_name_what_is_missing() {
    let mut dispatcher = PollDispatcher::new(2);
    assert_eq!(
        dispatcher
            .poll(&member_target(1, 1, None), 1, PollPolicy::Next, false)
            .unwrap_err(),
        CoordinatorError::ConsumerGroupNotFound
    );
    dispatcher.join_group(1, 1);
    assert_eq!(
        dispatcher
            .poll(&member_target(1, 2, None), 1, PollPolicy::Next, false)
            .unwrap_err(),
        CoordinatorError::MemberNotInGroup
    );
    assert_eq!(
        dispatcher
            .poll(&member_target(1, 1, Some(9)), 1, PollPolicy::Next, false)
            .unwrap_err(),
        CoordinatorError::PartitionNotFound
    );
}

#[test]
fn a_member_without_a_named_partition_reads_its_first_owned_one() {
    let mut dispatcher = PollDispatcher::new(2);
    fill(&mut dispatcher, 1, &[b"first"]);
    fill(&mut dispatcher, 2, &[b"second"]);
    dispatcher.join_group(1, 4);
    dispatcher.join_group(1, 6);
    let result = dispatcher
        .poll(&member_target(1, 6, None), 10, PollPolicy::Next, false)
        .unwrap();
    assert_eq!(result.messages.len(), 1);
    assert_eq!(result.messages[0].payload, b"second");
}

#[test]
fn an_idle_member_of_a_full_group_has_no_partition_to_read() {
    let mut dispatcher = PollDispatcher::new(2);
    dispatcher.join_group(1, 1);
    dispatcher.join_group(1, 2);
    dispatcher.join_group(1, 3);
    assert_eq!(
        dispatcher
            .poll(&member_target(1, 3, None), 1, PollPolicy::Next, false)
            .unwrap_err(),
        CoordinatorError::PartitionNotFound
    );
}

#[test]
fn group_members_share_the_group_read_progress() {
    let mut dispatcher = PollDispatcher::new(1);
    fill(&mut dispatcher, 1, &[b"a", b"b"]);
    dispatcher.join_group(1, 1);
    let first = dispatcher
        .poll(&member_target(1, 1, None), 1, PollPolicy::Next, true)
        .unwrap();
    assert_eq!(first.messages.len(), 1);
    dispatcher.leave_group(1, 1).unwrap();
    dispatcher.join_group(1, 2);
    let second = dispatcher
        .poll(&member_target(1, 2, None), 1, PollPolicy::Next, true)
        .unwrap();
    assert_eq!(second.messages.len(), 1);
    assert_eq!(second.messages[0].offset, 1);
}

#[test]
fn the_first_policy_rereads_from_the_log_start() {
    let mut dispatcher = PollDispatcher::new(1);
    fill(&mut dispatcher, 1, &[b"a", b"b"]);
    dispatcher.commit_offset(10, 1, 2).unwrap();
    let result = dispatcher
        .poll(&consumer_target(10, 1), 10, PollPolicy::First, false)
        .unwrap();
    assert_eq!(result.messages.len(), 2);
    assert_eq!(result.messages[0].offset, 0);
}

#[test]
fn the_last_policy_sees_only_messages_appended_afterwards() {
    let mut dispatcher = PollDispatcher::new(1);
    fill(&mut dispatcher, 1, &[b"a", b"b", b"c"]);
    let at_tail = dispatcher
        .poll(&consumer_target(10, 1), 10, PollPolicy::Last, true)
        .unwrap();
    assert_eq!(at_tail.messages.len(), 0);
    assert_eq!(at_tail.last_offset, 3);
    dispatcher.commit_offset(10, 1, 3).unwrap();
    fill(&mut dispatcher, 1, &[b"d"]);
    let still_at_tail = dispatcher
        .poll(&consumer_target(10, 1), 10, PollPolicy::Last, false)
        .unwrap();
    assert_eq!(still_at_tail.messages.len(), 0);
    assert_eq!(still_at_tail.last_offset, 4);
    let next = dispatcher
        .poll(&consumer_target(10, 1), 10, PollPolicy::Next, false)
        .unwrap();
    assert_eq!(next.messages.len(), 1);
    assert_eq!(next.messages[0].payload, b"d");
}

#[test]
fn an_explicit_offset_is_used_directly_and_range_checked() {
    let mut dispatcher = PollDispatcher::new(1);
    fill(&mut dispatcher, 1, &[b"a", b"b", b"c"]);
    let result = dispatcher
        .poll(&consumer_target(10, 1), 10, PollPolicy::Offset(1), false)
        .unwrap();
    assert_eq!(result.messages.len(), 2);
    assert_eq!(result.messages[0].offset, 1);
    assert_eq!(
        dispatcher
            .poll(&consumer_target(10, 1), 10, PollPolicy::Offset(4), false)
            .unwrap_err(),
        CoordinatorError::OffsetOutOfRange
    );
}

#[test]
fn polling_an_empty_partition_returns_no_messages_and_no_error() {
    let mut dispatcher = PollDispatcher::new(1);
    let result = dispatcher
        .poll(&consumer_target(10, 1), 5, PollPolicy::Next, true)
        .unwrap();
    assert_eq!(result.messages.len(), 0);
    assert_eq!(result.last_offset, 0);
}

#[test]
fn reads_return_fewer_messages_than_asked_when_the_log_is_short() {
    let mut dispatcher = PollDispatcher::new(1);
    fill(&mut dispatcher, 1, &[b"a", b"b"]);
    let result = dispatcher
        .poll(&consumer_target(10, 1), 100, PollPolicy::Next, false)
        .unwrap();
    assert_eq!(result.messages.len(), 2);
}

#[test]
fn appends_hand_out_consecutive_offsets_per_partition() {
    let mut dispatcher = PollDispatcher::new(2);
    assert_eq!(dispatcher.append(1, b"a".to_vec()).unwrap(), 0);
    assert_eq!(dispatcher.append(1, b"b".to_vec()).unwrap(), 1);
    assert_eq!(dispatcher.append(2, b"c".to_vec()).unwrap(), 0);
    assert_eq!(dispatcher.highest_offset(1).unwrap(), 2);
    assert_eq!(dispatcher.highest_offset(2).unwrap(), 1);
    assert_eq!(
        dispatcher.append(3, b"d".to_vec()).unwrap_err(),
        CoordinatorError::PartitionNotFound
    );
    assert_eq!(
        dispatcher.highest_offset(0).unwrap_err(),
        CoordinatorError::PartitionNotFound
    );
}

#[test]
fn the_engine_reports_its_partition_count_and_stable_member_ids() {
    let mut dispatcher = PollDispatcher::new(4);
    assert_eq!(dispatcher.partition_count(), 4);
    assert_eq!(dispatcher.join_group(1, 77), 77);
    assert_eq!(dispatcher.join_group(1, 77), 77);
}

#[test]
fn a_named_consumer_keeps_its_own_cursor() {
    let mut dispatcher = PollDispatcher::new(1);
    fill(&mut dispatcher, 1, &[b"a", b"b"]);
    let named = PollTarget::Consumer {
        consumer_id: Identifier::named("reader").unwrap(),
        partition_id: 1,
    };
    let first = dispatcher.poll(&named, 1, PollPolicy::Next, true).unwrap();
    assert_eq!(first.messages[0].offset, 0);
    let second = dispatcher.poll(&named, 1, PollPolicy::Next, true).unwrap();
    assert_eq!(second.messages[0].offset, 1);
}
