use polling_engine::errors::CoordinatorError;
use polling_engine::identifier::IdKind;
use polling_engine::identifier::Identifier;
use polling_engine::polling_consumer::PollingConsumer;
use polling_engine::text::u32_to_decimal;

#[test]
fn given_consumer_with_numeric_id_polling_consumer_should_be_created() {
    let consumer_id_value = 1;
    let partition_id = 3;
    let consumer_id = Identifier::numeric(consumer_id_value).unwrap();
    let polling_consumer = PollingConsumer::consumer(&consumer_id, partition_id);

    assert_eq!(
        polling_consumer,
        PollingConsumer::Consumer(consumer_id_value, partition_id)
    );
}

#[test]
fn given_consumer_with_named_id_polling_consumer_should_be_created() {
    let consumer_name = "consumer";
    let partition_id = 3;
    let consumer_id = Identifier::named(consumer_name).unwrap();

    let resolved_consumer_id = PollingConsumer::resolve_consumer_id(&consumer_id);
    let polling_consumer = PollingConsumer::consumer(&consumer_id, partition_id);

    assert_eq!(
        polling_consumer,
        PollingConsumer::Consumer(resolved_consumer_id, partition_id)
    );
}

#[test]
fn given_consumer_group_with_numeric_id_polling_consumer_group_should_be_created() {
    let group_id = 1;
    let client_id = 2;
    let polling_consumer = PollingConsumer::consumer_group(group_id, client_id);

    match polling_consumer {
        PollingConsumer::ConsumerGroup(consumer_group_id, member_id) => {
            assert_eq!(consumer_group_id, group_id);
            assert_eq!(member_id, client_id);
        }
        _ => panic!("Expected ConsumerGroup"),
    }
}

#[test]
fn given_distinct_named_ids_unique_polling_consumer_ids_should_be_created() {
    let name1 = Identifier::named("consumer1").unwrap();
    let name2 = Identifier::named("consumer2").unwrap();
    let id1 = PollingConsumer::resolve_consumer_id(&name1);
    let id2 = PollingConsumer::resolve_consumer_id(&name2);
    assert_ne!(id1, id2);
}

#[test]
fn resolving_the_same_name_twice_yields_the_same_key() {
    let first = Identifier::named("consumer").unwrap();
    let second = Identifier::named("consumer").unwrap();
    assert_eq!(
        PollingConsumer::resolve_consumer_id(&first),
        PollingConsumer::resolve_consumer_id(&second)
    );
}

#[test]
fn named_resolution_matches_the_published_fnv1a_vectors() {
    let a = Identifier::named("a").unwrap();
    assert_eq!(PollingConsumer::resolve_consumer_id(&a), 0xe40c_292c);
    let foobar = Identifier::named("foobar").unwrap();
    assert_eq!(PollingConsumer::resolve_consumer_id(&foobar), 0xbf9c_f968);
}

#[test]
fn numeric_resolution_returns_the_embedded_value() {
    let id = Identifier::numeric(42).unwrap();
    assert_eq!(PollingConsumer::resolve_consumer_id(&id), 42);
    assert_eq!(id.get_u32_value().unwrap(), 42);
}

#[test]
fn zero_numeric_identifier_is_invalid() {
    assert_eq!(
        Identifier::numeric(0).unwrap_err(),
        CoordinatorError::InvalidIdentifier
    );
}

#[test]
fn empty_and_oversized_names_are_invalid() {
    assert_eq!(
        Identifier::named("").unwrap_err(),
        CoordinatorError::InvalidIdentifier
    );
    let long_name = "x".repeat(256);
    assert_eq!(
        Identifier::named(&long_name).unwrap_err(),
        CoordinatorError::InvalidIdentifier
    );
    assert!(Identifier::named(&"x".repeat(255)).is_ok());
}

#[test]
fn numeric_payload_must_embed_exactly_four_bytes() {
    let r = Identifier::from_parts(IdKind::Numeric, vec![1, 2, 3]);
    assert_eq!(r.unwrap_err(), CoordinatorError::InvalidIdentifier);
    let r = Identifier::from_parts(IdKind::Numeric, vec![0, 0, 0, 0]);
    assert_eq!(r.unwrap_err(), CoordinatorError::InvalidIdentifier);
    let id = Identifier::from_parts(IdKind::Numeric, vec![7, 0, 0, 0]).unwrap();
    assert_eq!(id.get_u32_value().unwrap(), 7);
    assert_eq!(PollingConsumer::resolve_consumer_id(&id), 7);
}

#[test]
fn named_identifier_embeds_no_numeric_value() {
    let id = Identifier::named("consumer").unwrap();
    assert_eq!(
        id.get_u32_value().unwrap_err(),
        CoordinatorError::InvalidIdentifier
    );
}

#[test]
fn polling_consumers_render_their_ids() {
    let consumer = PollingConsumer::Consumer(1, 3);
    assert_eq!(consumer.describe(), "consumer ID: 1, partition ID: 3");
    let member = PollingConsumer::ConsumerGroup(10, 250);
    assert_eq!(member.describe(), "consumer group ID: 10, member ID: 250");
}

#[test]
fn decimal_rendering_is_exact() {
    assert_eq!(u32_to_decimal(0), "0");
    assert_eq!(u32_to_decimal(907), "907");
    assert_eq!(u32_to_decimal(u32::MAX), "4294967295");
}

#[test]
fn entity_keys_separate_consumers_from_groups() {
    let consumer = PollingConsumer::Consumer(5, 1);
    let group_member = PollingConsumer::ConsumerGroup(5, 9);
    assert_ne!(consumer.entity_key(), group_member.entity_key());
    assert_eq!(consumer.entity_key(), 5);
    let other_member = PollingConsumer::ConsumerGroup(5, 2);
    assert_eq!(group_member.entity_key(), other_member.entity_key());
}
