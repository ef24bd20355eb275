use iggy::command::{Command, CreateStream, Partitioning, SendMessages, UserStatus};
use iggy::error::{IggyError, ResourceKind};
use iggy::identifier::Identifier;
use iggy::message::Message;
use iggy::partition::{Consumer, Partition, PartitionConfig, PollStrategy};
use iggy::system::System;

fn msg(payload: &[u8]) -> Message {
    Message::new(0, Vec::new(), payload.to_vec()).unwrap()
}

fn fresh_partition() -> Partition {
    Partition::new(1, 1, 1, PartitionConfig::default(), 0)
}

#[test]
fn poll_at_offset_zero_of_an_empty_partition_returns_empty_not_an_error() {
    let mut p = fresh_partition();
    let out = p.poll(Consumer::Single(1), PollStrategy::Offset(0), 10, false);
    assert!(out.is_empty());
}

#[test]
fn poll_next_without_a_stored_offset_starts_at_zero() {
    let mut p = fresh_partition();
    p.append(vec![msg(b"a"), msg(b"b")], 10).unwrap();
    let out = p.poll(Consumer::Single(42), PollStrategy::Next, 10, false);
    assert_eq!(out.len(), 2);
    assert_eq!(out[0].offset, 0);
    assert_eq!(out[0].payload, b"a".to_vec());
}

#[test]
fn consumer_offset_auto_commit_resumes_after_the_last_returned_offset() {
    let mut p = fresh_partition();
    p.append(vec![msg(b"a"), msg(b"b"), msg(b"c"), msg(b"d")], 10)
        .unwrap();
    let first = p.poll(Consumer::Single(42), PollStrategy::First, 2, true);
    assert_eq!(first.len(), 2);
    assert_eq!(first[1].offset, 1);
    let next = p.poll(Consumer::Single(42), PollStrategy::Next, 10, true);
    assert_eq!(next.len(), 2);
    assert_eq!(next[0].offset, 2);
    assert_eq!(next[0].payload, b"c".to_vec());
}

#[test]
fn one_byte_and_largest_payloads_round_trip() {
    let mut p = fresh_partition();
    let tiny = msg(&[0xAB]);
    let big = msg(&vec![0x5A; 1048532]);
    p.append(vec![tiny, big], 7).unwrap();
    let out = p.poll(Consumer::Single(1), PollStrategy::First, 10, false);
    assert_eq!(out.len(), 2);
    assert_eq!(out[0].payload, vec![0xAB]);
    assert_eq!(out[1].payload.len(), 1048532);
    assert!(out[1].payload.iter().all(|b| *b == 0x5A));
    assert_eq!(out[0].offset, 0);
    assert_eq!(out[1].offset, 1);
}

#[test]
fn oversized_payload_is_refused_and_nothing_is_appended() {
    let mut p = fresh_partition();
    let too_big = Message::new(0, Vec::new(), vec![0u8; 1048533]);
    assert_eq!(too_big.unwrap_err(), IggyError::TooLargePayload);
    assert_eq!(p.messages_count, 0);
}

#[test]
fn offsets_are_contiguous_from_zero() {
    let mut p = fresh_partition();
    for i in 0..50u8 {
        p.append(vec![msg(&[i])], i as u64).unwrap();
    }
    let out = p.poll(Consumer::Single(1), PollStrategy::First, 100, false);
    assert_eq!(out.len(), 50);
    for (k, m) in out.iter().enumerate() {
        assert_eq!(m.offset, k as u64);
    }
    assert_eq!(p.current_offset, 49);
}

#[test]
fn segment_rollover_at_the_byte_threshold_keeps_contiguous_segments() {
    let config = PartitionConfig::new(4096, 10_000_000, 0);
    let mut p = Partition::new(1, 1, 1, config, 0);
    for i in 0..200u32 {
        let payload = vec![(i % 250) as u8; 64];
        p.append(vec![Message::new(0, Vec::new(), payload).unwrap()], 5)
            .unwrap();
    }
    assert!(p.segments.len() >= 2);
    assert_eq!(p.segments[0].start_offset, 0);
    for w in p.segments.windows(2) {
        assert_eq!(w[1].start_offset, w[0].end_offset + 1);
        assert!(w[0].is_closed);
        assert!(w[0].size_bytes >= 4096 || w[0].index.len() as u64 >= 10_000_000);
    }
    assert!(!p.segments.last().unwrap().is_closed);
    assert!(p.segments.last().unwrap().size_bytes < 4096);
    let out = p.poll(Consumer::Single(1), PollStrategy::Offset(0), 200, false);
    assert_eq!(out.len(), 200);
    for (k, m) in out.iter().enumerate() {
        assert_eq!(m.offset, k as u64);
        assert_eq!(m.payload[0], (k % 250) as u8);
    }
}

#[test]
fn segment_rollover_at_the_message_count_threshold() {
    let config = PartitionConfig::new(u32::MAX as u64 - 1114112, 10, 0);
    let mut p = Partition::new(1, 1, 1, config, 0);
    for i in 0..25u8 {
        p.append(vec![msg(&[i])], 1).unwrap();
    }
    assert_eq!(p.segments.len(), 3);
    assert_eq!(p.segments[0].index.len(), 10);
    assert_eq!(p.segments[1].index.len(), 10);
    assert_eq!(p.segments[2].index.len(), 5);
}

#[test]
fn crash_recovery_truncates_the_torn_final_frame() {
    let mut p = fresh_partition();
    for i in 0..100u8 {
        p.append(vec![msg(&vec![i; 10])], 3).unwrap();
    }
    // a frame of a 10-byte payload with no headers costs 44 + 10 bytes
    let frame_len = 54u64;
    assert_eq!(p.segments.len(), 1);
    let full_log = p.segments[0].log.clone();
    assert_eq!(full_log.len() as u64, 100 * frame_len);
    let mut torn = full_log;
    let keep = torn.len() - 17;
    torn.truncate(keep);
    let recovered =
        Partition::recover(1, 1, 1, PartitionConfig::default(), 0, torn).unwrap();
    assert_eq!(recovered.messages_count, 99);
    assert_eq!(recovered.current_offset, 98);
    // the kept log ends exactly at the last complete frame
    assert_eq!(recovered.size_bytes, 99 * frame_len);
    let mut r = recovered;
    let out = r.poll(Consumer::Single(1), PollStrategy::Last, 1, false);
    assert_eq!(out[0].payload, vec![98u8; 10]);
}

#[test]
fn recovery_of_an_intact_log_keeps_everything() {
    let mut p = fresh_partition();
    let mut headers = Vec::new();
    headers.push(iggy::header::Header {
        key: iggy::header::HeaderKey::new("k").unwrap(),
        value: iggy::header::HeaderValue::of_bool(true),
    });
    p.append(
        vec![Message::new(9, headers, b"payload".to_vec()).unwrap()],
        123,
    )
    .unwrap();
    let log = p.segments[0].log.clone();
    let recovered =
        Partition::recover(1, 1, 1, PartitionConfig::default(), 0, log).unwrap();
    assert_eq!(recovered.messages_count, 1);
    assert_eq!(recovered.messages[0].id, 9);
    assert_eq!(recovered.messages[0].timestamp, 123);
    assert_eq!(recovered.messages[0].payload, b"payload".to_vec());
    assert_eq!(recovered.messages[0].headers.len(), 1);
    assert_eq!(recovered.messages[0].headers[0].key.bytes, b"k".to_vec());
}

#[test]
fn store_consumer_offset_accepts_held_offsets_and_rejects_beyond() {
    let mut p = fresh_partition();
    assert_eq!(
        p.store_consumer_offset(Consumer::Single(1), 0).unwrap_err(),
        IggyError::OffsetOutOfRange
    );
    p.append(vec![msg(b"a"), msg(b"b")], 1).unwrap();
    p.store_consumer_offset(Consumer::Single(1), 1).unwrap();
    // rewinding is allowed
    p.store_consumer_offset(Consumer::Single(1), 0).unwrap();
    assert_eq!(
        p.store_consumer_offset(Consumer::Single(1), 2).unwrap_err(),
        IggyError::OffsetOutOfRange
    );
}

#[test]
fn purge_empties_the_partition() {
    let mut p = fresh_partition();
    p.append(vec![msg(b"a")], 1).unwrap();
    p.purge();
    assert_eq!(p.messages_count, 0);
    assert_eq!(p.size_bytes, 0);
    assert_eq!(p.segments.len(), 1);
    let out = p.poll(Consumer::Single(1), PollStrategy::First, 10, false);
    assert!(out.is_empty());
}

fn logged_in_system() -> System {
    let mut sys = System::new(PartitionConfig::default(), 0);
    sys.add_client(1);
    sys.login_user(1, &b"iggy".to_vec(), &b"iggy".to_vec())
        .unwrap();
    sys
}

#[test]
fn auth_gate_refuses_get_streams_until_login() {
    let mut sys = System::new(PartitionConfig::default(), 0);
    sys.add_client(1);
    let (status, _) = sys.handle_command(1, Command::GetStreams, 0);
    assert_eq!(status, IggyError::Unauthenticated.as_code());
    let (status, payload) = sys.handle_command(
        1,
        Command::LoginUser {
            username: b"iggy".to_vec(),
            password: b"iggy".to_vec(),
        },
        0,
    );
    assert_eq!(status, 0);
    assert_eq!(payload, 1u32.to_le_bytes().to_vec());
    let (status, payload) = sys.handle_command(1, Command::GetStreams, 0);
    assert_eq!(status, 0);
    // an empty list still carries its zero count
    assert_eq!(payload, 0u32.to_le_bytes().to_vec());
}

#[test]
fn wrong_password_is_refused() {
    let mut sys = System::new(PartitionConfig::default(), 0);
    sys.add_client(1);
    assert_eq!(
        sys.login_user(1, &b"iggy".to_vec(), &b"wrong".to_vec())
            .unwrap_err(),
        IggyError::InvalidCredentials
    );
}

#[test]
fn create_and_send_balanced_lands_every_third_message_in_partition_one() {
    let mut sys = logged_in_system();
    sys.create_stream(1, b"s".to_vec(), 0).unwrap();
    let sid = Identifier::numeric(1).unwrap();
    sys.create_topic(&sid, 1, 3, b"t".to_vec(), 0).unwrap();
    let tid = Identifier::numeric(1).unwrap();
    for i in 1..=10u32 {
        let payload = format!("m{}", i).into_bytes();
        sys.send_messages(
            &sid,
            &tid,
            &Partitioning::Balanced,
            vec![Message::new(0, Vec::new(), payload).unwrap()],
            0,
        )
        .unwrap();
    }
    let out = sys
        .poll_messages(
            &sid,
            &tid,
            1,
            Consumer::Single(1),
            PollStrategy::First,
            10,
            false,
        )
        .unwrap();
    let payloads: Vec<Vec<u8>> = out.iter().map(|m| m.payload.clone()).collect();
    assert_eq!(
        payloads,
        vec![
            b"m1".to_vec(),
            b"m4".to_vec(),
            b"m7".to_vec(),
            b"m10".to_vec()
        ]
    );
}

#[test]
fn key_hashed_routing_sends_equal_keys_to_the_same_partition() {
    let mut sys = logged_in_system();
    sys.create_stream(1, b"s".to_vec(), 0).unwrap();
    let sid = Identifier::numeric(1).unwrap();
    sys.create_topic(&sid, 1, 3, b"t".to_vec(), 0).unwrap();
    let tid = Identifier::numeric(1).unwrap();
    let part = Partitioning::messages_key(vec![0x01]).unwrap();
    let first = sys
        .send_messages(&sid, &tid, &part, vec![msg(b"a")], 0)
        .unwrap();
    let part = Partitioning::messages_key(vec![0x01]).unwrap();
    let second = sys
        .send_messages(&sid, &tid, &part, vec![msg(b"b")], 0)
        .unwrap();
    assert_eq!(first, second);
    let expected = (iggy::encoding::fnv1a64(&[0x01]) % 3) as u32 + 1;
    assert_eq!(first, expected);
}

#[test]
fn duplicate_create_fails_with_already_exists() {
    let mut sys = logged_in_system();
    sys.create_stream(1, b"s".to_vec(), 0).unwrap();
    assert_eq!(
        sys.create_stream(1, b"other".to_vec(), 0).unwrap_err(),
        IggyError::ResourceAlreadyExists(ResourceKind::Stream)
    );
    assert_eq!(
        sys.create_stream(2, b"s".to_vec(), 0).unwrap_err(),
        IggyError::ResourceAlreadyExists(ResourceKind::Stream)
    );
    let sid = Identifier::numeric(1).unwrap();
    sys.create_topic(&sid, 1, 1, b"t".to_vec(), 0).unwrap();
    assert_eq!(
        sys.create_topic(&sid, 1, 1, b"u".to_vec(), 0).unwrap_err(),
        IggyError::ResourceAlreadyExists(ResourceKind::Topic)
    );
    assert_eq!(
        sys.create_topic(&sid, 2, 1, b"t".to_vec(), 0).unwrap_err(),
        IggyError::ResourceAlreadyExists(ResourceKind::Topic)
    );
}

#[test]
fn deleting_a_missing_resource_reports_not_found_twice() {
    let mut sys = logged_in_system();
    let ghost_id = Identifier::numeric(9).unwrap();
    assert_eq!(
        sys.delete_stream(&ghost_id).unwrap_err(),
        IggyError::ResourceNotFound(ResourceKind::Stream)
    );
    sys.create_stream(9, b"gone".to_vec(), 0).unwrap();
    sys.delete_stream(&ghost_id).unwrap();
    assert_eq!(
        sys.delete_stream(&ghost_id).unwrap_err(),
        IggyError::ResourceNotFound(ResourceKind::Stream)
    );
    assert_eq!(
        sys.delete_stream(&ghost_id).unwrap_err(),
        IggyError::ResourceNotFound(ResourceKind::Stream)
    );
}

#[test]
fn streams_can_be_found_by_name_as_well_as_id() {
    let mut sys = logged_in_system();
    sys.create_stream(5, b"orders".to_vec(), 0).unwrap();
    let by_name = Identifier::named("orders").unwrap();
    sys.create_topic(&by_name, 1, 1, b"t".to_vec(), 0).unwrap();
    let by_id = Identifier::numeric(5).unwrap();
    assert_eq!(
        sys.create_topic(&by_id, 1, 1, b"t2".to_vec(), 0).unwrap_err(),
        IggyError::ResourceAlreadyExists(ResourceKind::Topic)
    );
}

#[test]
fn consumer_groups_assign_partitions_round_robin_over_sorted_members() {
    let mut sys = logged_in_system();
    sys.create_stream(1, b"s".to_vec(), 0).unwrap();
    let sid = Identifier::numeric(1).unwrap();
    sys.create_topic(&sid, 1, 3, b"t".to_vec(), 0).unwrap();
    let tid = Identifier::numeric(1).unwrap();
    sys.create_consumer_group(&sid, &tid, 10, b"g".to_vec())
        .unwrap();
    assert_eq!(
        sys.create_consumer_group(&sid, &tid, 10, b"g2".to_vec())
            .unwrap_err(),
        IggyError::ResourceAlreadyExists(ResourceKind::ConsumerGroup)
    );
    sys.join_consumer_group(&sid, &tid, 10, 7).unwrap();
    sys.join_consumer_group(&sid, &tid, 10, 3).unwrap();
    let group = &sys.streams[0].topics[0].groups[0];
    // members sorted: [3, 7]; partition 1 -> 3, partition 2 -> 7, partition 3 -> 3
    assert_eq!(group.assigned_member(1), Some(3));
    assert_eq!(group.assigned_member(2), Some(7));
    assert_eq!(group.assigned_member(3), Some(3));
    sys.leave_consumer_group(&sid, &tid, 10, 3).unwrap();
    let group = &sys.streams[0].topics[0].groups[0];
    assert_eq!(group.assigned_member(1), Some(7));
    sys.delete_consumer_group(&sid, &tid, 10).unwrap();
    assert_eq!(
        sys.delete_consumer_group(&sid, &tid, 10).unwrap_err(),
        IggyError::ResourceNotFound(ResourceKind::ConsumerGroup)
    );
}

#[test]
fn users_are_created_changed_and_deleted() {
    let mut sys = logged_in_system();
    let id = sys
        .create_user(b"alice".to_vec(), &b"secret".to_vec(), UserStatus::Active, 0)
        .unwrap();
    assert_eq!(id, 2);
    let uid = Identifier::numeric(id).unwrap();
    assert_eq!(
        sys.change_password(&uid, &b"wrong".to_vec(), &b"next".to_vec())
            .unwrap_err(),
        IggyError::InvalidCredentials
    );
    sys.change_password(&uid, &b"secret".to_vec(), &b"next".to_vec())
        .unwrap();
    sys.add_client(2);
    sys.login_user(2, &b"alice".to_vec(), &b"next".to_vec())
        .unwrap();
    sys.delete_user(&uid).unwrap();
    assert_eq!(
        sys.delete_user(&uid).unwrap_err(),
        IggyError::ResourceNotFound(ResourceKind::User)
    );
    let root = Identifier::numeric(1).unwrap();
    assert_eq!(sys.delete_user(&root).unwrap_err(), IggyError::Unauthorized);
}

#[test]
fn poll_by_timestamp_returns_the_first_message_at_or_after() {
    let mut p = fresh_partition();
    p.append(vec![msg(b"a")], 100).unwrap();
    p.append(vec![msg(b"b")], 200).unwrap();
    p.append(vec![msg(b"c")], 300).unwrap();
    let out = p.poll(Consumer::Single(1), PollStrategy::Timestamp(150), 10, false);
    assert_eq!(out.len(), 2);
    assert_eq!(out[0].payload, b"b".to_vec());
}
