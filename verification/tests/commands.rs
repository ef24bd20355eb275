use iggy::command::{
    encode_response, parse_response_header, Command, CreateStream, GetTopics, LogoutUser,
    Partitioning, PollMessages, SendMessages,
};
use iggy::error::IggyError;
use iggy::identifier::Identifier;
use iggy::message::Message;
use iggy::partition::{Consumer, PollStrategy};

#[test]
fn should_be_serialized_as_bytes() {
    let command = GetTopics {
        stream_id: Identifier::numeric(1).unwrap(),
    };

    let bytes = command.as_bytes();
    let stream_id = Identifier::from_bytes(&bytes).unwrap();

    assert!(!bytes.is_empty());
    assert_eq!(stream_id, command.stream_id);
}

#[test]
fn should_be_deserialized_from_bytes() {
    let stream_id = Identifier::numeric(1).unwrap();
    let bytes = stream_id.as_bytes();
    let command = GetTopics::from_bytes(&bytes);
    assert!(command.is_ok());

    let command = command.unwrap();
    assert_eq!(command.stream_id, stream_id);
}

#[test]
fn should_be_serialized_as_empty_bytes() {
    let command = LogoutUser {};
    let bytes = command.as_bytes();
    assert!(bytes.is_empty());
}

#[test]
fn should_be_deserialized_from_empty_bytes() {
    let bytes: Vec<u8> = vec![];
    let command = LogoutUser::from_bytes(&bytes);
    assert!(command.is_ok());
}

#[test]
fn should_not_be_deserialized_from_empty_bytes() {
    let bytes: Vec<u8> = vec![0];
    let command = LogoutUser::from_bytes(&bytes);
    assert!(command.is_err());
}

fn round_trip(cmd: Command) -> Command {
    let frame = cmd.encode_request().unwrap();
    // the body is everything past the 4-byte length prefix
    Command::from_bytes(&frame[4..]).unwrap()
}

#[test]
fn create_stream_round_trips() {
    let cmd = Command::CreateStream(CreateStream {
        stream_id: 7,
        name: b"orders".to_vec(),
    });
    match round_trip(cmd) {
        Command::CreateStream(c) => {
            assert_eq!(c.stream_id, 7);
            assert_eq!(c.name, b"orders".to_vec());
        }
        _ => panic!("wrong variant"),
    }
}

#[test]
fn poll_messages_round_trips() {
    let cmd = Command::PollMessages(PollMessages {
        consumer: Consumer::GroupMember(3, 9),
        stream_id: Identifier::numeric(1).unwrap(),
        topic_id: Identifier::named("events").unwrap(),
        partition_id: 2,
        strategy: PollStrategy::Timestamp(123456),
        count: 50,
        auto_commit: true,
    });
    match round_trip(cmd) {
        Command::PollMessages(c) => {
            assert_eq!(c.consumer, Consumer::GroupMember(3, 9));
            assert_eq!(c.partition_id, 2);
            assert_eq!(c.strategy, PollStrategy::Timestamp(123456));
            assert_eq!(c.count, 50);
            assert!(c.auto_commit);
            assert_eq!(c.topic_id, Identifier::named("events").unwrap());
        }
        _ => panic!("wrong variant"),
    }
}

#[test]
fn send_messages_round_trips_bit_identically() {
    let mut headers = Vec::new();
    headers.push(iggy::header::Header {
        key: iggy::header::HeaderKey::new("trace-id").unwrap(),
        value: iggy::header::HeaderValue::of_u64(77),
    });
    let msg = Message::new(42, headers, vec![1, 2, 3]).unwrap();
    let cmd = Command::SendMessages(SendMessages {
        stream_id: Identifier::numeric(1).unwrap(),
        topic_id: Identifier::numeric(1).unwrap(),
        partitioning: Partitioning::messages_key(vec![0x01]).unwrap(),
        messages: vec![msg],
    });
    match round_trip(cmd) {
        Command::SendMessages(c) => {
            assert_eq!(c.messages.len(), 1);
            assert_eq!(c.messages[0].id, 42);
            assert_eq!(c.messages[0].payload, vec![1, 2, 3]);
            assert_eq!(c.messages[0].headers.len(), 1);
            assert_eq!(c.messages[0].headers[0].key.bytes, b"trace-id".to_vec());
            match &c.partitioning {
                Partitioning::MessagesKey(k) => assert_eq!(k, &vec![0x01]),
                _ => panic!("wrong partitioning"),
            }
        }
        _ => panic!("wrong variant"),
    }
}

#[test]
fn unknown_code_is_invalid_and_junk_is_malformed() {
    assert_eq!(
        Command::from_code_and_payload(9999, &[]).unwrap_err(),
        IggyError::InvalidCommand
    );
    assert_eq!(
        Command::from_code_and_payload(202, &[1, 2]).unwrap_err(),
        IggyError::MalformedPayload
    );
}

#[test]
fn response_frames_carry_status_and_length() {
    let frame = encode_response(40, &Vec::new());
    let (status, length) = parse_response_header(&frame).unwrap();
    assert_eq!(status, 40);
    assert_eq!(length, 0);
    assert_eq!(IggyError::Unauthenticated.as_code(), 40);
}

#[test]
fn crc32_of_one_zero_byte_matches_the_standard_value() {
    let msg = Message::new(0, Vec::new(), vec![0u8]).unwrap();
    assert_eq!(msg.checksum, 0xD202EF8D);
}
