//! The binary command protocol. A request frame is
//! `u32 total_length | u32 command_code | payload`, little-endian, where
//! `total_length` counts the code and the payload; a response frame is
//! `u32 status | u32 payload_length | payload`, status 0 meaning OK. Each
//! command has a fixed numeric code and a payload of plain fields:
//! identifiers, length-prefixed names, and — for sends — whole message
//! frames whose offset, timestamp and checksum fields are zero until the
//! partition stamps them.

use crate::error::IggyError;
use crate::identifier::{spec_id_bytes, spec_parse_id, wf_id_view, IdView, Identifier};
use crate::message::{
    spec_frame_bytes, spec_parse_frame, wf_message, Message, MessageView,
};
use crate::partition::{Consumer, PollStrategy};
use crate::encoding::{put_u32_le, put_u64_le, put_u128_le, read_u32_le, read_u64_le, read_u128_le};
use vstd::bytes::*;
use vstd::prelude::*;
use vstd::slice::{slice_subrange, slice_to_vec};
use vstd::string::StringSliceAdditionalSpecFns;

verus! {

pub const CODE_PING: u32 = 1;

pub const CODE_SEND_MESSAGES: u32 = 16;

pub const CODE_POLL_MESSAGES: u32 = 17;

pub const CODE_GET_ME: u32 = 20;

pub const CODE_CREATE_USER: u32 = 33;

pub const CODE_DELETE_USER: u32 = 34;

pub const CODE_CHANGE_PASSWORD: u32 = 37;

pub const CODE_LOGIN_USER: u32 = 38;

pub const CODE_LOGOUT_USER: u32 = 39;

pub const CODE_STORE_CONSUMER_OFFSET: u32 = 121;

pub const CODE_GET_STREAMS: u32 = 201;

pub const CODE_CREATE_STREAM: u32 = 202;

pub const CODE_DELETE_STREAM: u32 = 203;

pub const CODE_GET_TOPICS: u32 = 301;

pub const CODE_CREATE_TOPIC: u32 = 302;

pub const CODE_DELETE_TOPIC: u32 = 303;

pub const CODE_CREATE_CONSUMER_GROUP: u32 = 602;

pub const CODE_DELETE_CONSUMER_GROUP: u32 = 603;

// ---------------------------------------------------------------------------
// field helpers
// ---------------------------------------------------------------------------

/// Parses a byte string prefixed by its 1-byte length.
pub open spec fn spec_parse_bytes8(s: Seq<u8>) -> Option<(Seq<u8>, int)> {
    if s.len() < 1 {
        None
    } else {
        let l = s[0] as int;
        if s.len() < 1 + l {
            None
        } else {
            Some((s.subrange(1, 1 + l), 1 + l))
        }
    }
}

/// The wire form of a byte string of at most 255 bytes.
pub open spec fn spec_bytes8(b: Seq<u8>) -> Seq<u8> {
    seq![b.len() as u8] + b
}

pub proof fn lemma_bytes8_round_trip(b: Seq<u8>, rest: Seq<u8>)
    requires
        b.len() <= 255,
    ensures
        spec_parse_bytes8(spec_bytes8(b) + rest) == Some((b, b.len() as int + 1)),
{
    let s = spec_bytes8(b) + rest;
    assert(s[0] == b.len() as u8);
    assert(s.subrange(1, 1 + b.len() as int) =~= b);
}

/// Appends a 1-byte length and the bytes.
pub fn put_bytes8(buf: &mut Vec<u8>, b: &Vec<u8>)
    requires
        b@.len() <= 255,
    ensures
        final(buf)@ == old(buf)@ + spec_bytes8(b@),
{
    buf.push(b.len() as u8);
    buf.extend_from_slice(b.as_slice());
    proof {
        assert(buf@ =~= old(buf)@ + spec_bytes8(b@));
    }
}

/// Reads a 1-byte-length-prefixed byte string at `pos`.
pub fn take_bytes8(buf: &[u8], pos: usize) -> (r: Result<(Vec<u8>, usize), IggyError>)
    requires
        pos <= buf@.len(),
    ensures
        r is Ok <==> spec_parse_bytes8(buf@.skip(pos as int)) is Some,
        r is Err ==> r == Result::<(Vec<u8>, usize), IggyError>::Err(IggyError::MalformedPayload),
        r is Ok ==> {
            let (b, n) = spec_parse_bytes8(buf@.skip(pos as int))->Some_0;
            &&& r->Ok_0.0@ == b
            &&& r->Ok_0.1 == pos + n
            &&& pos < r->Ok_0.1 <= buf@.len()
            &&& b.len() <= 255
        },
{
    let ghost s = buf@.skip(pos as int);
    if buf.len() - pos < 1 {
        return Err(IggyError::MalformedPayload);
    }
    let l = buf[pos] as usize;
    assert(l == s[0]);
    if buf.len() - pos - 1 < l {
        return Err(IggyError::MalformedPayload);
    }
    let b = slice_to_vec(slice_subrange(buf, pos + 1, pos + 1 + l));
    proof {
        assert(b@ =~= s.subrange(1, 1 + l as int));
    }
    Ok((b, pos + 1 + l))
}

/// Parses a little-endian u32.
pub open spec fn spec_parse_u32(s: Seq<u8>) -> Option<(u32, int)> {
    if s.len() < 4 {
        None
    } else {
        Some((spec_u32_from_le_bytes(s.subrange(0, 4)), 4))
    }
}

pub proof fn lemma_u32_round_trip(x: u32, rest: Seq<u8>)
    ensures
        spec_parse_u32(spec_u32_to_le_bytes(x) + rest) == Some((x, 4int)),
{
    lemma_auto_spec_u32_to_from_le_bytes();
    assert((spec_u32_to_le_bytes(x) + rest).subrange(0, 4) =~= spec_u32_to_le_bytes(x));
}

/// Reads a little-endian u32 at `pos`.
pub fn take_u32(buf: &[u8], pos: usize) -> (r: Result<(u32, usize), IggyError>)
    requires
        pos <= buf@.len(),
    ensures
        r is Ok <==> spec_parse_u32(buf@.skip(pos as int)) is Some,
        r is Err ==> r == Result::<(u32, usize), IggyError>::Err(IggyError::MalformedPayload),
        r is Ok ==> {
            let (x, n) = spec_parse_u32(buf@.skip(pos as int))->Some_0;
            &&& r->Ok_0.0 == x
            &&& r->Ok_0.1 == pos + n
            &&& pos < r->Ok_0.1 <= buf@.len()
        },
{
    if buf.len() - pos < 4 {
        return Err(IggyError::MalformedPayload);
    }
    let x = read_u32_le(buf, pos);
    proof {
        assert(buf@.subrange(pos as int, pos + 4) =~= buf@.skip(pos as int).subrange(0, 4));
    }
    Ok((x, pos + 4))
}

/// Parses a little-endian u64.
pub open spec fn spec_parse_u64(s: Seq<u8>) -> Option<(u64, int)> {
    if s.len() < 8 {
        None
    } else {
        Some((spec_u64_from_le_bytes(s.subrange(0, 8)), 8))
    }
}

pub proof fn lemma_u64_round_trip(x: u64, rest: Seq<u8>)
    ensures
        spec_parse_u64(spec_u64_to_le_bytes(x) + rest) == Some((x, 8int)),
{
    lemma_auto_spec_u64_to_from_le_bytes();
    assert((spec_u64_to_le_bytes(x) + rest).subrange(0, 8) =~= spec_u64_to_le_bytes(x));
}

/// Reads a little-endian u64 at `pos`.
pub fn take_u64(buf: &[u8], pos: usize) -> (r: Result<(u64, usize), IggyError>)
    requires
        pos <= buf@.len(),
    ensures
        r is Ok <==> spec_parse_u64(buf@.skip(pos as int)) is Some,
        r is Err ==> r == Result::<(u64, usize), IggyError>::Err(IggyError::MalformedPayload),
        r is Ok ==> {
            let (x, n) = spec_parse_u64(buf@.skip(pos as int))->Some_0;
            &&& r->Ok_0.0 == x
            &&& r->Ok_0.1 == pos + n
            &&& pos < r->Ok_0.1 <= buf@.len()
        },
{
    if buf.len() - pos < 8 {
        return Err(IggyError::MalformedPayload);
    }
    let x = read_u64_le(buf, pos);
    proof {
        assert(buf@.subrange(pos as int, pos + 8) =~= buf@.skip(pos as int).subrange(0, 8));
    }
    Ok((x, pos + 8))
}

/// Parses an identifier field.
pub fn take_id(buf: &[u8], pos: usize) -> (r: Result<(Identifier, usize), IggyError>)
    requires
        pos <= buf@.len(),
    ensures
        r is Ok <==> spec_parse_id(buf@.skip(pos as int)) is Some,
        r is Err ==> r == Result::<(Identifier, usize), IggyError>::Err(IggyError::MalformedPayload),
        r is Ok ==> {
            let (v, n) = spec_parse_id(buf@.skip(pos as int))->Some_0;
            &&& r->Ok_0.0@ == v
            &&& r->Ok_0.0.wf()
            &&& r->Ok_0.1 == pos + n
            &&& pos < r->Ok_0.1 <= buf@.len()
        },
{
    match Identifier::parse(buf, pos) {
        Ok((id, next)) => Ok((id, next)),
        Err(_) => Err(IggyError::MalformedPayload),
    }
}


// ---------------------------------------------------------------------------
// partitioning, user status, message lists
// ---------------------------------------------------------------------------

/// How a send request chooses its partition.
#[derive(Debug)]
pub enum Partitioning {
    /// Round-robin over the topic's partitions.
    Balanced,
    /// The given partition, which must exist.
    PartitionId(u32),
    /// The partition the key hashes to.
    MessagesKey(Vec<u8>),
}

/// The abstract value of a partitioning rule.
pub enum PartitioningView {
    Balanced,
    PartitionId(u32),
    MessagesKey(Seq<u8>),
}

impl View for Partitioning {
    type V = PartitioningView;

    open spec fn view(&self) -> PartitioningView {
        match self {
            Partitioning::Balanced => PartitioningView::Balanced,
            Partitioning::PartitionId(p) => PartitioningView::PartitionId(*p),
            Partitioning::MessagesKey(k) => PartitioningView::MessagesKey(k@),
        }
    }
}

impl Clone for Partitioning {
    /// A clone has the same abstract value.
    fn clone(&self) -> (r: Self)
        ensures
            r@ == self@,
    {
        match self {
            Partitioning::Balanced => Partitioning::Balanced,
            Partitioning::PartitionId(p) => Partitioning::PartitionId(*p),
            Partitioning::MessagesKey(k) => Partitioning::MessagesKey(k.clone()),
        }
    }
}

impl Partitioning {
    /// The default rule: balanced round-robin.
    pub fn balanced() -> (r: Partitioning)
        ensures
            r@ == PartitioningView::Balanced,
    {
        Partitioning::Balanced
    }

    /// Routes to the given partition id.
    pub fn partition_id(id: u32) -> (r: Partitioning)
        ensures
            r@ == PartitioningView::PartitionId(id),
    {
        Partitioning::PartitionId(id)
    }

    /// Routes by the hash of a key of 1 to 255 bytes.
    pub fn messages_key(key: Vec<u8>) -> (r: Result<Partitioning, IggyError>)
        ensures
            r is Ok <==> 1 <= key@.len() <= 255,
            r is Ok ==> r->Ok_0@ == PartitioningView::MessagesKey(key@),
            r is Err ==> r == Result::<Partitioning, IggyError>::Err(IggyError::InvalidCommand),
    {
        if key.len() == 0 || key.len() > 255 {
            return Err(IggyError::InvalidCommand);
        }
        Ok(Partitioning::MessagesKey(key))
    }

    /// Routes by the hash of a string key.
    pub fn messages_key_str(key: &str) -> (r: Result<Partitioning, IggyError>)
        ensures
            r is Ok <==> 1 <= key.spec_bytes().len() <= 255,
            r is Ok ==> r->Ok_0@ == PartitioningView::MessagesKey(key.spec_bytes()),
            r is Err ==> r == Result::<Partitioning, IggyError>::Err(IggyError::InvalidCommand),
    {
        Partitioning::messages_key(slice_to_vec(key.as_bytes()))
    }
}

/// A well-formed partitioning rule.
pub open spec fn wf_partitioning(v: PartitioningView) -> bool {
    match v {
        PartitioningView::Balanced => true,
        PartitioningView::PartitionId(_) => true,
        PartitioningView::MessagesKey(k) => 1 <= k.len() <= 255,
    }
}

/// The wire bytes of a partitioning rule: a kind byte, a 1-byte length and
/// the value.
pub open spec fn spec_partitioning_bytes(v: PartitioningView) -> Seq<u8> {
    match v {
        PartitioningView::Balanced => seq![1u8, 0u8],
        PartitioningView::PartitionId(p) => seq![2u8, 4u8] + spec_u32_to_le_bytes(p),
        PartitioningView::MessagesKey(k) => seq![3u8, k.len() as u8] + k,
    }
}

/// Parses a partitioning rule from the front of `s`.
pub open spec fn spec_parse_partitioning(s: Seq<u8>) -> Option<(PartitioningView, int)> {
    if s.len() < 2 {
        None
    } else {
        let l = s[1] as int;
        if s.len() < 2 + l {
            None
        } else if s[0] == 1 {
            if l == 0 {
                Some((PartitioningView::Balanced, 2))
            } else {
                None
            }
        } else if s[0] == 2 {
            if l == 4 {
                Some((PartitioningView::PartitionId(spec_u32_from_le_bytes(s.subrange(2, 6))), 6))
            } else {
                None
            }
        } else if s[0] == 3 {
            if 1 <= l {
                Some((PartitioningView::MessagesKey(s.subrange(2, 2 + l)), 2 + l))
            } else {
                None
            }
        } else {
            None
        }
    }
}

pub proof fn lemma_partitioning_round_trip(v: PartitioningView, rest: Seq<u8>)
    requires
        wf_partitioning(v),
    ensures
        spec_parse_partitioning(spec_partitioning_bytes(v) + rest) == Some(
            (v, spec_partitioning_bytes(v).len() as int),
        ),
{
    let s = spec_partitioning_bytes(v) + rest;
    match v {
        PartitioningView::Balanced => {},
        PartitioningView::PartitionId(p) => {
            lemma_auto_spec_u32_to_from_le_bytes();
            assert(s.subrange(2, 6) =~= spec_u32_to_le_bytes(p));
        },
        PartitioningView::MessagesKey(k) => {
            assert(s[1] == k.len() as u8);
            assert(s.subrange(2, 2 + k.len() as int) =~= k);
        },
    }
}

/// Appends the wire bytes of a partitioning rule.
pub fn put_partitioning(buf: &mut Vec<u8>, p: &Partitioning)
    requires
        wf_partitioning(p@),
    ensures
        final(buf)@ == old(buf)@ + spec_partitioning_bytes(p@),
{
    match p {
        Partitioning::Balanced => {
            buf.push(1);
            buf.push(0);
            proof {
                assert(buf@ =~= old(buf)@ + spec_partitioning_bytes(p@));
            }
        },
        Partitioning::PartitionId(id) => {
            buf.push(2);
            buf.push(4);
            put_u32_le(buf, *id);
            proof {
                assert(buf@ =~= old(buf)@ + spec_partitioning_bytes(p@));
            }
        },
        Partitioning::MessagesKey(k) => {
            buf.push(3);
            buf.push(k.len() as u8);
            buf.extend_from_slice(k.as_slice());
            proof {
                assert(buf@ =~= old(buf)@ + spec_partitioning_bytes(p@));
            }
        },
    }
}

/// Reads a partitioning rule at `pos`.
pub fn take_partitioning(buf: &[u8], pos: usize) -> (r: Result<(Partitioning, usize), IggyError>)
    requires
        pos <= buf@.len(),
    ensures
        r is Ok <==> spec_parse_partitioning(buf@.skip(pos as int)) is Some,
        r is Err ==> r == Result::<(Partitioning, usize), IggyError>::Err(
            IggyError::MalformedPayload,
        ),
        r is Ok ==> {
            let (v, n) = spec_parse_partitioning(buf@.skip(pos as int))->Some_0;
            &&& r->Ok_0.0@ == v
            &&& wf_partitioning(v)
            &&& r->Ok_0.1 == pos + n
            &&& pos < r->Ok_0.1 <= buf@.len()
        },
{
    let ghost s = buf@.skip(pos as int);
    if buf.len() - pos < 2 {
        return Err(IggyError::MalformedPayload);
    }
    let kind = buf[pos];
    let l = buf[pos + 1] as usize;
    assert(kind == s[0] && l == s[1]);
    if buf.len() - pos - 2 < l {
        return Err(IggyError::MalformedPayload);
    }
    if kind == 1 {
        if l != 0 {
            return Err(IggyError::MalformedPayload);
        }
        Ok((Partitioning::Balanced, pos + 2))
    } else if kind == 2 {
        if l != 4 {
            return Err(IggyError::MalformedPayload);
        }
        let x = read_u32_le(buf, pos + 2);
        proof {
            assert(buf@.subrange(pos + 2, pos + 6) =~= s.subrange(2, 6));
        }
        Ok((Partitioning::PartitionId(x), pos + 6))
    } else if kind == 3 {
        if l < 1 {
            return Err(IggyError::MalformedPayload);
        }
        let k = slice_to_vec(slice_subrange(buf, pos + 2, pos + 2 + l));
        proof {
            assert(k@ =~= s.subrange(2, 2 + l as int));
        }
        Ok((Partitioning::MessagesKey(k), pos + 2 + l))
    } else {
        Err(IggyError::MalformedPayload)
    }
}

/// The status of a user account.
#[derive(Clone, Copy, Debug, PartialEq, Eq, Structural)]
pub enum UserStatus {
    Active,
    Inactive,
}

/// Parses `count` message frames from the front of `s`.
pub open spec fn spec_parse_frames(s: Seq<u8>, count: nat) -> Option<(Seq<MessageView>, int)>
    decreases count,
{
    if count == 0 {
        Some((Seq::empty(), 0))
    } else {
        match spec_parse_frame(s) {
            None => None,
            Some((m, n)) => if 0 < n <= s.len() {
                match spec_parse_frames(s.skip(n), (count - 1) as nat) {
                    None => None,
                    Some((t, c)) => Some((seq![m] + t, n + c)),
                }
            } else {
                None
            },
        }
    }
}

pub proof fn lemma_frames_round_trip(ms: Seq<MessageView>, rest: Seq<u8>)
    requires
        forall|i: int| 0 <= i < ms.len() ==> wf_message(#[trigger] ms[i]),
    ensures
        spec_parse_frames(crate::message::spec_log_bytes(ms) + rest, ms.len() as nat) == Some(
            (ms, crate::message::spec_log_bytes(ms).len() as int),
        ),
    decreases ms.len(),
{
    if ms.len() == 0 {
        assert(crate::message::spec_log_bytes(ms) =~= Seq::<u8>::empty());
        assert(crate::message::spec_log_bytes(ms) + rest =~= rest);
        assert(spec_parse_frames(rest, 0) == Some((Seq::<MessageView>::empty(), 0int)));
        assert(Seq::<MessageView>::empty() =~= ms);
    } else {
        let m = ms[0];
        let t = ms.skip(1);
        crate::message::lemma_frame_round_trip(m, crate::message::spec_log_bytes(t) + rest);
        let s = crate::message::spec_log_bytes(ms) + rest;
        let n = crate::message::spec_frame_len(m);
        assert(s =~= spec_frame_bytes(m) + (crate::message::spec_log_bytes(t) + rest));
        assert(s.skip(n) =~= crate::message::spec_log_bytes(t) + rest);
        lemma_frames_round_trip(t, rest);
        assert(seq![m] + t =~= ms);
    }
}

// ---------------------------------------------------------------------------
// command payloads
// ---------------------------------------------------------------------------

/// `GetMe` asks for the caller's own client details. No payload.
#[derive(Debug)]
pub struct GetMe {}

/// `LogoutUser` ends the session's authentication. No payload.
#[derive(Debug)]
pub struct LogoutUser {}

/// `GetTopics` lists the topics of a stream.
#[derive(Debug)]
pub struct GetTopics {
    /// Unique stream ID (numeric or name).
    pub stream_id: Identifier,
}

/// `CreateStream` makes a new stream with an explicit numeric id and name.
#[derive(Debug)]
pub struct CreateStream {
    pub stream_id: u32,
    pub name: Vec<u8>,
}

/// `DeleteConsumerGroup` removes a consumer group from a topic.
#[derive(Debug)]
pub struct DeleteConsumerGroup {
    pub stream_id: Identifier,
    pub topic_id: Identifier,
    pub consumer_group_id: Identifier,
}

/// `SendMessages` appends messages to one partition of a topic, chosen by
/// the partitioning rule. The wire form carries whole message frames whose
/// offset, timestamp and checksum are zero until the partition stamps them.
#[derive(Debug)]
pub struct SendMessages {
    pub stream_id: Identifier,
    pub topic_id: Identifier,
    pub partitioning: Partitioning,
    pub messages: Vec<Message>,
}

/// `PollMessages` reads up to `count` messages from one partition.
#[derive(Debug)]
pub struct PollMessages {
    pub consumer: Consumer,
    pub stream_id: Identifier,
    pub topic_id: Identifier,
    pub partition_id: u32,
    pub strategy: PollStrategy,
    pub count: u32,
    pub auto_commit: bool,
}

/// `DeleteUser` removes a user account.
#[derive(Debug)]
pub struct DeleteUser {
    pub user_id: Identifier,
}

/// `ChangePassword` replaces a user's password after checking the current
/// one.
#[derive(Debug)]
pub struct ChangePassword {
    pub user_id: Identifier,
    pub current_password: Vec<u8>,
    pub new_password: Vec<u8>,
}

/// A decoded command.
#[derive(Debug)]
pub enum Command {
    Ping,
    GetMe(GetMe),
    LoginUser { username: Vec<u8>, password: Vec<u8> },
    LogoutUser(LogoutUser),
    GetStreams,
    GetTopics(GetTopics),
    CreateStream(CreateStream),
    DeleteStream { stream_id: Identifier },
    CreateTopic { stream_id: Identifier, topic_id: u32, partitions_count: u32, name: Vec<u8> },
    DeleteTopic { stream_id: Identifier, topic_id: Identifier },
    CreateConsumerGroup {
        stream_id: Identifier,
        topic_id: Identifier,
        group_id: u32,
        name: Vec<u8>,
    },
    DeleteConsumerGroup(DeleteConsumerGroup),
    SendMessages(SendMessages),
    PollMessages(PollMessages),
    StoreConsumerOffset {
        consumer: Consumer,
        stream_id: Identifier,
        topic_id: Identifier,
        partition_id: u32,
        offset: u64,
    },
    CreateUser { username: Vec<u8>, password: Vec<u8>, status: UserStatus },
    DeleteUser(DeleteUser),
    ChangePassword(ChangePassword),
}

/// The abstract value of a command.
pub enum CommandView {
    Ping,
    GetMe,
    LoginUser { username: Seq<u8>, password: Seq<u8> },
    LogoutUser,
    GetStreams,
    GetTopics { stream_id: IdView },
    CreateStream { stream_id: u32, name: Seq<u8> },
    DeleteStream { stream_id: IdView },
    CreateTopic { stream_id: IdView, topic_id: u32, partitions_count: u32, name: Seq<u8> },
    DeleteTopic { stream_id: IdView, topic_id: IdView },
    CreateConsumerGroup { stream_id: IdView, topic_id: IdView, group_id: u32, name: Seq<u8> },
    DeleteConsumerGroup { stream_id: IdView, topic_id: IdView, consumer_group_id: IdView },
    SendMessages {
        stream_id: IdView,
        topic_id: IdView,
        partitioning: PartitioningView,
        messages: Seq<MessageView>,
    },
    PollMessages {
        consumer: Consumer,
        stream_id: IdView,
        topic_id: IdView,
        partition_id: u32,
        strategy: PollStrategy,
        count: u32,
        auto_commit: bool,
    },
    StoreConsumerOffset {
        consumer: Consumer,
        stream_id: IdView,
        topic_id: IdView,
        partition_id: u32,
        offset: u64,
    },
    CreateUser { username: Seq<u8>, password: Seq<u8>, status: UserStatus },
    DeleteUser { user_id: IdView },
    ChangePassword { user_id: IdView, current_password: Seq<u8>, new_password: Seq<u8> },
}

impl View for Command {
    type V = CommandView;

    open spec fn view(&self) -> CommandView {
        match self {
            Command::Ping => CommandView::Ping,
            Command::GetMe(_) => CommandView::GetMe,
            Command::LoginUser { username, password } => CommandView::LoginUser {
                username: username@,
                password: password@,
            },
            Command::LogoutUser(_) => CommandView::LogoutUser,
            Command::GetStreams => CommandView::GetStreams,
            Command::GetTopics(c) => CommandView::GetTopics { stream_id: c.stream_id@ },
            Command::CreateStream(c) => CommandView::CreateStream {
                stream_id: c.stream_id,
                name: c.name@,
            },
            Command::DeleteStream { stream_id } => CommandView::DeleteStream {
                stream_id: stream_id@,
            },
            Command::CreateTopic { stream_id, topic_id, partitions_count, name } =>
                CommandView::CreateTopic {
                stream_id: stream_id@,
                topic_id: *topic_id,
                partitions_count: *partitions_count,
                name: name@,
            },
            Command::DeleteTopic { stream_id, topic_id } => CommandView::DeleteTopic {
                stream_id: stream_id@,
                topic_id: topic_id@,
            },
            Command::CreateConsumerGroup { stream_id, topic_id, group_id, name } =>
                CommandView::CreateConsumerGroup {
                stream_id: stream_id@,
                topic_id: topic_id@,
                group_id: *group_id,
                name: name@,
            },
            Command::DeleteConsumerGroup(c) => CommandView::DeleteConsumerGroup {
                stream_id: c.stream_id@,
                topic_id: c.topic_id@,
                consumer_group_id: c.consumer_group_id@,
            },
            Command::SendMessages(c) => CommandView::SendMessages {
                stream_id: c.stream_id@,
                topic_id: c.topic_id@,
                partitioning: c.partitioning@,
                messages: c.messages@.map_values(|m: Message| m@),
            },
            Command::PollMessages(c) => CommandView::PollMessages {
                consumer: c.consumer,
                stream_id: c.stream_id@,
                topic_id: c.topic_id@,
                partition_id: c.partition_id,
                strategy: c.strategy,
                count: c.count,
                auto_commit: c.auto_commit,
            },
            Command::StoreConsumerOffset { consumer, stream_id, topic_id, partition_id, offset } =>
                CommandView::StoreConsumerOffset {
                consumer: *consumer,
                stream_id: stream_id@,
                topic_id: topic_id@,
                partition_id: *partition_id,
                offset: *offset,
            },
            Command::CreateUser { username, password, status } => CommandView::CreateUser {
                username: username@,
                password: password@,
                status: *status,
            },
            Command::DeleteUser(c) => CommandView::DeleteUser { user_id: c.user_id@ },
            Command::ChangePassword(c) => CommandView::ChangePassword {
                user_id: c.user_id@,
                current_password: c.current_password@,
                new_password: c.new_password@,
            },
        }
    }
}

/// A command the engine can encode: identifier fields valid, names and
/// passwords at most 255 bytes, messages well formed.
pub open spec fn wf_command(c: &Command) -> bool {
    match c {
        Command::Ping => true,
        Command::GetMe(_) => true,
        Command::LoginUser { username, password } => username@.len() <= 255 && password@.len()
            <= 255,
        Command::LogoutUser(_) => true,
        Command::GetStreams => true,
        Command::GetTopics(c) => c.stream_id.wf(),
        Command::CreateStream(c) => c.name@.len() <= 255,
        Command::DeleteStream { stream_id } => stream_id.wf(),
        Command::CreateTopic { stream_id, topic_id, partitions_count, name } => stream_id.wf()
            && name@.len() <= 255,
        Command::DeleteTopic { stream_id, topic_id } => stream_id.wf() && topic_id.wf(),
        Command::CreateConsumerGroup { stream_id, topic_id, group_id, name } => stream_id.wf()
            && topic_id.wf() && name@.len() <= 255,
        Command::DeleteConsumerGroup(c) => c.stream_id.wf() && c.topic_id.wf()
            && c.consumer_group_id.wf(),
        Command::SendMessages(c) => c.stream_id.wf() && c.topic_id.wf() && wf_partitioning(
            c.partitioning@,
        ) && c.messages@.len() <= u32::MAX && (forall|i: int|
            0 <= i < c.messages@.len() ==> wf_message(#[trigger] c.messages@[i]@)),
        Command::PollMessages(c) => c.stream_id.wf() && c.topic_id.wf(),
        Command::StoreConsumerOffset { consumer, stream_id, topic_id, partition_id, offset } =>
            stream_id.wf() && topic_id.wf(),
        Command::CreateUser { username, password, status } => username@.len() <= 255
            && password@.len() <= 255,
        Command::DeleteUser(c) => c.user_id.wf(),
        Command::ChangePassword(c) => c.user_id.wf() && c.current_password@.len() <= 255
            && c.new_password@.len() <= 255,
    }
}

/// The stable numeric code of a command.
pub open spec fn spec_cmd_code(v: CommandView) -> u32 {
    match v {
        CommandView::Ping => CODE_PING,
        CommandView::GetMe => CODE_GET_ME,
        CommandView::LoginUser { .. } => CODE_LOGIN_USER,
        CommandView::LogoutUser => CODE_LOGOUT_USER,
        CommandView::GetStreams => CODE_GET_STREAMS,
        CommandView::GetTopics { .. } => CODE_GET_TOPICS,
        CommandView::CreateStream { .. } => CODE_CREATE_STREAM,
        CommandView::DeleteStream { .. } => CODE_DELETE_STREAM,
        CommandView::CreateTopic { .. } => CODE_CREATE_TOPIC,
        CommandView::DeleteTopic { .. } => CODE_DELETE_TOPIC,
        CommandView::CreateConsumerGroup { .. } => CODE_CREATE_CONSUMER_GROUP,
        CommandView::DeleteConsumerGroup { .. } => CODE_DELETE_CONSUMER_GROUP,
        CommandView::SendMessages { .. } => CODE_SEND_MESSAGES,
        CommandView::PollMessages { .. } => CODE_POLL_MESSAGES,
        CommandView::StoreConsumerOffset { .. } => CODE_STORE_CONSUMER_OFFSET,
        CommandView::CreateUser { .. } => CODE_CREATE_USER,
        CommandView::DeleteUser { .. } => CODE_DELETE_USER,
        CommandView::ChangePassword { .. } => CODE_CHANGE_PASSWORD,
    }
}

/// The wire bytes of a consumer identity: a kind byte and two 32-bit ids;
/// a plain consumer writes 0 as its second id.
pub open spec fn spec_consumer_bytes(c: Consumer) -> Seq<u8> {
    match c {
        Consumer::Single(id) => seq![1u8] + spec_u32_to_le_bytes(id) + spec_u32_to_le_bytes(0u32),
        Consumer::GroupMember(g, m) => seq![2u8] + spec_u32_to_le_bytes(g) + spec_u32_to_le_bytes(
            m,
        ),
    }
}

/// Parses a consumer identity.
pub open spec fn spec_parse_consumer(s: Seq<u8>) -> Option<(Consumer, int)> {
    if s.len() < 9 {
        None
    } else {
        let a = spec_u32_from_le_bytes(s.subrange(1, 5));
        let b = spec_u32_from_le_bytes(s.subrange(5, 9));
        if s[0] == 1 {
            if b == 0 {
                Some((Consumer::Single(a), 9))
            } else {
                None
            }
        } else if s[0] == 2 {
            Some((Consumer::GroupMember(a, b), 9))
        } else {
            None
        }
    }
}

pub proof fn lemma_consumer_round_trip(c: Consumer, rest: Seq<u8>)
    ensures
        spec_parse_consumer(spec_consumer_bytes(c) + rest) == Some((c, 9int)),
{
    let s = spec_consumer_bytes(c) + rest;
    lemma_auto_spec_u32_to_from_le_bytes();
    match c {
        Consumer::Single(id) => {
            assert(s.subrange(1, 5) =~= spec_u32_to_le_bytes(id));
            assert(s.subrange(5, 9) =~= spec_u32_to_le_bytes(0u32));
        },
        Consumer::GroupMember(g, m) => {
            assert(s.subrange(1, 5) =~= spec_u32_to_le_bytes(g));
            assert(s.subrange(5, 9) =~= spec_u32_to_le_bytes(m));
        },
    }
}

/// Appends the wire bytes of a consumer identity.
pub fn put_consumer(buf: &mut Vec<u8>, c: Consumer)
    ensures
        final(buf)@ == old(buf)@ + spec_consumer_bytes(c),
{
    match c {
        Consumer::Single(id) => {
            buf.push(1);
            put_u32_le(buf, id);
            put_u32_le(buf, 0);
        },
        Consumer::GroupMember(g, m) => {
            buf.push(2);
            put_u32_le(buf, g);
            put_u32_le(buf, m);
        },
    }
    proof {
        assert(buf@ =~= old(buf)@ + spec_consumer_bytes(c));
    }
}

/// Reads a consumer identity at `pos`.
pub fn take_consumer(buf: &[u8], pos: usize) -> (r: Result<(Consumer, usize), IggyError>)
    requires
        pos <= buf@.len(),
    ensures
        r is Ok <==> spec_parse_consumer(buf@.skip(pos as int)) is Some,
        r is Err ==> r == Result::<(Consumer, usize), IggyError>::Err(IggyError::MalformedPayload),
        r is Ok ==> {
            let (c, n) = spec_parse_consumer(buf@.skip(pos as int))->Some_0;
            &&& r->Ok_0.0 == c
            &&& r->Ok_0.1 == pos + n
            &&& pos < r->Ok_0.1 <= buf@.len()
        },
{
    let ghost s = buf@.skip(pos as int);
    if buf.len() - pos < 9 {
        return Err(IggyError::MalformedPayload);
    }
    let kind = buf[pos];
    let a = read_u32_le(buf, pos + 1);
    let b = read_u32_le(buf, pos + 5);
    proof {
        assert(kind == s[0]);
        assert(buf@.subrange(pos + 1, pos + 5) =~= s.subrange(1, 5));
        assert(buf@.subrange(pos + 5, pos + 9) =~= s.subrange(5, 9));
    }
    if kind == 1 {
        if b != 0 {
            return Err(IggyError::MalformedPayload);
        }
        Ok((Consumer::Single(a), pos + 9))
    } else if kind == 2 {
        Ok((Consumer::GroupMember(a, b), pos + 9))
    } else {
        Err(IggyError::MalformedPayload)
    }
}

/// The wire bytes of a poll strategy: a kind byte and a 64-bit argument,
/// written as 0 where the kind carries none.
pub open spec fn spec_strategy_bytes(st: PollStrategy) -> Seq<u8> {
    match st {
        PollStrategy::Offset(o) => seq![1u8] + spec_u64_to_le_bytes(o),
        PollStrategy::First => seq![2u8] + spec_u64_to_le_bytes(0u64),
        PollStrategy::Last => seq![3u8] + spec_u64_to_le_bytes(0u64),
        PollStrategy::Next => seq![4u8] + spec_u64_to_le_bytes(0u64),
        PollStrategy::Timestamp(t) => seq![5u8] + spec_u64_to_le_bytes(t),
    }
}

/// Parses a poll strategy.
pub open spec fn spec_parse_strategy(s: Seq<u8>) -> Option<(PollStrategy, int)> {
    if s.len() < 9 {
        None
    } else {
        let v = spec_u64_from_le_bytes(s.subrange(1, 9));
        if s[0] == 1 {
            Some((PollStrategy::Offset(v), 9))
        } else if s[0] == 2 && v == 0 {
            Some((PollStrategy::First, 9))
        } else if s[0] == 3 && v == 0 {
            Some((PollStrategy::Last, 9))
        } else if s[0] == 4 && v == 0 {
            Some((PollStrategy::Next, 9))
        } else if s[0] == 5 {
            Some((PollStrategy::Timestamp(v), 9))
        } else {
            None
        }
    }
}

pub proof fn lemma_strategy_round_trip(st: PollStrategy, rest: Seq<u8>)
    ensures
        spec_parse_strategy(spec_strategy_bytes(st) + rest) == Some((st, 9int)),
{
    let s = spec_strategy_bytes(st) + rest;
    lemma_auto_spec_u64_to_from_le_bytes();
    match st {
        PollStrategy::Offset(o) => {
            assert(s.subrange(1, 9) =~= spec_u64_to_le_bytes(o));
        },
        PollStrategy::Timestamp(t) => {
            assert(s.subrange(1, 9) =~= spec_u64_to_le_bytes(t));
        },
        _ => {
            assert(s.subrange(1, 9) =~= spec_u64_to_le_bytes(0u64));
        },
    }
}

/// Appends the wire bytes of a poll strategy.
pub fn put_strategy(buf: &mut Vec<u8>, st: PollStrategy)
    ensures
        final(buf)@ == old(buf)@ + spec_strategy_bytes(st),
{
    match st {
        PollStrategy::Offset(o) => {
            buf.push(1);
            put_u64_le(buf, o);
        },
        PollStrategy::First => {
            buf.push(2);
            put_u64_le(buf, 0);
        },
        PollStrategy::Last => {
            buf.push(3);
            put_u64_le(buf, 0);
        },
        PollStrategy::Next => {
            buf.push(4);
            put_u64_le(buf, 0);
        },
        PollStrategy::Timestamp(t) => {
            buf.push(5);
            put_u64_le(buf, t);
        },
    }
    proof {
        assert(buf@ =~= old(buf)@ + spec_strategy_bytes(st));
    }
}

/// Reads a poll strategy at `pos`.
pub fn take_strategy(buf: &[u8], pos: usize) -> (r: Result<(PollStrategy, usize), IggyError>)
    requires
        pos <= buf@.len(),
    ensures
        r is Ok <==> spec_parse_strategy(buf@.skip(pos as int)) is Some,
        r is Err ==> r == Result::<(PollStrategy, usize), IggyError>::Err(
            IggyError::MalformedPayload,
        ),
        r is Ok ==> {
            let (st, n) = spec_parse_strategy(buf@.skip(pos as int))->Some_0;
            &&& r->Ok_0.0 == st
            &&& r->Ok_0.1 == pos + n
            &&& pos < r->Ok_0.1 <= buf@.len()
        },
{
    let ghost s = buf@.skip(pos as int);
    if buf.len() - pos < 9 {
        return Err(IggyError::MalformedPayload);
    }
    let kind = buf[pos];
    let v = read_u64_le(buf, pos + 1);
    proof {
        assert(kind == s[0]);
        assert(buf@.subrange(pos + 1, pos + 9) =~= s.subrange(1, 9));
    }
    if kind == 1 {
        Ok((PollStrategy::Offset(v), pos + 9))
    } else if kind == 2 && v == 0 {
        Ok((PollStrategy::First, pos + 9))
    } else if kind == 3 && v == 0 {
        Ok((PollStrategy::Last, pos + 9))
    } else if kind == 4 && v == 0 {
        Ok((PollStrategy::Next, pos + 9))
    } else if kind == 5 {
        Ok((PollStrategy::Timestamp(v), pos + 9))
    } else {
        Err(IggyError::MalformedPayload)
    }
}

// ---------------------------------------------------------------------------
// payload encoding and parsing
// ---------------------------------------------------------------------------

/// The wire byte of a user status.
pub open spec fn spec_status_byte(st: UserStatus) -> u8 {
    match st {
        UserStatus::Active => 1u8,
        UserStatus::Inactive => 2u8,
    }
}

/// The payload bytes of a command.
pub open spec fn spec_cmd_payload(v: CommandView) -> Seq<u8> {
    match v {
        CommandView::Ping => Seq::empty(),
        CommandView::GetMe => Seq::empty(),
        CommandView::LoginUser { username, password } => spec_bytes8(username) + spec_bytes8(
            password,
        ),
        CommandView::LogoutUser => Seq::empty(),
        CommandView::GetStreams => Seq::empty(),
        CommandView::GetTopics { stream_id } => spec_id_bytes(stream_id),
        CommandView::CreateStream { stream_id, name } => spec_u32_to_le_bytes(stream_id)
            + spec_bytes8(name),
        CommandView::DeleteStream { stream_id } => spec_id_bytes(stream_id),
        CommandView::CreateTopic { stream_id, topic_id, partitions_count, name } => spec_id_bytes(
            stream_id,
        ) + spec_u32_to_le_bytes(topic_id) + spec_u32_to_le_bytes(partitions_count) + spec_bytes8(
            name,
        ),
        CommandView::DeleteTopic { stream_id, topic_id } => spec_id_bytes(stream_id)
            + spec_id_bytes(topic_id),
        CommandView::CreateConsumerGroup { stream_id, topic_id, group_id, name } => spec_id_bytes(
            stream_id,
        ) + spec_id_bytes(topic_id) + spec_u32_to_le_bytes(group_id) + spec_bytes8(name),
        CommandView::DeleteConsumerGroup { stream_id, topic_id, consumer_group_id } =>
            spec_id_bytes(stream_id) + spec_id_bytes(topic_id) + spec_id_bytes(consumer_group_id),
        CommandView::SendMessages { stream_id, topic_id, partitioning, messages } => spec_id_bytes(
            stream_id,
        ) + (spec_id_bytes(topic_id) + (spec_partitioning_bytes(partitioning) + (
        spec_u32_to_le_bytes(messages.len() as u32) + crate::message::spec_log_bytes(messages)))),
        CommandView::PollMessages {
            consumer,
            stream_id,
            topic_id,
            partition_id,
            strategy,
            count,
            auto_commit,
        } => spec_consumer_bytes(consumer) + (spec_id_bytes(stream_id) + (spec_id_bytes(topic_id)
            + (spec_u32_to_le_bytes(partition_id) + (spec_strategy_bytes(strategy) + (
        spec_u32_to_le_bytes(count) + seq![if auto_commit { 1u8 } else { 0u8 }]))))),
        CommandView::StoreConsumerOffset { consumer, stream_id, topic_id, partition_id, offset } =>
            spec_consumer_bytes(consumer) + (spec_id_bytes(stream_id) + (spec_id_bytes(topic_id)
            + (spec_u32_to_le_bytes(partition_id) + spec_u64_to_le_bytes(offset)))),
        CommandView::CreateUser { username, password, status } => spec_bytes8(username)
            + spec_bytes8(password) + seq![spec_status_byte(status)],
        CommandView::DeleteUser { user_id } => spec_id_bytes(user_id),
        CommandView::ChangePassword { user_id, current_password, new_password } => spec_id_bytes(
            user_id,
        ) + spec_bytes8(current_password) + spec_bytes8(new_password),
    }
}

/// Parses a `SendMessages` payload.
#[verifier::opaque]
pub open spec fn spec_parse_send_messages(s: Seq<u8>) -> Option<CommandView> {
        match spec_parse_id(s) {
        None => None,
        Some((stream_id, n1)) => match spec_parse_id(s.skip(n1)) {
            None => None,
            Some((topic_id, n2)) => match spec_parse_partitioning(s.skip(n1 + n2)) {
                None => None,
                Some((partitioning, n3)) => match spec_parse_u32(s.skip(n1 + n2 + n3)) {
                    None => None,
                    Some((count, n4)) => match spec_parse_frames(
                        s.skip(n1 + n2 + n3 + n4),
                        count as nat,
                    ) {
                        None => None,
                        Some((messages, n5)) => if n1 + n2 + n3 + n4 + n5 == s.len() {
                            Some(
                                CommandView::SendMessages {
                                    stream_id,
                                    topic_id,
                                    partitioning,
                                    messages,
                                },
                            )
                        } else {
                            None
                        },
                    },
                },
            },
        },
    }
}

/// Parses a `PollMessages` payload.
#[verifier::opaque]
pub open spec fn spec_parse_poll_messages(s: Seq<u8>) -> Option<CommandView> {
        match spec_parse_consumer(s) {
        None => None,
        Some((consumer, n1)) => match spec_parse_id(s.skip(n1)) {
            None => None,
            Some((stream_id, n2)) => match spec_parse_id(s.skip(n1 + n2)) {
                None => None,
                Some((topic_id, n3)) => match spec_parse_u32(s.skip(n1 + n2 + n3)) {
                    None => None,
                    Some((partition_id, n4)) => match spec_parse_strategy(
                        s.skip(n1 + n2 + n3 + n4),
                    ) {
                        None => None,
                        Some((strategy, n5)) => match spec_parse_u32(
                            s.skip(n1 + n2 + n3 + n4 + n5),
                        ) {
                            None => None,
                            Some((count, n6)) => {
                                let p = n1 + n2 + n3 + n4 + n5 + n6;
                                if p + 1 == s.len() && (s[p] == 0 || s[p] == 1) {
                                    Some(
                                        CommandView::PollMessages {
                                            consumer,
                                            stream_id,
                                            topic_id,
                                            partition_id,
                                            strategy,
                                            count,
                                            auto_commit: s[p] == 1,
                                        },
                                    )
                                } else {
                                    None
                                }
                            },
                        },
                    },
                },
            },
        },
    }
}

/// Parses the payload of the command with the given code; every byte of `s`
/// must belong to the payload.
pub open spec fn spec_parse_cmd(code: u32, s: Seq<u8>) -> Option<CommandView> {
    if code == CODE_PING {
        if s.len() == 0 {
            Some(CommandView::Ping)
        } else {
            None
        }
    } else if code == CODE_GET_ME {
        if s.len() == 0 {
            Some(CommandView::GetMe)
        } else {
            None
        }
    } else if code == CODE_LOGIN_USER {
        match spec_parse_bytes8(s) {
            None => None,
            Some((username, n1)) => match spec_parse_bytes8(s.skip(n1)) {
                None => None,
                Some((password, n2)) => if n1 + n2 == s.len() {
                    Some(CommandView::LoginUser { username, password })
                } else {
                    None
                },
            },
        }
    } else if code == CODE_LOGOUT_USER {
        if s.len() == 0 {
            Some(CommandView::LogoutUser)
        } else {
            None
        }
    } else if code == CODE_GET_STREAMS {
        if s.len() == 0 {
            Some(CommandView::GetStreams)
        } else {
            None
        }
    } else if code == CODE_GET_TOPICS {
        match spec_parse_id(s) {
            None => None,
            Some((stream_id, n1)) => if n1 == s.len() {
                Some(CommandView::GetTopics { stream_id })
            } else {
                None
            },
        }
    } else if code == CODE_CREATE_STREAM {
        match spec_parse_u32(s) {
            None => None,
            Some((stream_id, n1)) => match spec_parse_bytes8(s.skip(n1)) {
                None => None,
                Some((name, n2)) => if n1 + n2 == s.len() {
                    Some(CommandView::CreateStream { stream_id, name })
                } else {
                    None
                },
            },
        }
    } else if code == CODE_DELETE_STREAM {
        match spec_parse_id(s) {
            None => None,
            Some((stream_id, n1)) => if n1 == s.len() {
                Some(CommandView::DeleteStream { stream_id })
            } else {
                None
            },
        }
    } else if code == CODE_CREATE_TOPIC {
        match spec_parse_id(s) {
            None => None,
            Some((stream_id, n1)) => match spec_parse_u32(s.skip(n1)) {
                None => None,
                Some((topic_id, n2)) => match spec_parse_u32(s.skip(n1 + n2)) {
                    None => None,
                    Some((partitions_count, n3)) => match spec_parse_bytes8(s.skip(n1 + n2 + n3)) {
                        None => None,
                        Some((name, n4)) => if n1 + n2 + n3 + n4 == s.len() {
                            Some(
                                CommandView::CreateTopic {
                                    stream_id,
                                    topic_id,
                                    partitions_count,
                                    name,
                                },
                            )
                        } else {
                            None
                        },
                    },
                },
            },
        }
    } else if code == CODE_DELETE_TOPIC {
        match spec_parse_id(s) {
            None => None,
            Some((stream_id, n1)) => match spec_parse_id(s.skip(n1)) {
                None => None,
                Some((topic_id, n2)) => if n1 + n2 == s.len() {
                    Some(CommandView::DeleteTopic { stream_id, topic_id })
                } else {
                    None
                },
            },
        }
    } else if code == CODE_CREATE_CONSUMER_GROUP {
        match spec_parse_id(s) {
            None => None,
            Some((stream_id, n1)) => match spec_parse_id(s.skip(n1)) {
                None => None,
                Some((topic_id, n2)) => match spec_parse_u32(s.skip(n1 + n2)) {
                    None => None,
                    Some((group_id, n3)) => match spec_parse_bytes8(s.skip(n1 + n2 + n3)) {
                        None => None,
                        Some((name, n4)) => if n1 + n2 + n3 + n4 == s.len() {
                            Some(
                                CommandView::CreateConsumerGroup {
                                    stream_id,
                                    topic_id,
                                    group_id,
                                    name,
                                },
                            )
                        } else {
                            None
                        },
                    },
                },
            },
        }
    } else if code == CODE_DELETE_CONSUMER_GROUP {
        match spec_parse_id(s) {
            None => None,
            Some((stream_id, n1)) => match spec_parse_id(s.skip(n1)) {
                None => None,
                Some((topic_id, n2)) => match spec_parse_id(s.skip(n1 + n2)) {
                    None => None,
                    Some((consumer_group_id, n3)) => if n1 + n2 + n3 == s.len() {
                        Some(
                            CommandView::DeleteConsumerGroup {
                                stream_id,
                                topic_id,
                                consumer_group_id,
                            },
                        )
                    } else {
                        None
                    },
                },
            },
        }
    } else if code == CODE_SEND_MESSAGES {
        spec_parse_send_messages(s)
    } else if code == CODE_POLL_MESSAGES {
        spec_parse_poll_messages(s)
    } else if code == CODE_STORE_CONSUMER_OFFSET {
        match spec_parse_consumer(s) {
            None => None,
            Some((consumer, n1)) => match spec_parse_id(s.skip(n1)) {
                None => None,
                Some((stream_id, n2)) => match spec_parse_id(s.skip(n1 + n2)) {
                    None => None,
                    Some((topic_id, n3)) => match spec_parse_u32(s.skip(n1 + n2 + n3)) {
                        None => None,
                        Some((partition_id, n4)) => match spec_parse_u64(
                            s.skip(n1 + n2 + n3 + n4),
                        ) {
                            None => None,
                            Some((offset, n5)) => if n1 + n2 + n3 + n4 + n5 == s.len() {
                                Some(
                                    CommandView::StoreConsumerOffset {
                                        consumer,
                                        stream_id,
                                        topic_id,
                                        partition_id,
                                        offset,
                                    },
                                )
                            } else {
                                None
                            },
                        },
                    },
                },
            },
        }
    } else if code == CODE_CREATE_USER {
        match spec_parse_bytes8(s) {
            None => None,
            Some((username, n1)) => match spec_parse_bytes8(s.skip(n1)) {
                None => None,
                Some((password, n2)) => {
                    let p = n1 + n2;
                    if p + 1 == s.len() && (s[p] == 1 || s[p] == 2) {
                        Some(
                            CommandView::CreateUser {
                                username,
                                password,
                                status: if s[p] == 1 {
                                    UserStatus::Active
                                } else {
                                    UserStatus::Inactive
                                },
                            },
                        )
                    } else {
                        None
                    }
                },
            },
        }
    } else if code == CODE_DELETE_USER {
        match spec_parse_id(s) {
            None => None,
            Some((user_id, n1)) => if n1 == s.len() {
                Some(CommandView::DeleteUser { user_id })
            } else {
                None
            },
        }
    } else if code == CODE_CHANGE_PASSWORD {
        match spec_parse_id(s) {
            None => None,
            Some((user_id, n1)) => match spec_parse_bytes8(s.skip(n1)) {
                None => None,
                Some((current_password, n2)) => match spec_parse_bytes8(s.skip(n1 + n2)) {
                    None => None,
                    Some((new_password, n3)) => if n1 + n2 + n3 == s.len() {
                        Some(
                            CommandView::ChangePassword {
                                user_id,
                                current_password,
                                new_password,
                            },
                        )
                    } else {
                        None
                    },
                },
            },
        }
    } else {
        None
    }
}

/// A code the engine knows.
pub open spec fn spec_known_code(code: u32) -> bool {
    code == CODE_PING || code == CODE_GET_ME || code == CODE_LOGIN_USER || code
        == CODE_LOGOUT_USER || code == CODE_GET_STREAMS || code == CODE_GET_TOPICS || code
        == CODE_CREATE_STREAM || code == CODE_DELETE_STREAM || code == CODE_CREATE_TOPIC || code
        == CODE_DELETE_TOPIC || code == CODE_CREATE_CONSUMER_GROUP || code
        == CODE_DELETE_CONSUMER_GROUP || code == CODE_SEND_MESSAGES || code == CODE_POLL_MESSAGES
        || code == CODE_STORE_CONSUMER_OFFSET || code == CODE_CREATE_USER || code
        == CODE_DELETE_USER || code == CODE_CHANGE_PASSWORD
}

impl Command {
    /// The command's stable numeric code.
    pub fn code(&self) -> (r: u32)
        ensures
            r == spec_cmd_code(self@),
    {
        match self {
            Command::Ping => CODE_PING,
            Command::GetMe(_) => CODE_GET_ME,
            Command::LoginUser { .. } => CODE_LOGIN_USER,
            Command::LogoutUser(_) => CODE_LOGOUT_USER,
            Command::GetStreams => CODE_GET_STREAMS,
            Command::GetTopics(_) => CODE_GET_TOPICS,
            Command::CreateStream(_) => CODE_CREATE_STREAM,
            Command::DeleteStream { .. } => CODE_DELETE_STREAM,
            Command::CreateTopic { .. } => CODE_CREATE_TOPIC,
            Command::DeleteTopic { .. } => CODE_DELETE_TOPIC,
            Command::CreateConsumerGroup { .. } => CODE_CREATE_CONSUMER_GROUP,
            Command::DeleteConsumerGroup(_) => CODE_DELETE_CONSUMER_GROUP,
            Command::SendMessages(_) => CODE_SEND_MESSAGES,
            Command::PollMessages(_) => CODE_POLL_MESSAGES,
            Command::StoreConsumerOffset { .. } => CODE_STORE_CONSUMER_OFFSET,
            Command::CreateUser { .. } => CODE_CREATE_USER,
            Command::DeleteUser(_) => CODE_DELETE_USER,
            Command::ChangePassword(_) => CODE_CHANGE_PASSWORD,
        }
    }

    /// The command's payload bytes.
    pub fn payload_bytes(&self) -> (r: Vec<u8>)
        requires
            wf_command(self),
        ensures
            r@ == spec_cmd_payload(self@),
    {
        let mut buf: Vec<u8> = Vec::new();
        match self {
            Command::Ping => {},
            Command::GetMe(_) => {},
            Command::LoginUser { username, password } => {
                put_bytes8(&mut buf, username);
                put_bytes8(&mut buf, password);
            },
            Command::LogoutUser(_) => {},
            Command::GetStreams => {},
            Command::GetTopics(c) => {
                let mut id = c.stream_id.as_bytes();
                buf.append(&mut id);
            },
            Command::CreateStream(c) => {
                put_u32_le(&mut buf, c.stream_id);
                put_bytes8(&mut buf, &c.name);
            },
            Command::DeleteStream { stream_id } => {
                let mut id = stream_id.as_bytes();
                buf.append(&mut id);
            },
            Command::CreateTopic { stream_id, topic_id, partitions_count, name } => {
                let mut id = stream_id.as_bytes();
                buf.append(&mut id);
                put_u32_le(&mut buf, *topic_id);
                put_u32_le(&mut buf, *partitions_count);
                put_bytes8(&mut buf, name);
            },
            Command::DeleteTopic { stream_id, topic_id } => {
                let mut id = stream_id.as_bytes();
                buf.append(&mut id);
                let mut id2 = topic_id.as_bytes();
                buf.append(&mut id2);
            },
            Command::CreateConsumerGroup { stream_id, topic_id, group_id, name } => {
                let mut id = stream_id.as_bytes();
                buf.append(&mut id);
                let mut id2 = topic_id.as_bytes();
                buf.append(&mut id2);
                put_u32_le(&mut buf, *group_id);
                put_bytes8(&mut buf, name);
            },
            Command::DeleteConsumerGroup(c) => {
                let mut id = c.stream_id.as_bytes();
                buf.append(&mut id);
                let mut id2 = c.topic_id.as_bytes();
                buf.append(&mut id2);
                let mut id3 = c.consumer_group_id.as_bytes();
                buf.append(&mut id3);
            },
            Command::SendMessages(c) => {
                let mut id = c.stream_id.as_bytes();
                buf.append(&mut id);
                let mut id2 = c.topic_id.as_bytes();
                buf.append(&mut id2);
                put_partitioning(&mut buf, &c.partitioning);
                put_u32_le(&mut buf, c.messages.len() as u32);
                let ghost views = c.messages@.map_values(|m: Message| m@);
                let ghost base = buf@;
                let mut i: usize = 0;
                proof {
                    assert(views.take(0) =~= Seq::<MessageView>::empty());
                    assert(crate::message::spec_log_bytes(Seq::<MessageView>::empty())
                        == Seq::<u8>::empty());
                    assert(buf@ =~= base + crate::message::spec_log_bytes(views.take(0)));
                }
                while i < c.messages.len()
                    invariant
                        0 <= i <= views.len(),
                        views == c.messages@.map_values(|m: Message| m@),
                        forall|k: int|
                            0 <= k < views.len() ==> wf_message(#[trigger] c.messages@[k]@),
                        buf@ == base + crate::message::spec_log_bytes(views.take(i as int)),
                    decreases views.len() - i,
                {
                    proof {
                        assert(c.messages@[i as int]@ == views[i as int]);
                    }
                    c.messages[i].encode_frame(&mut buf);
                    proof {
                        crate::message::lemma_log_bytes_push(views.take(i as int), views[i as int]);
                        assert(views.take(i as int).push(views[i as int]) =~= views.take(i + 1));
                    }
                    i = i + 1;
                }
                proof {
                    assert(views.take(views.len() as int) =~= views);
                }
            },
            Command::PollMessages(c) => {
                put_consumer(&mut buf, c.consumer);
                let mut id = c.stream_id.as_bytes();
                buf.append(&mut id);
                let mut id2 = c.topic_id.as_bytes();
                buf.append(&mut id2);
                put_u32_le(&mut buf, c.partition_id);
                put_strategy(&mut buf, c.strategy);
                put_u32_le(&mut buf, c.count);
                buf.push(if c.auto_commit {
                    1
                } else {
                    0
                });
            },
            Command::StoreConsumerOffset { consumer, stream_id, topic_id, partition_id, offset } => {
                put_consumer(&mut buf, *consumer);
                let mut id = stream_id.as_bytes();
                buf.append(&mut id);
                let mut id2 = topic_id.as_bytes();
                buf.append(&mut id2);
                put_u32_le(&mut buf, *partition_id);
                put_u64_le(&mut buf, *offset);
            },
            Command::CreateUser { username, password, status } => {
                put_bytes8(&mut buf, username);
                put_bytes8(&mut buf, password);
                buf.push(
                    match status {
                        UserStatus::Active => 1,
                        UserStatus::Inactive => 2,
                    },
                );
            },
            Command::DeleteUser(c) => {
                let mut id = c.user_id.as_bytes();
                buf.append(&mut id);
            },
            Command::ChangePassword(c) => {
                let mut id = c.user_id.as_bytes();
                buf.append(&mut id);
                put_bytes8(&mut buf, &c.current_password);
                put_bytes8(&mut buf, &c.new_password);
            },
        }
        proof {
            assert(buf@ =~= spec_cmd_payload(self@));
        }
        buf
    }

    /// Decodes the payload of the command with the given code. An unknown
    /// code is an invalid command; a payload the code's shape does not fit,
    /// or that leaves bytes over, is malformed.
    #[verifier::loop_isolation(false)]
    #[verifier::rlimit(100)]
    #[verifier::spinoff_prover]
    pub fn from_code_and_payload(code: u32, payload: &[u8]) -> (r: Result<Command, IggyError>)
        ensures
            r is Ok <==> spec_parse_cmd(code, payload@) is Some,
            r is Ok ==> r->Ok_0@ == spec_parse_cmd(code, payload@)->Some_0 && wf_command(
                &r->Ok_0,
            ),
            r is Err ==> r == Result::<Command, IggyError>::Err(
                if spec_known_code(code) {
                    IggyError::MalformedPayload
                } else {
                    IggyError::InvalidCommand
                },
            ),
    {
        let ghost s = payload@;
        proof {
            assert(s.skip(0) =~= s);
        }
        let n = payload.len();
        if code == CODE_PING {
            if n != 0 {
                return Err(IggyError::MalformedPayload);
            }
            Ok(Command::Ping)
        } else if code == CODE_GET_ME {
            if n != 0 {
                return Err(IggyError::MalformedPayload);
            }
            Ok(Command::GetMe(GetMe {}))
        } else if code == CODE_LOGIN_USER {
            let (username, p1) = take_bytes8(payload, 0)?;
            let (password, p2) = take_bytes8(payload, p1)?;
            if p2 != n {
                return Err(IggyError::MalformedPayload);
            }
            Ok(Command::LoginUser { username, password })
        } else if code == CODE_LOGOUT_USER {
            if n != 0 {
                return Err(IggyError::MalformedPayload);
            }
            Ok(Command::LogoutUser(LogoutUser {}))
        } else if code == CODE_GET_STREAMS {
            if n != 0 {
                return Err(IggyError::MalformedPayload);
            }
            Ok(Command::GetStreams)
        } else if code == CODE_GET_TOPICS {
            let (stream_id, p1) = take_id(payload, 0)?;
            if p1 != n {
                return Err(IggyError::MalformedPayload);
            }
            Ok(Command::GetTopics(GetTopics { stream_id }))
        } else if code == CODE_CREATE_STREAM {
            let (stream_id, p1) = take_u32(payload, 0)?;
            let (name, p2) = take_bytes8(payload, p1)?;
            if p2 != n {
                return Err(IggyError::MalformedPayload);
            }
            Ok(Command::CreateStream(CreateStream { stream_id, name }))
        } else if code == CODE_DELETE_STREAM {
            let (stream_id, p1) = take_id(payload, 0)?;
            if p1 != n {
                return Err(IggyError::MalformedPayload);
            }
            Ok(Command::DeleteStream { stream_id })
        } else if code == CODE_CREATE_TOPIC {
            let (stream_id, p1) = take_id(payload, 0)?;
            let (topic_id, p2) = take_u32(payload, p1)?;
            let (partitions_count, p3) = take_u32(payload, p2)?;
            let (name, p4) = take_bytes8(payload, p3)?;
            if p4 != n {
                return Err(IggyError::MalformedPayload);
            }
            Ok(Command::CreateTopic { stream_id, topic_id, partitions_count, name })
        } else if code == CODE_DELETE_TOPIC {
            let (stream_id, p1) = take_id(payload, 0)?;
            let (topic_id, p2) = take_id(payload, p1)?;
            if p2 != n {
                return Err(IggyError::MalformedPayload);
            }
            Ok(Command::DeleteTopic { stream_id, topic_id })
        } else if code == CODE_CREATE_CONSUMER_GROUP {
            let (stream_id, p1) = take_id(payload, 0)?;
            let (topic_id, p2) = take_id(payload, p1)?;
            let (group_id, p3) = take_u32(payload, p2)?;
            let (name, p4) = take_bytes8(payload, p3)?;
            if p4 != n {
                return Err(IggyError::MalformedPayload);
            }
            Ok(Command::CreateConsumerGroup { stream_id, topic_id, group_id, name })
        } else if code == CODE_DELETE_CONSUMER_GROUP {
            let (stream_id, p1) = take_id(payload, 0)?;
            let (topic_id, p2) = take_id(payload, p1)?;
            let (consumer_group_id, p3) = take_id(payload, p2)?;
            if p3 != n {
                return Err(IggyError::MalformedPayload);
            }
            Ok(
                Command::DeleteConsumerGroup(
                    DeleteConsumerGroup { stream_id, topic_id, consumer_group_id },
                ),
            )
        } else if code == CODE_SEND_MESSAGES {
            proof {
                reveal(spec_parse_send_messages);
            }
            let (stream_id, p1) = take_id(payload, 0)?;
            let (topic_id, p2) = take_id(payload, p1)?;
            let (partitioning, p3) = take_partitioning(payload, p2)?;
            let (count, p4) = take_u32(payload, p3)?;
            let ghost sbase = s.skip(p4 as int);
            let mut messages: Vec<Message> = Vec::new();
            let mut pos = p4;
            let mut i: u32 = 0;
            proof {
                assert(sbase.skip(0) =~= sbase);
                assert(messages@.map_values(|m: Message| m@) =~= Seq::<MessageView>::empty());
            }
            while i < count
                invariant
                    0 <= i <= count,
                    p4 <= pos <= s.len(),
                    s.skip(pos as int) =~= sbase.skip(pos - p4),
                    messages@.len() == i,
                    forall|k: int|
                        0 <= k < messages@.len() ==> wf_message(#[trigger] messages@[k]@),
                    spec_parse_frames(sbase, count as nat) is Some <==> spec_parse_frames(
                        s.skip(pos as int),
                        (count - i) as nat,
                    ) is Some,
                    spec_parse_frames(sbase, count as nat) is Some
                        ==> spec_parse_frames(sbase, count as nat)->Some_0.0 == messages@.map_values(
                        |m: Message| m@,
                    ) + spec_parse_frames(s.skip(pos as int), (count - i) as nat)->Some_0.0
                        && spec_parse_frames(sbase, count as nat)->Some_0.1 == (pos - p4)
                        + spec_parse_frames(s.skip(pos as int), (count - i) as nat)->Some_0.1,
                decreases count - i,
            {
                let ghost rem = s.skip(pos as int);
                match Message::parse_frame(payload, pos) {
                    Ok((m, next)) => {
                        proof {
                            let (mv, fl) = spec_parse_frame(rem)->Some_0;
                            assert(rem.skip(fl) =~= s.skip(next as int));
                            if spec_parse_frames(sbase, count as nat) is Some {
                                let (t2, c2) = spec_parse_frames(
                                    s.skip(next as int),
                                    (count - i - 1) as nat,
                                )->Some_0;
                                assert(spec_parse_frames(rem, (count - i) as nat)->Some_0.0
                                    =~= seq![mv] + t2);
                                assert(messages@.map_values(|x: Message| x@).push(mv)
                                    =~= messages@.push(m).map_values(|x: Message| x@));
                                assert(messages@.map_values(|x: Message| x@) + (seq![mv] + t2)
                                    =~= messages@.push(m).map_values(|x: Message| x@) + t2);
                            }
                        }
                        messages.push(m);
                        pos = next;
                        i = i + 1;
                    },
                    Err(_) => {
                        return Err(IggyError::MalformedPayload);
                    },
                }
            }
            proof {
                assert(spec_parse_frames(s.skip(pos as int), 0) == Some(
                    (Seq::<MessageView>::empty(), 0int),
                ));
                if spec_parse_frames(sbase, count as nat) is Some {
                    assert(spec_parse_frames(sbase, count as nat)->Some_0.0
                        =~= messages@.map_values(|m: Message| m@));
                }
            }
            if pos != n {
                return Err(IggyError::MalformedPayload);
            }
            let c = Command::SendMessages(
                SendMessages { stream_id, topic_id, partitioning, messages },
            );
            proof {
                assert(c@ =~= spec_parse_cmd(code, s)->Some_0);
            }
            Ok(c)
        } else if code == CODE_POLL_MESSAGES {
            proof {
                reveal(spec_parse_poll_messages);
            }
            let (consumer, p1) = take_consumer(payload, 0)?;
            let (stream_id, p2) = take_id(payload, p1)?;
            let (topic_id, p3) = take_id(payload, p2)?;
            let (partition_id, p4) = take_u32(payload, p3)?;
            let (strategy, p5) = take_strategy(payload, p4)?;
            let (count, p6) = take_u32(payload, p5)?;
            if p6 + 1 != n {
                return Err(IggyError::MalformedPayload);
            }
            let b = payload[p6];
            proof {
                assert(b == s[p6 as int]);
            }
            if b != 0 && b != 1 {
                return Err(IggyError::MalformedPayload);
            }
            Ok(
                Command::PollMessages(
                    PollMessages {
                        consumer,
                        stream_id,
                        topic_id,
                        partition_id,
                        strategy,
                        count,
                        auto_commit: b == 1,
                    },
                ),
            )
        } else if code == CODE_STORE_CONSUMER_OFFSET {
            let (consumer, p1) = take_consumer(payload, 0)?;
            let (stream_id, p2) = take_id(payload, p1)?;
            let (topic_id, p3) = take_id(payload, p2)?;
            let (partition_id, p4) = take_u32(payload, p3)?;
            let (offset, p5) = take_u64(payload, p4)?;
            if p5 != n {
                return Err(IggyError::MalformedPayload);
            }
            Ok(Command::StoreConsumerOffset { consumer, stream_id, topic_id, partition_id, offset })
        } else if code == CODE_CREATE_USER {
            let (username, p1) = take_bytes8(payload, 0)?;
            let (password, p2) = take_bytes8(payload, p1)?;
            if p2 + 1 != n {
                return Err(IggyError::MalformedPayload);
            }
            let b = payload[p2];
            proof {
                assert(b == s[p2 as int]);
            }
            if b != 1 && b != 2 {
                return Err(IggyError::MalformedPayload);
            }
            Ok(
                Command::CreateUser {
                    username,
                    password,
                    status: if b == 1 {
                        UserStatus::Active
                    } else {
                        UserStatus::Inactive
                    },
                },
            )
        } else if code == CODE_DELETE_USER {
            let (user_id, p1) = take_id(payload, 0)?;
            if p1 != n {
                return Err(IggyError::MalformedPayload);
            }
            Ok(Command::DeleteUser(DeleteUser { user_id }))
        } else if code == CODE_CHANGE_PASSWORD {
            let (user_id, p1) = take_id(payload, 0)?;
            let (current_password, p2) = take_bytes8(payload, p1)?;
            let (new_password, p3) = take_bytes8(payload, p2)?;
            if p3 != n {
                return Err(IggyError::MalformedPayload);
            }
            Ok(Command::ChangePassword(ChangePassword { user_id, current_password, new_password }))
        } else {
            Err(IggyError::InvalidCommand)
        }
    }
}

impl GetTopics {
    /// A `GetTopics` payload is always semantically valid.
    pub fn validate(&self) -> (r: Result<(), IggyError>)
        ensures
            r is Ok,
    {
        Ok(())
    }

    /// The payload bytes: the stream identifier alone.
    pub fn as_bytes(&self) -> (r: Vec<u8>)
        requires
            self.stream_id.wf(),
        ensures
            r@ == spec_id_bytes(self.stream_id@),
    {
        self.stream_id.as_bytes()
    }

    /// Parses the payload: fewer than three bytes cannot hold an
    /// identifier; otherwise the identifier at the front decides.
    pub fn from_bytes(bytes: &[u8]) -> (r: Result<GetTopics, IggyError>)
        ensures
            bytes@.len() < 3 ==> r == Result::<GetTopics, IggyError>::Err(IggyError::InvalidCommand),
            bytes@.len() >= 3 ==> {
                &&& (r is Ok <==> spec_parse_id(bytes@) is Some)
                &&& (r is Ok ==> r->Ok_0.stream_id@ == spec_parse_id(bytes@)->Some_0.0
                    && r->Ok_0.stream_id.wf())
                &&& (r is Err ==> r == Result::<GetTopics, IggyError>::Err(
                    IggyError::InvalidIdentifier,
                ))
            },
    {
        if bytes.len() < 3 {
            return Err(IggyError::InvalidCommand);
        }
        match Identifier::from_bytes(bytes) {
            Ok(stream_id) => Ok(GetTopics { stream_id }),
            Err(e) => Err(e),
        }
    }
}

impl LogoutUser {
    /// A `LogoutUser` payload is always semantically valid.
    pub fn validate(&self) -> (r: Result<(), IggyError>)
        ensures
            r is Ok,
    {
        Ok(())
    }

    /// The payload bytes: none.
    pub fn as_bytes(&self) -> (r: Vec<u8>)
        ensures
            r@ == Seq::<u8>::empty(),
    {
        Vec::new()
    }

    /// Parses the payload, which must be empty.
    pub fn from_bytes(bytes: &[u8]) -> (r: Result<LogoutUser, IggyError>)
        ensures
            r is Ok <==> bytes@.len() == 0,
            r is Err ==> r == Result::<LogoutUser, IggyError>::Err(IggyError::InvalidCommand),
    {
        if bytes.len() != 0 {
            return Err(IggyError::InvalidCommand);
        }
        Ok(LogoutUser {})
    }
}

/// Law: decoding what a command encodes yields the command back, for every
/// command variant — the codec loses nothing.
proof fn lemma_rt_create_topic(c: &Command)
    requires
        wf_command(c),
        c is CreateTopic,
    ensures
        spec_parse_cmd(spec_cmd_code(c@), spec_cmd_payload(c@)) == Some(c@),
{
    let s = spec_cmd_payload(c@);
    lemma_auto_spec_u32_to_from_le_bytes();
    match c {
        Command::CreateTopic { stream_id, topic_id, partitions_count, name } => {
            let r1 = spec_u32_to_le_bytes(*topic_id) + spec_u32_to_le_bytes(*partitions_count)
                + spec_bytes8(name@);
            crate::identifier::lemma_id_round_trip(stream_id@, r1);
            let n1 = spec_id_bytes(stream_id@).len() as int;
            assert(s =~= spec_id_bytes(stream_id@) + r1);
            assert(s.skip(n1) =~= r1);
            lemma_u32_round_trip(*topic_id, spec_u32_to_le_bytes(*partitions_count) + spec_bytes8(name@));
            assert(r1 =~= spec_u32_to_le_bytes(*topic_id) + (spec_u32_to_le_bytes(
                *partitions_count,
            ) + spec_bytes8(name@)));
            assert(s.skip(n1 + 4) =~= spec_u32_to_le_bytes(*partitions_count) + spec_bytes8(name@));
            lemma_u32_round_trip(*partitions_count, spec_bytes8(name@));
            assert(s.skip(n1 + 8) =~= spec_bytes8(name@));
            lemma_bytes8_round_trip(name@, Seq::empty());
            assert(spec_bytes8(name@) + Seq::<u8>::empty() =~= spec_bytes8(name@));
        },
        _ => {},
    }
}

proof fn lemma_rt_create_group(c: &Command)
    requires
        wf_command(c),
        c is CreateConsumerGroup,
    ensures
        spec_parse_cmd(spec_cmd_code(c@), spec_cmd_payload(c@)) == Some(c@),
{
    let s = spec_cmd_payload(c@);
    lemma_auto_spec_u32_to_from_le_bytes();
    match c {
        Command::CreateConsumerGroup { stream_id, topic_id, group_id, name } => {
            let r1 = spec_id_bytes(topic_id@) + spec_u32_to_le_bytes(*group_id) + spec_bytes8(
                name@,
            );
            crate::identifier::lemma_id_round_trip(stream_id@, r1);
            let n1 = spec_id_bytes(stream_id@).len() as int;
            assert(s =~= spec_id_bytes(stream_id@) + r1);
            assert(s.skip(n1) =~= r1);
            let r2 = spec_u32_to_le_bytes(*group_id) + spec_bytes8(name@);
            crate::identifier::lemma_id_round_trip(topic_id@, r2);
            assert(r1 =~= spec_id_bytes(topic_id@) + r2);
            let n2 = spec_id_bytes(topic_id@).len() as int;
            assert(s.skip(n1 + n2) =~= r2);
            lemma_u32_round_trip(*group_id, spec_bytes8(name@));
            assert(s.skip(n1 + n2 + 4) =~= spec_bytes8(name@));
            lemma_bytes8_round_trip(name@, Seq::empty());
            assert(spec_bytes8(name@) + Seq::<u8>::empty() =~= spec_bytes8(name@));
        },
        _ => {},
    }
}

#[verifier::rlimit(100)]
#[verifier::spinoff_prover]
proof fn lemma_rt_send(c: &Command)
    requires
        wf_command(c),
        c is SendMessages,
    ensures
        spec_parse_cmd(spec_cmd_code(c@), spec_cmd_payload(c@)) == Some(c@),
{
    reveal(spec_parse_send_messages);
    let s = spec_cmd_payload(c@);
    match c {
        Command::SendMessages(sm) => {
            let views = sm.messages@.map_values(|m: Message| m@);
            let frames = crate::message::spec_log_bytes(views);
            assert(spec_u32_to_le_bytes(views.len() as u32).len() == 4) by {
                lemma_auto_spec_u32_to_from_le_bytes();
            }
            let r3 = spec_u32_to_le_bytes(views.len() as u32) + frames;
            let r2 = spec_partitioning_bytes(sm.partitioning@) + r3;
            let r1 = spec_id_bytes(sm.topic_id@) + r2;
            let n1 = spec_id_bytes(sm.stream_id@).len() as int;
            let n2 = spec_id_bytes(sm.topic_id@).len() as int;
            let n3 = spec_partitioning_bytes(sm.partitioning@).len() as int;
            crate::identifier::lemma_id_round_trip(sm.stream_id@, r1);
            assert(s.skip(n1) =~= r1);
            crate::identifier::lemma_id_round_trip(sm.topic_id@, r2);
            assert(r1.skip(n2) =~= r2);
            assert(s.skip(n1 + n2) =~= r2);
            lemma_partitioning_round_trip(sm.partitioning@, r3);
            assert(r2.skip(n3) =~= r3);
            assert(s.skip(n1 + n2 + n3) =~= r3);
            lemma_u32_round_trip(views.len() as u32, frames);
            assert(r3.skip(4) =~= frames);
            assert(s.skip(n1 + n2 + n3 + 4) =~= frames);
            assert(frames + Seq::<u8>::empty() =~= frames);
            lemma_frames_round_trip(views, Seq::empty());
            assert((views.len() as u32) as nat == views.len());
        },
        _ => {},
    }
}

#[verifier::rlimit(100)]
#[verifier::spinoff_prover]
proof fn lemma_rt_poll(c: &Command)
    requires
        wf_command(c),
        c is PollMessages,
    ensures
        spec_parse_cmd(spec_cmd_code(c@), spec_cmd_payload(c@)) == Some(c@),
{
    reveal(spec_parse_poll_messages);
    let s = spec_cmd_payload(c@);
    match c {
        Command::PollMessages(p) => {
            let flag = seq![if p.auto_commit { 1u8 } else { 0u8 }];
            assert(spec_consumer_bytes(p.consumer).len() == 9 && spec_u32_to_le_bytes(
                p.partition_id,
            ).len() == 4 && spec_u32_to_le_bytes(p.count).len() == 4) by {
                lemma_auto_spec_u32_to_from_le_bytes();
            }
            assert(spec_strategy_bytes(p.strategy).len() == 9) by {
                lemma_auto_spec_u64_to_from_le_bytes();
            }
            let r5 = spec_u32_to_le_bytes(p.count) + flag;
            let r4 = spec_strategy_bytes(p.strategy) + r5;
            let r3 = spec_u32_to_le_bytes(p.partition_id) + r4;
            let r2 = spec_id_bytes(p.topic_id@) + r3;
            let r1 = spec_id_bytes(p.stream_id@) + r2;
            let n2 = spec_id_bytes(p.stream_id@).len() as int;
            let n3 = spec_id_bytes(p.topic_id@).len() as int;
            lemma_consumer_round_trip(p.consumer, r1);
            assert(s.skip(9) =~= r1);
            crate::identifier::lemma_id_round_trip(p.stream_id@, r2);
            assert(r1.skip(n2) =~= r2);
            assert(s.skip(9 + n2) =~= r2);
            crate::identifier::lemma_id_round_trip(p.topic_id@, r3);
            assert(r2.skip(n3) =~= r3);
            assert(s.skip(9 + n2 + n3) =~= r3);
            lemma_u32_round_trip(p.partition_id, r4);
            assert(r3.skip(4) =~= r4);
            assert(s.skip(9 + n2 + n3 + 4) =~= r4);
            lemma_strategy_round_trip(p.strategy, r5);
            assert(r4.skip(9) =~= r5);
            assert(s.skip(9 + n2 + n3 + 4 + 9) =~= r5);
            lemma_u32_round_trip(p.count, flag);
            assert(r5.skip(4) =~= flag);
            assert(s.len() == 9 + n2 + n3 + 4 + 9 + 4 + 1);
            assert(s[s.len() - 1] == flag[0]);
        },
        _ => {},
    }
}

#[verifier::rlimit(100)]
#[verifier::spinoff_prover]
proof fn lemma_rt_store_offset(c: &Command)
    requires
        wf_command(c),
        c is StoreConsumerOffset,
    ensures
        spec_parse_cmd(spec_cmd_code(c@), spec_cmd_payload(c@)) == Some(c@),
{
    let s = spec_cmd_payload(c@);
    lemma_auto_spec_u32_to_from_le_bytes();
    lemma_auto_spec_u64_to_from_le_bytes();
    match c {
        Command::StoreConsumerOffset { consumer, stream_id, topic_id, partition_id, offset } => {
            assert(spec_consumer_bytes(*consumer).len() == 9 && spec_u32_to_le_bytes(
                *partition_id,
            ).len() == 4) by {
                lemma_auto_spec_u32_to_from_le_bytes();
            }
            let r4 = spec_u32_to_le_bytes(*partition_id) + spec_u64_to_le_bytes(*offset);
            let r3 = spec_id_bytes(topic_id@) + r4;
            let r2 = spec_id_bytes(stream_id@) + r3;
            let n2 = spec_id_bytes(stream_id@).len() as int;
            let n3 = spec_id_bytes(topic_id@).len() as int;
            lemma_consumer_round_trip(*consumer, r2);
            assert(s.skip(9) =~= r2);
            crate::identifier::lemma_id_round_trip(stream_id@, r3);
            assert(r2.skip(n2) =~= r3);
            assert(s.skip(9 + n2) =~= r3);
            crate::identifier::lemma_id_round_trip(topic_id@, r4);
            assert(r3.skip(n3) =~= r4);
            assert(s.skip(9 + n2 + n3) =~= r4);
            lemma_u32_round_trip(*partition_id, spec_u64_to_le_bytes(*offset));
            assert(r4.skip(4) =~= spec_u64_to_le_bytes(*offset));
            assert(s.skip(9 + n2 + n3 + 4) =~= spec_u64_to_le_bytes(*offset));
            lemma_u64_round_trip(*offset, Seq::empty());
            assert(spec_u64_to_le_bytes(*offset) + Seq::<u8>::empty() =~= spec_u64_to_le_bytes(
                *offset,
            ));
        },
        _ => {},
    }
}

#[verifier::rlimit(100)]
#[verifier::spinoff_prover]
pub proof fn lemma_cmd_round_trip(c: &Command)
    requires
        wf_command(c),
    ensures
        spec_parse_cmd(spec_cmd_code(c@), spec_cmd_payload(c@)) == Some(c@),
{
    let s = spec_cmd_payload(c@);
    lemma_auto_spec_u32_to_from_le_bytes();
    lemma_auto_spec_u64_to_from_le_bytes();
    match c {
        Command::Ping => {},
        Command::GetMe(_) => {},
        Command::LoginUser { username, password } => {
            lemma_bytes8_round_trip(username@, spec_bytes8(password@));
            assert(s.skip(username@.len() as int + 1) =~= spec_bytes8(password@));
            lemma_bytes8_round_trip(password@, Seq::empty());
            assert(spec_bytes8(password@) + Seq::<u8>::empty() =~= spec_bytes8(password@));
        },
        Command::LogoutUser(_) => {},
        Command::GetStreams => {},
        Command::GetTopics(g) => {
            crate::identifier::lemma_id_round_trip(g.stream_id@, Seq::empty());
            assert(spec_id_bytes(g.stream_id@) + Seq::<u8>::empty() =~= spec_id_bytes(
                g.stream_id@,
            ));
        },
        Command::CreateStream(cs) => {
            lemma_u32_round_trip(cs.stream_id, spec_bytes8(cs.name@));
            assert(s.skip(4) =~= spec_bytes8(cs.name@));
            lemma_bytes8_round_trip(cs.name@, Seq::empty());
            assert(spec_bytes8(cs.name@) + Seq::<u8>::empty() =~= spec_bytes8(cs.name@));
        },
        Command::DeleteStream { stream_id } => {
            crate::identifier::lemma_id_round_trip(stream_id@, Seq::empty());
            assert(spec_id_bytes(stream_id@) + Seq::<u8>::empty() =~= spec_id_bytes(stream_id@));
        },
        Command::CreateTopic { stream_id, topic_id, partitions_count, name } => {
            lemma_rt_create_topic(c);
        },
        Command::DeleteTopic { stream_id, topic_id } => {
            crate::identifier::lemma_id_round_trip(stream_id@, spec_id_bytes(topic_id@));
            let n1 = spec_id_bytes(stream_id@).len() as int;
            assert(s.skip(n1) =~= spec_id_bytes(topic_id@));
            crate::identifier::lemma_id_round_trip(topic_id@, Seq::empty());
            assert(spec_id_bytes(topic_id@) + Seq::<u8>::empty() =~= spec_id_bytes(topic_id@));
        },
        Command::CreateConsumerGroup { stream_id, topic_id, group_id, name } => {
            lemma_rt_create_group(c);
        },
        Command::DeleteConsumerGroup(d) => {
            let r1 = spec_id_bytes(d.topic_id@) + spec_id_bytes(d.consumer_group_id@);
            crate::identifier::lemma_id_round_trip(d.stream_id@, r1);
            let n1 = spec_id_bytes(d.stream_id@).len() as int;
            assert(s =~= spec_id_bytes(d.stream_id@) + r1);
            assert(s.skip(n1) =~= r1);
            crate::identifier::lemma_id_round_trip(d.topic_id@, spec_id_bytes(d.consumer_group_id@));
            let n2 = spec_id_bytes(d.topic_id@).len() as int;
            assert(s.skip(n1 + n2) =~= spec_id_bytes(d.consumer_group_id@));
            crate::identifier::lemma_id_round_trip(d.consumer_group_id@, Seq::empty());
            assert(spec_id_bytes(d.consumer_group_id@) + Seq::<u8>::empty() =~= spec_id_bytes(
                d.consumer_group_id@,
            ));
        },
        Command::SendMessages(sm) => {
            lemma_rt_send(c);
        },
        Command::PollMessages(p) => {
            lemma_rt_poll(c);
        },
        Command::StoreConsumerOffset { consumer, stream_id, topic_id, partition_id, offset } => {
            lemma_rt_store_offset(c);
        },
        Command::CreateUser { username, password, status } => {
            let flag = seq![spec_status_byte(*status)];
            lemma_bytes8_round_trip(username@, spec_bytes8(password@) + flag);
            assert(s =~= spec_bytes8(username@) + (spec_bytes8(password@) + flag));
            assert(s.skip(username@.len() as int + 1) =~= spec_bytes8(password@) + flag);
            lemma_bytes8_round_trip(password@, flag);
            assert(s.len() == username@.len() + 1 + password@.len() + 1 + 1);
            assert(s[s.len() - 1] == spec_status_byte(*status));
        },
        Command::DeleteUser(d) => {
            crate::identifier::lemma_id_round_trip(d.user_id@, Seq::empty());
            assert(spec_id_bytes(d.user_id@) + Seq::<u8>::empty() =~= spec_id_bytes(d.user_id@));
        },
        Command::ChangePassword(cp) => {
            let r1 = spec_bytes8(cp.current_password@) + spec_bytes8(cp.new_password@);
            crate::identifier::lemma_id_round_trip(cp.user_id@, r1);
            let n1 = spec_id_bytes(cp.user_id@).len() as int;
            assert(s =~= spec_id_bytes(cp.user_id@) + r1);
            assert(s.skip(n1) =~= r1);
            lemma_bytes8_round_trip(cp.current_password@, spec_bytes8(cp.new_password@));
            assert(s.skip(n1 + cp.current_password@.len() as int + 1) =~= spec_bytes8(cp.new_password@));
            lemma_bytes8_round_trip(cp.new_password@, Seq::empty());
            assert(spec_bytes8(cp.new_password@) + Seq::<u8>::empty() =~= spec_bytes8(
                cp.new_password@,
            ));
        },
    }
}

// ---------------------------------------------------------------------------
// framing
// ---------------------------------------------------------------------------

/// The request frame of a command: a 4-byte total length counting the code
/// and the payload, the 4-byte code, and the payload.
pub open spec fn spec_request_frame(v: CommandView) -> Seq<u8> {
    let payload = spec_cmd_payload(v);
    spec_u32_to_le_bytes((payload.len() + 4) as u32) + spec_u32_to_le_bytes(spec_cmd_code(v))
        + payload
}

impl Command {
    /// Encodes the whole request frame; a payload too large for the length
    /// field is refused.
    pub fn encode_request(&self) -> (r: Result<Vec<u8>, IggyError>)
        requires
            wf_command(self),
        ensures
            r is Ok <==> spec_cmd_payload(self@).len() + 4 <= u32::MAX,
            r is Err ==> r == Result::<Vec<u8>, IggyError>::Err(IggyError::TooLargePayload),
            r is Ok ==> r->Ok_0@ == spec_request_frame(self@),
    {
        let payload = self.payload_bytes();
        if payload.len() > (u32::MAX - 4) as usize {
            return Err(IggyError::TooLargePayload);
        }
        let mut frame: Vec<u8> = Vec::new();
        put_u32_le(&mut frame, payload.len() as u32 + 4);
        put_u32_le(&mut frame, self.code());
        frame.extend_from_slice(payload.as_slice());
        proof {
            assert(frame@ =~= spec_request_frame(self@));
        }
        Ok(frame)
    }

    /// Decodes the body of a request frame — the code and the payload, with
    /// the length prefix already consumed by the transport.
    pub fn from_bytes(body: &[u8]) -> (r: Result<Command, IggyError>)
        ensures
            body@.len() < 4 ==> r == Result::<Command, IggyError>::Err(IggyError::InvalidCommand),
            body@.len() >= 4 ==> {
                let code = spec_u32_from_le_bytes(body@.subrange(0, 4));
                let payload = body@.skip(4);
                &&& (r is Ok <==> spec_parse_cmd(code, payload) is Some)
                &&& (r is Ok ==> r->Ok_0@ == spec_parse_cmd(code, payload)->Some_0 && wf_command(
                    &r->Ok_0,
                ))
                &&& (r is Err ==> r == Result::<Command, IggyError>::Err(
                    if spec_known_code(code) {
                        IggyError::MalformedPayload
                    } else {
                        IggyError::InvalidCommand
                    },
                ))
            },
    {
        if body.len() < 4 {
            return Err(IggyError::InvalidCommand);
        }
        let code = read_u32_le(body, 0);
        let payload = slice_subrange(body, 4, body.len());
        proof {
            assert(body@.subrange(0, 4) =~= body@.subrange(0int, 4int));
            assert(payload@ =~= body@.skip(4));
        }
        Command::from_code_and_payload(code, payload)
    }
}

/// The response frame for a status and a payload: `u32 status` then
/// `u32 payload_length` then the payload. Status 0 means OK.
pub open spec fn spec_response_frame(status: u32, payload: Seq<u8>) -> Seq<u8> {
    spec_u32_to_le_bytes(status) + spec_u32_to_le_bytes(payload.len() as u32) + payload
}

/// Encodes a response frame; a payload too large for the length field is
/// truncated to nothing (status alone still tells the caller what happened).
pub fn encode_response(status: u32, payload: &Vec<u8>) -> (r: Vec<u8>)
    ensures
        payload@.len() <= u32::MAX ==> r@ == spec_response_frame(status, payload@),
        payload@.len() > u32::MAX ==> r@ == spec_response_frame(status, Seq::<u8>::empty()),
{
    let mut frame: Vec<u8> = Vec::new();
    put_u32_le(&mut frame, status);
    if payload.len() > u32::MAX as usize {
        put_u32_le(&mut frame, 0);
        proof {
            assert(frame@ =~= spec_response_frame(status, Seq::<u8>::empty()));
        }
        return frame;
    }
    put_u32_le(&mut frame, payload.len() as u32);
    frame.extend_from_slice(payload.as_slice());
    proof {
        assert(frame@ =~= spec_response_frame(status, payload@));
    }
    frame
}

/// Reads the status and payload length out of the 8-byte response header, as
/// a client does before deciding whether to read a body: fewer than 8 bytes
/// is an empty response, and a non-zero status is the server's error code.
pub fn parse_response_header(header: &[u8]) -> (r: Result<(u32, u32), IggyError>)
    ensures
        r is Ok <==> header@.len() >= 8,
        r is Err ==> r == Result::<(u32, u32), IggyError>::Err(IggyError::EmptyResponse),
        r is Ok ==> r->Ok_0.0 == spec_u32_from_le_bytes(header@.subrange(0, 4)) && r->Ok_0.1
            == spec_u32_from_le_bytes(header@.subrange(4, 8)),
{
    if header.len() < 8 {
        return Err(IggyError::EmptyResponse);
    }
    let status = read_u32_le(header, 0);
    let length = read_u32_le(header, 4);
    Ok((status, length))
}

/// What a client does with a response header: a non-zero status is the
/// server's error; a body of at most one byte carries nothing.
pub fn response_body_action(status: u32, length: u32) -> (r: Result<Option<u32>, IggyError>)
    ensures
        status != 0 ==> r == Result::<Option<u32>, IggyError>::Err(IggyError::InvalidResponse(
            status,
        )),
        status == 0 && length <= 1 ==> r == Result::<Option<u32>, IggyError>::Ok(
            Option::<u32>::None,
        ),
        status == 0 && length > 1 ==> r == Result::<Option<u32>, IggyError>::Ok(Some(length)),
{
    if status != 0 {
        Err(IggyError::InvalidResponse(status))
    } else if length <= 1 {
        Ok(None)
    } else {
        Ok(Some(length))
    }
}

} // verus!
