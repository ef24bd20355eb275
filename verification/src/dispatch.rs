//! The command dispatcher: consumer-group and partition administration on
//! the engine, the response payload encodings, and the single entry point
//! that takes a session and a decoded command to an engine operation and a
//! status/payload pair. Every command but ping, login and "who am I"
//! requires an authenticated session, and each is gated by the user's
//! permission flags.

use crate::command::{spec_bytes8, Command, CommandView, SendMessages, UserStatus};
use crate::identifier::IdView;
use crate::message::wf_message;
use crate::partition::PollStrategy;
use crate::system::{
    spec_all_permissions, spec_max_user_id, spec_no_permissions, spec_root_username,
    spec_stream_exists, spec_user_exists, spec_user_index, spec_user_name_index, spec_user_named,
    User,
};
use crate::stream::{id_matches, spec_create_topic_effect, spec_delete_topic_effect,
    spec_topic_exists};
use crate::topic::spec_send_effect;
use crate::topic::spec_topic_poll_effect;
use crate::encoding::fnv1a64_of;
use vstd::bytes::spec_u32_from_le_bytes;
use crate::encoding::put_u32_le;
use crate::error::{IggyError, ResourceKind};
use crate::identifier::Identifier;
use crate::message::{spec_log_bytes, Message, MessageView};
use crate::partition::Consumer;
use crate::stream::{wf_stream, Stream};
use crate::system::{
    lemma_wf_after_topic_update, spec_authenticated, spec_find_err, spec_only_topic_changed,
    spec_session_of, spec_stream_index, wf_system, Permissions, Session, System,
};
use crate::stream::spec_topic_index;
use crate::topic::{
    spec_add_partitions_effect, spec_create_group_effect, spec_delete_group_effect,
    spec_delete_partitions_effect, spec_join_group_effect, spec_leave_group_effect,
    spec_topic_store_effect,
};
use crate::topic::Topic;
use vstd::bytes::spec_u32_to_le_bytes;
use vstd::prelude::*;

verus! {

impl System {
    /// Creates a consumer group on the topic the identifiers pick out.
    pub fn create_consumer_group(&mut self, stream_id: &Identifier, topic_id: &Identifier, group_id: u32, name: Vec<u8>) -> (r: Result<
        (),
        IggyError,
    >)
        requires
            wf_system(old(self)),
            stream_id.wf(),
            topic_id.wf(),
        ensures
            wf_system(final(self)),
            final(self).users@ == old(self).users@,
            final(self).sessions@ == old(self).sessions@,
            final(self).config == old(self).config,
            match spec_find_err(old(self).streams@, stream_id@, topic_id@) {
                Some(e) => r == Result::<(), IggyError>::Err(e) && final(self).streams@ == old(
                    self,
                ).streams@,
                None => {
                    let si = spec_stream_index(old(self).streams@, stream_id@);
                    let ti = spec_topic_index(old(self).streams@[si].topics@, topic_id@);
                    &&& spec_only_topic_changed(old(self), final(self), si, ti)
                    &&& spec_create_group_effect(
                        &old(self).streams@[si].topics@[ti],
                        &final(self).streams@[si].topics@[ti],
                        group_id,
                        name@,
                        r,
                    )
                },
            },
    {
        let (si, ti) = match self.find_stream_topic(stream_id, topic_id) {
            Ok(p) => p,
            Err(e) => {
                return Err(e);
            },
        };
        let st = &mut self.streams[si];
        let t = &mut st.topics[ti];
        let r = t.create_consumer_group(group_id, name);
        proof {
            lemma_wf_after_topic_update(old(self), self, si as int, ti as int);
        }
        r
    }

    /// Deletes a consumer group from the topic the identifiers pick out.
    pub fn delete_consumer_group(&mut self, stream_id: &Identifier, topic_id: &Identifier, group_id: u32) -> (r: Result<
        (),
        IggyError,
    >)
        requires
            wf_system(old(self)),
            stream_id.wf(),
            topic_id.wf(),
        ensures
            wf_system(final(self)),
            final(self).users@ == old(self).users@,
            final(self).sessions@ == old(self).sessions@,
            final(self).config == old(self).config,
            match spec_find_err(old(self).streams@, stream_id@, topic_id@) {
                Some(e) => r == Result::<(), IggyError>::Err(e) && final(self).streams@ == old(
                    self,
                ).streams@,
                None => {
                    let si = spec_stream_index(old(self).streams@, stream_id@);
                    let ti = spec_topic_index(old(self).streams@[si].topics@, topic_id@);
                    &&& spec_only_topic_changed(old(self), final(self), si, ti)
                    &&& spec_delete_group_effect(
                        &old(self).streams@[si].topics@[ti],
                        &final(self).streams@[si].topics@[ti],
                        group_id,
                        r,
                    )
                },
            },
    {
        let (si, ti) = match self.find_stream_topic(stream_id, topic_id) {
            Ok(p) => p,
            Err(e) => {
                return Err(e);
            },
        };
        let st = &mut self.streams[si];
        let t = &mut st.topics[ti];
        let r = t.delete_consumer_group(group_id);
        proof {
            lemma_wf_after_topic_update(old(self), self, si as int, ti as int);
        }
        r
    }

    /// Adds a consumer to a group of the topic the identifiers pick out.
    pub fn join_consumer_group(&mut self, stream_id: &Identifier, topic_id: &Identifier, group_id: u32, consumer_id: u32) -> (r: Result<
        (),
        IggyError,
    >)
        requires
            wf_system(old(self)),
            stream_id.wf(),
            topic_id.wf(),
        ensures
            wf_system(final(self)),
            final(self).users@ == old(self).users@,
            final(self).sessions@ == old(self).sessions@,
            final(self).config == old(self).config,
            match spec_find_err(old(self).streams@, stream_id@, topic_id@) {
                Some(e) => r == Result::<(), IggyError>::Err(e) && final(self).streams@ == old(
                    self,
                ).streams@,
                None => {
                    let si = spec_stream_index(old(self).streams@, stream_id@);
                    let ti = spec_topic_index(old(self).streams@[si].topics@, topic_id@);
                    &&& spec_only_topic_changed(old(self), final(self), si, ti)
                    &&& spec_join_group_effect(
                        &old(self).streams@[si].topics@[ti],
                        &final(self).streams@[si].topics@[ti],
                        group_id,
                        consumer_id,
                        r,
                    )
                },
            },
    {
        let (si, ti) = match self.find_stream_topic(stream_id, topic_id) {
            Ok(p) => p,
            Err(e) => {
                return Err(e);
            },
        };
        let st = &mut self.streams[si];
        let t = &mut st.topics[ti];
        let r = t.join_consumer_group(group_id, consumer_id);
        proof {
            lemma_wf_after_topic_update(old(self), self, si as int, ti as int);
        }
        r
    }

    /// Removes a consumer from a group of the topic the identifiers pick out.
    pub fn leave_consumer_group(&mut self, stream_id: &Identifier, topic_id: &Identifier, group_id: u32, consumer_id: u32) -> (r: Result<
        (),
        IggyError,
    >)
        requires
            wf_system(old(self)),
            stream_id.wf(),
            topic_id.wf(),
        ensures
            wf_system(final(self)),
            final(self).users@ == old(self).users@,
            final(self).sessions@ == old(self).sessions@,
            final(self).config == old(self).config,
            match spec_find_err(old(self).streams@, stream_id@, topic_id@) {
                Some(e) => r == Result::<(), IggyError>::Err(e) && final(self).streams@ == old(
                    self,
                ).streams@,
                None => {
                    let si = spec_stream_index(old(self).streams@, stream_id@);
                    let ti = spec_topic_index(old(self).streams@[si].topics@, topic_id@);
                    &&& spec_only_topic_changed(old(self), final(self), si, ti)
                    &&& spec_leave_group_effect(
                        &old(self).streams@[si].topics@[ti],
                        &final(self).streams@[si].topics@[ti],
                        group_id,
                        consumer_id,
                        r,
                    )
                },
            },
    {
        let (si, ti) = match self.find_stream_topic(stream_id, topic_id) {
            Ok(p) => p,
            Err(e) => {
                return Err(e);
            },
        };
        let st = &mut self.streams[si];
        let t = &mut st.topics[ti];
        let r = t.leave_consumer_group(group_id, consumer_id);
        proof {
            lemma_wf_after_topic_update(old(self), self, si as int, ti as int);
        }
        r
    }

    /// Stores an acknowledged offset on one partition of the topic the identifiers pick out.
    pub fn store_consumer_offset(&mut self, stream_id: &Identifier, topic_id: &Identifier, partition_id: u32, consumer: Consumer, offset: u64) -> (r: Result<
        (),
        IggyError,
    >)
        requires
            wf_system(old(self)),
            stream_id.wf(),
            topic_id.wf(),
        ensures
            wf_system(final(self)),
            final(self).users@ == old(self).users@,
            final(self).sessions@ == old(self).sessions@,
            final(self).config == old(self).config,
            match spec_find_err(old(self).streams@, stream_id@, topic_id@) {
                Some(e) => r == Result::<(), IggyError>::Err(e) && final(self).streams@ == old(
                    self,
                ).streams@,
                None => {
                    let si = spec_stream_index(old(self).streams@, stream_id@);
                    let ti = spec_topic_index(old(self).streams@[si].topics@, topic_id@);
                    &&& spec_only_topic_changed(old(self), final(self), si, ti)
                    &&& spec_topic_store_effect(
                        &old(self).streams@[si].topics@[ti],
                        &final(self).streams@[si].topics@[ti],
                        partition_id,
                        consumer,
                        offset,
                        r,
                    )
                },
            },
    {
        let (si, ti) = match self.find_stream_topic(stream_id, topic_id) {
            Ok(p) => p,
            Err(e) => {
                return Err(e);
            },
        };
        let st = &mut self.streams[si];
        let t = &mut st.topics[ti];
        let r = t.store_consumer_offset(partition_id, consumer, offset);
        proof {
            lemma_wf_after_topic_update(old(self), self, si as int, ti as int);
        }
        r
    }

    /// Appends fresh partitions to the topic the identifiers pick out. The session must be authenticated and its user must hold the manage-topics flag; permission is explicit-allow, consulted before anything changes.
    pub fn create_partitions(
        &mut self,
        session: &Session,
        stream_id: &Identifier,
        topic_id: &Identifier,
        partitions_count: u32,
    ) -> (r: Result<(), IggyError>)
        requires
            wf_system(old(self)),
            stream_id.wf(),
            topic_id.wf(),
        ensures
            wf_system(final(self)),
            final(self).users@ == old(self).users@,
            final(self).sessions@ == old(self).sessions@,
            final(self).config == old(self).config,
            !session.authenticated ==> r == Result::<(), IggyError>::Err(IggyError::Unauthenticated)
                && final(self).streams@ == old(self).streams@,
            session.authenticated && !(spec_user_perms(old(self).users@, session.user_id) matches
            Some(p) && p.manage_topics) ==> r == Result::<(), IggyError>::Err(
                IggyError::Unauthorized,
            ) && final(self).streams@ == old(self).streams@,
            session.authenticated && (spec_user_perms(old(self).users@, session.user_id) matches
            Some(p) && p.manage_topics) ==> match spec_find_err(
                old(self).streams@,
                stream_id@,
                topic_id@,
            ) {
                Some(e) => r == Result::<(), IggyError>::Err(e) && final(self).streams@ == old(
                    self,
                ).streams@,
                None => {
                    let si = spec_stream_index(old(self).streams@, stream_id@);
                    let ti = spec_topic_index(old(self).streams@[si].topics@, topic_id@);
                    &&& spec_only_topic_changed(old(self), final(self), si, ti)
                    &&& spec_add_partitions_effect(
                        &old(self).streams@[si].topics@[ti],
                        &final(self).streams@[si].topics@[ti],
                        partitions_count,
                        r,
                    )
                },
            },
    {
        match self.ensure_authenticated(session) {
            Ok(()) => {},
            Err(e) => {
                return Err(e);
            },
        }
        let allowed = match self.user_permissions(session.user_id) {
            Some(p) => p.manage_topics,
            None => false,
        };
        if !allowed {
            return Err(IggyError::Unauthorized);
        }
        let (si, ti) = match self.find_stream_topic(stream_id, topic_id) {
            Ok(p) => p,
            Err(e) => {
                return Err(e);
            },
        };
        let st = &mut self.streams[si];
        let t = &mut st.topics[ti];
        let r = t.add_partitions(partitions_count);
        proof {
            lemma_wf_after_topic_update(old(self), self, si as int, ti as int);
        }
        r
    }

    /// Removes the highest-id partitions of the topic the identifiers pick out. The session must be authenticated and its user must hold the manage-topics flag; permission is explicit-allow, consulted before anything changes.
    pub fn delete_partitions(
        &mut self,
        session: &Session,
        stream_id: &Identifier,
        topic_id: &Identifier,
        partitions_count: u32,
    ) -> (r: Result<(), IggyError>)
        requires
            wf_system(old(self)),
            stream_id.wf(),
            topic_id.wf(),
        ensures
            wf_system(final(self)),
            final(self).users@ == old(self).users@,
            final(self).sessions@ == old(self).sessions@,
            final(self).config == old(self).config,
            !session.authenticated ==> r == Result::<(), IggyError>::Err(IggyError::Unauthenticated)
                && final(self).streams@ == old(self).streams@,
            session.authenticated && !(spec_user_perms(old(self).users@, session.user_id) matches
            Some(p) && p.manage_topics) ==> r == Result::<(), IggyError>::Err(
                IggyError::Unauthorized,
            ) && final(self).streams@ == old(self).streams@,
            session.authenticated && (spec_user_perms(old(self).users@, session.user_id) matches
            Some(p) && p.manage_topics) ==> match spec_find_err(
                old(self).streams@,
                stream_id@,
                topic_id@,
            ) {
                Some(e) => r == Result::<(), IggyError>::Err(e) && final(self).streams@ == old(
                    self,
                ).streams@,
                None => {
                    let si = spec_stream_index(old(self).streams@, stream_id@);
                    let ti = spec_topic_index(old(self).streams@[si].topics@, topic_id@);
                    &&& spec_only_topic_changed(old(self), final(self), si, ti)
                    &&& spec_delete_partitions_effect(
                        &old(self).streams@[si].topics@[ti],
                        &final(self).streams@[si].topics@[ti],
                        partitions_count,
                        r,
                    )
                },
            },
    {
        match self.ensure_authenticated(session) {
            Ok(()) => {},
            Err(e) => {
                return Err(e);
            },
        }
        let allowed = match self.user_permissions(session.user_id) {
            Some(p) => p.manage_topics,
            None => false,
        };
        if !allowed {
            return Err(IggyError::Unauthorized);
        }
        let (si, ti) = match self.find_stream_topic(stream_id, topic_id) {
            Ok(p) => p,
            Err(e) => {
                return Err(e);
            },
        };
        let st = &mut self.streams[si];
        let t = &mut st.topics[ti];
        let r = t.delete_partitions(partitions_count);
        proof {
            lemma_wf_after_topic_update(old(self), self, si as int, ti as int);
        }
        r
    }

    /// The permission flags of the user with the given id, if one exists.
    pub fn user_permissions(&self, user_id: u32) -> (r: Option<Permissions>)
        requires
            wf_system(self),
        ensures
            r == spec_user_perms(self.users@, user_id),
    {
        let mut i: usize = 0;
        while i < self.users.len()
            invariant
                wf_system(self),
                0 <= i <= self.users@.len(),
                forall|j: int| 0 <= j < i ==> (#[trigger] self.users@[j]).id != user_id,
            decreases self.users@.len() - i,
        {
            if self.users[i].id == user_id {
                proof {
                    let k = choose|k: int|
                        0 <= k < self.users@.len() && (#[trigger] self.users@[k]).id == user_id;
                    if k != i {
                        assert(self.users@[k].id != self.users@[i as int].id);
                    }
                }
                return Some(self.users[i].permissions);
            }
            i = i + 1;
        }
        None
    }

}

/// The permission flags of the user with the given id, if one exists.
pub open spec fn spec_user_perms(users: Seq<crate::system::User>, user_id: u32) -> Option<
    Permissions,
> {
    if exists|i: int| 0 <= i < users.len() && (#[trigger] users[i]).id == user_id {
        let i = choose|i: int| 0 <= i < users.len() && (#[trigger] users[i]).id == user_id;
        Some(users[i].permissions)
    } else {
        None
    }
}

/// Whether a command may run without an authenticated session: only ping,
/// login and "who am I" may.
pub open spec fn spec_login_required(v: CommandView) -> bool {
    !(v is Ping || v is LoginUser || v is GetMe)
}

/// Whether a command may run without an authenticated session.
pub fn login_required(c: &Command) -> (r: bool)
    ensures
        r == spec_login_required(c@),
{
    match c {
        Command::Ping => false,
        Command::LoginUser { .. } => false,
        Command::GetMe(_) => false,
        _ => true,
    }
}

/// Whether the permission flags allow a command: reads need the matching
/// read flag, writes the matching manage or send flag; a user may always try
/// to change a password (the current password still has to match), log in
/// and out, and ping.
pub open spec fn spec_permitted(p: Permissions, v: CommandView) -> bool {
    match v {
        CommandView::Ping => true,
        CommandView::GetMe => true,
        CommandView::LoginUser { .. } => true,
        CommandView::LogoutUser => true,
        CommandView::GetStreams => p.read_streams,
        CommandView::GetTopics { .. } => p.read_topics,
        CommandView::CreateStream { .. } => p.manage_streams,
        CommandView::DeleteStream { .. } => p.manage_streams,
        CommandView::CreateTopic { .. } => p.manage_topics,
        CommandView::DeleteTopic { .. } => p.manage_topics,
        CommandView::CreateConsumerGroup { .. } => p.manage_topics,
        CommandView::DeleteConsumerGroup { .. } => p.manage_topics,
        CommandView::SendMessages { .. } => p.send_messages,
        CommandView::PollMessages { .. } => p.poll_messages,
        CommandView::StoreConsumerOffset { .. } => p.poll_messages,
        CommandView::CreateUser { .. } => p.manage_users,
        CommandView::DeleteUser { .. } => p.manage_users,
        CommandView::ChangePassword { .. } => true,
    }
}

/// Whether the permission flags allow a command.
pub fn permitted(p: Permissions, c: &Command) -> (r: bool)
    ensures
        r == spec_permitted(p, c@),
{
    match c {
        Command::Ping => true,
        Command::GetMe(_) => true,
        Command::LoginUser { .. } => true,
        Command::LogoutUser(_) => true,
        Command::GetStreams => p.read_streams,
        Command::GetTopics(_) => p.read_topics,
        Command::CreateStream(_) => p.manage_streams,
        Command::DeleteStream { .. } => p.manage_streams,
        Command::CreateTopic { .. } => p.manage_topics,
        Command::DeleteTopic { .. } => p.manage_topics,
        Command::CreateConsumerGroup { .. } => p.manage_topics,
        Command::DeleteConsumerGroup(_) => p.manage_topics,
        Command::SendMessages(_) => p.send_messages,
        Command::PollMessages(_) => p.poll_messages,
        Command::StoreConsumerOffset { .. } => p.poll_messages,
        Command::CreateUser { .. } => p.manage_users,
        Command::DeleteUser(_) => p.manage_users,
        Command::ChangePassword(_) => true,
    }
}

/// One entry of the streams-list response: the stream's id, its topic
/// count, and its length-prefixed name.
pub open spec fn spec_stream_entry(s: &Stream) -> Seq<u8> {
    spec_u32_to_le_bytes(s.id) + spec_u32_to_le_bytes(s.topics@.len() as u32) + spec_bytes8(s.name@)
}

/// The entries of the streams-list response, in order.
pub open spec fn spec_stream_entries(streams: Seq<Stream>) -> Seq<u8>
    decreases streams.len(),
{
    if streams.len() == 0 {
        Seq::empty()
    } else {
        spec_stream_entry(&streams[0]) + spec_stream_entries(streams.skip(1))
    }
}

proof fn lemma_stream_entries_push(streams: Seq<Stream>, s: Stream)
    ensures
        spec_stream_entries(streams.push(s)) == spec_stream_entries(streams) + spec_stream_entry(
            &s,
        ),
    decreases streams.len(),
{
    if streams.len() == 0 {
        assert(streams.push(s)[0] == s);
        assert(streams.push(s).skip(1) =~= Seq::<Stream>::empty());
        assert(spec_stream_entries(Seq::<Stream>::empty()) == Seq::<u8>::empty());
        assert(spec_stream_entries(streams.push(s)) =~= spec_stream_entry(&s));
        assert(spec_stream_entries(streams) + spec_stream_entry(&s) =~= spec_stream_entry(&s));
    } else {
        assert(streams.push(s)[0] == streams[0]);
        assert(streams.push(s).skip(1) =~= streams.skip(1).push(s));
        lemma_stream_entries_push(streams.skip(1), s);
        assert(spec_stream_entries(streams.push(s)) =~= spec_stream_entries(streams)
            + spec_stream_entry(&s));
    }
}

/// The payload of a streams-list response: a count and the entries.
pub open spec fn spec_streams_payload(streams: Seq<Stream>) -> Seq<u8> {
    spec_u32_to_le_bytes(streams.len() as u32) + spec_stream_entries(streams)
}

/// One entry of the topics-list response: the topic's id, its partition
/// count, and its length-prefixed name.
pub open spec fn spec_topic_entry(t: &Topic) -> Seq<u8> {
    spec_u32_to_le_bytes(t.id) + spec_u32_to_le_bytes(t.partitions@.len() as u32) + spec_bytes8(
        t.name@,
    )
}

/// The entries of the topics-list response, in order.
pub open spec fn spec_topic_entries(topics: Seq<Topic>) -> Seq<u8>
    decreases topics.len(),
{
    if topics.len() == 0 {
        Seq::empty()
    } else {
        spec_topic_entry(&topics[0]) + spec_topic_entries(topics.skip(1))
    }
}

proof fn lemma_topic_entries_push(topics: Seq<Topic>, t: Topic)
    ensures
        spec_topic_entries(topics.push(t)) == spec_topic_entries(topics) + spec_topic_entry(&t),
    decreases topics.len(),
{
    if topics.len() == 0 {
        assert(topics.push(t)[0] == t);
        assert(topics.push(t).skip(1) =~= Seq::<Topic>::empty());
        assert(spec_topic_entries(Seq::<Topic>::empty()) == Seq::<u8>::empty());
        assert(spec_topic_entries(topics.push(t)) =~= spec_topic_entry(&t));
        assert(spec_topic_entries(topics) + spec_topic_entry(&t) =~= spec_topic_entry(&t));
    } else {
        assert(topics.push(t)[0] == topics[0]);
        assert(topics.push(t).skip(1) =~= topics.skip(1).push(t));
        lemma_topic_entries_push(topics.skip(1), t);
        assert(spec_topic_entries(topics.push(t)) =~= spec_topic_entries(topics)
            + spec_topic_entry(&t));
    }
}

/// The payload of a topics-list response.
pub open spec fn spec_topics_payload(topics: Seq<Topic>) -> Seq<u8> {
    spec_u32_to_le_bytes(topics.len() as u32) + spec_topic_entries(topics)
}

/// The payload of a poll response: a count and the message frames.
pub open spec fn spec_poll_payload(ms: Seq<MessageView>) -> Seq<u8> {
    spec_u32_to_le_bytes(ms.len() as u32) + spec_log_bytes(ms)
}

/// Encodes the streams-list payload.
pub fn encode_streams_payload(streams: &Vec<Stream>) -> (r: Vec<u8>)
    requires
        streams@.len() <= u32::MAX,
        forall|i: int| 0 <= i < streams@.len() ==> (#[trigger] streams@[i]).name@.len() <= 255,
    ensures
        r@ == spec_streams_payload(streams@),
{
    let mut buf: Vec<u8> = Vec::new();
    put_u32_le(&mut buf, streams.len() as u32);
    let ghost base = buf@;
    let mut i: usize = 0;
    proof {
        assert(spec_stream_entries(streams@.take(0)) =~= Seq::<u8>::empty());
        assert(buf@ =~= base + spec_stream_entries(streams@.take(0)));
    }
    while i < streams.len()
        invariant
            0 <= i <= streams@.len(),
            streams@.len() <= u32::MAX,
            forall|k: int| 0 <= k < streams@.len() ==> (#[trigger] streams@[k]).name@.len() <= 255,
            buf@ == base + spec_stream_entries(streams@.take(i as int)),
            base == spec_u32_to_le_bytes(streams@.len() as u32),
        decreases streams@.len() - i,
    {
        let s = &streams[i];
        put_u32_le(&mut buf, s.id);
        put_u32_le(&mut buf, s.topics.len() as u32);
        crate::command::put_bytes8(&mut buf, &s.name);
        proof {
            lemma_stream_entries_push(streams@.take(i as int), streams@[i as int]);
            assert(streams@.take(i as int).push(streams@[i as int]) =~= streams@.take(i + 1));
            assert(buf@ =~= base + spec_stream_entries(streams@.take(i + 1)));
        }
        i = i + 1;
    }
    proof {
        assert(streams@.take(streams@.len() as int) =~= streams@);
    }
    buf
}

/// Encodes the topics-list payload.
pub fn encode_topics_payload(topics: &Vec<Topic>) -> (r: Vec<u8>)
    requires
        topics@.len() <= u32::MAX,
        forall|i: int| 0 <= i < topics@.len() ==> (#[trigger] topics@[i]).name@.len() <= 255,
        forall|i: int| 0 <= i < topics@.len() ==> (#[trigger] topics@[i]).partitions@.len()
            <= u32::MAX,
    ensures
        r@ == spec_topics_payload(topics@),
{
    let mut buf: Vec<u8> = Vec::new();
    put_u32_le(&mut buf, topics.len() as u32);
    let ghost base = buf@;
    let mut i: usize = 0;
    proof {
        assert(spec_topic_entries(topics@.take(0)) =~= Seq::<u8>::empty());
        assert(buf@ =~= base + spec_topic_entries(topics@.take(0)));
    }
    while i < topics.len()
        invariant
            0 <= i <= topics@.len(),
            topics@.len() <= u32::MAX,
            forall|k: int| 0 <= k < topics@.len() ==> (#[trigger] topics@[k]).name@.len() <= 255,
            forall|k: int| 0 <= k < topics@.len() ==> (#[trigger] topics@[k]).partitions@.len()
                <= u32::MAX,
            buf@ == base + spec_topic_entries(topics@.take(i as int)),
            base == spec_u32_to_le_bytes(topics@.len() as u32),
        decreases topics@.len() - i,
    {
        let t = &topics[i];
        put_u32_le(&mut buf, t.id);
        put_u32_le(&mut buf, t.partitions.len() as u32);
        crate::command::put_bytes8(&mut buf, &t.name);
        proof {
            lemma_topic_entries_push(topics@.take(i as int), topics@[i as int]);
            assert(topics@.take(i as int).push(topics@[i as int]) =~= topics@.take(i + 1));
            assert(buf@ =~= base + spec_topic_entries(topics@.take(i + 1)));
        }
        i = i + 1;
    }
    proof {
        assert(topics@.take(topics@.len() as int) =~= topics@);
    }
    buf
}

/// Encodes the poll-response payload.
pub fn encode_poll_payload(messages: &Vec<Message>) -> (r: Vec<u8>)
    requires
        messages@.len() <= u32::MAX,
        forall|i: int|
            0 <= i < messages@.len() ==> crate::message::wf_message(#[trigger] messages@[i]@),
    ensures
        r@ == spec_poll_payload(messages@.map_values(|m: Message| m@)),
{
    let ghost views = messages@.map_values(|m: Message| m@);
    let mut buf: Vec<u8> = Vec::new();
    put_u32_le(&mut buf, messages.len() as u32);
    let ghost base = buf@;
    let mut i: usize = 0;
    proof {
        assert(views.take(0) =~= Seq::<MessageView>::empty());
        assert(spec_log_bytes(Seq::<MessageView>::empty()) == Seq::<u8>::empty());
        assert(buf@ =~= base + spec_log_bytes(views.take(0)));
    }
    while i < messages.len()
        invariant
            0 <= i <= views.len(),
            views == messages@.map_values(|m: Message| m@),
            forall|k: int|
                0 <= k < messages@.len() ==> crate::message::wf_message(#[trigger] messages@[k]@),
            buf@ == base + spec_log_bytes(views.take(i as int)),
            base == spec_u32_to_le_bytes(views.len() as u32),
        decreases views.len() - i,
    {
        proof {
            assert(messages@[i as int]@ == views[i as int]);
        }
        messages[i].encode_frame(&mut buf);
        proof {
            crate::message::lemma_log_bytes_push(views.take(i as int), views[i as int]);
            assert(views.take(i as int).push(views[i as int]) =~= views.take(i + 1));
        }
        i = i + 1;
    }
    proof {
        assert(views.take(views.len() as int) =~= views);
    }
    buf
}

/// A result's wire status: 0 for success, the error's code otherwise.
pub open spec fn spec_status_of<T>(r: Result<T, IggyError>, status: u32) -> bool {
    match r {
        Ok(_) => status == 0,
        Err(e) => status == e.spec_code(),
    }
}

/// Only the stream at `si` differs between the two systems' stream lists.
pub open spec fn spec_only_stream_changed(s0: &System, s1: &System, si: int) -> bool {
    &&& s1.streams@.len() == s0.streams@.len()
    &&& forall|k: int|
        0 <= k < s0.streams@.len() && k != si ==> #[trigger] s1.streams@[k] == s0.streams@[k]
}

/// What one dispatched command does: the status, the payload and the state
/// change, tied per command to the engine operation's own effect. The two
/// gates come first: a login-requiring command on an unauthenticated session
/// is refused with status 40 and no change; an authenticated session whose
/// user lacks the flag the command needs is refused with status 41 and no
/// change.
pub open spec fn spec_command_outcome(
    s0: &System,
    s1: &System,
    client_id: u32,
    v: CommandView,
    now: u64,
    status: u32,
    payload: Seq<u8>,
) -> bool {
    let session = spec_session_of(s0.sessions@, client_id);
    let blocked = spec_login_required(v) && !spec_authenticated(s0.sessions@, client_id);
    let allowed = !spec_login_required(v) || (session matches Some(ses) && ses.authenticated && (
    spec_user_perms(s0.users@, ses.user_id) matches Some(p) && spec_permitted(p, v)));
    &&& (blocked ==> status == IggyError::Unauthenticated.spec_code() && *s1 == *s0 && payload
        == Seq::<u8>::empty())
    &&& (!blocked && !allowed ==> status == IggyError::Unauthorized.spec_code() && *s1 == *s0
        && payload == Seq::<u8>::empty())
    &&& (allowed ==> match v {
        CommandView::Ping => status == 0 && *s1 == *s0 && payload == Seq::<u8>::empty(),
        CommandView::GetMe => status == 0 && *s1 == *s0 && payload == spec_u32_to_le_bytes(
            client_id,
        ),
        CommandView::LoginUser { username, password } => {
            let ok = session is Some && spec_user_named(s0.users@, username) && {
                let ui = spec_user_name_index(s0.users@, username);
                s0.users@[ui].password_hash == fnv1a64_of(password) && s0.users@[ui].status
                    == UserStatus::Active
            };
            &&& s1.streams@ == s0.streams@
            &&& s1.users@ == s0.users@
            &&& s1.config == s0.config
            &&& (status == 0 <==> ok)
            &&& (!ok ==> status == IggyError::InvalidCredentials.spec_code() && s1.sessions@
                == s0.sessions@ && payload == Seq::<u8>::empty())
            &&& (ok ==> {
                let ui = spec_user_name_index(s0.users@, username);
                &&& payload == spec_u32_to_le_bytes(s0.users@[ui].id)
                &&& spec_session_of(s1.sessions@, client_id) == Some(
                    Session { client_id, user_id: s0.users@[ui].id, authenticated: true },
                )
                &&& s1.sessions@.len() == s0.sessions@.len()
                &&& forall|c: u32|
                    c != client_id ==> #[trigger] spec_session_of(s1.sessions@, c)
                        == spec_session_of(s0.sessions@, c)
            })
        },
        CommandView::LogoutUser => {
            &&& status == 0
            &&& payload == Seq::<u8>::empty()
            &&& s1.streams@ == s0.streams@
            &&& s1.users@ == s0.users@
            &&& spec_session_of(s1.sessions@, client_id) == Some(
                Session { client_id, user_id: 0, authenticated: false },
            )
            &&& s1.sessions@.len() == s0.sessions@.len()
            &&& forall|c: u32|
                c != client_id ==> #[trigger] spec_session_of(s1.sessions@, c) == spec_session_of(
                    s0.sessions@,
                    c,
                )
        },
        CommandView::GetStreams => {
            &&& *s1 == *s0
            &&& (s0.streams@.len() <= u32::MAX ==> status == 0 && payload == spec_streams_payload(
                s0.streams@,
            ))
            &&& (s0.streams@.len() > u32::MAX ==> status == IggyError::TooLargePayload.spec_code()
                && payload == Seq::<u8>::empty())
        },
        CommandView::GetTopics { stream_id } => {
            &&& *s1 == *s0
            &&& (!spec_stream_exists(s0.streams@, stream_id) ==> status
                == IggyError::ResourceNotFound(ResourceKind::Stream).spec_code() && payload
                == Seq::<u8>::empty())
            &&& (spec_stream_exists(s0.streams@, stream_id) ==> {
                let topics = s0.streams@[spec_stream_index(s0.streams@, stream_id)].topics@;
                &&& (topics.len() <= u32::MAX ==> status == 0 && payload == spec_topics_payload(
                    topics,
                ))
                &&& (topics.len() > u32::MAX ==> status == IggyError::TooLargePayload.spec_code()
                    && payload == Seq::<u8>::empty())
            })
        },
        CommandView::CreateStream { stream_id, name } => {
            let taken = exists|i: int|
                0 <= i < s0.streams@.len() && ((#[trigger] s0.streams@[i]).id == stream_id
                    || s0.streams@[i].name@ == name);
            let valid = stream_id != 0 && 1 <= name.len() <= 255;
            &&& payload == Seq::<u8>::empty()
            &&& s1.users@ == s0.users@
            &&& s1.sessions@ == s0.sessions@
            &&& (status == 0 <==> valid && !taken)
            &&& (valid && taken ==> status == IggyError::ResourceAlreadyExists(
                ResourceKind::Stream,
            ).spec_code())
            &&& (status == 0 ==> s1.streams@.len() == s0.streams@.len() + 1 && s1.streams@.take(
                s0.streams@.len() as int,
            ) == s0.streams@ && s1.streams@.last().id == stream_id && s1.streams@.last().name@
                == name && s1.streams@.last().topics@.len() == 0)
            &&& (status != 0 ==> s1.streams@ == s0.streams@)
        },
        CommandView::DeleteStream { stream_id } => {
            &&& payload == Seq::<u8>::empty()
            &&& s1.users@ == s0.users@
            &&& s1.sessions@ == s0.sessions@
            &&& (status == 0 <==> spec_stream_exists(s0.streams@, stream_id))
            &&& (status == 0 ==> s1.streams@ == s0.streams@.remove(
                spec_stream_index(s0.streams@, stream_id),
            ))
            &&& (status != 0 ==> status == IggyError::ResourceNotFound(
                ResourceKind::Stream,
            ).spec_code() && s1.streams@ == s0.streams@)
        },
        CommandView::CreateTopic { stream_id, topic_id, partitions_count, name } => {
            &&& payload == Seq::<u8>::empty()
            &&& s1.users@ == s0.users@
            &&& s1.sessions@ == s0.sessions@
            &&& (!spec_stream_exists(s0.streams@, stream_id) ==> status
                == IggyError::ResourceNotFound(ResourceKind::Stream).spec_code() && s1.streams@
                == s0.streams@)
            &&& (spec_stream_exists(s0.streams@, stream_id) ==> {
                let si = spec_stream_index(s0.streams@, stream_id);
                &&& spec_only_stream_changed(s0, s1, si)
                &&& exists|r: Result<(), IggyError>|
                    #[trigger] spec_create_topic_effect(
                        &s0.streams@[si],
                        &s1.streams@[si],
                        topic_id,
                        name,
                        partitions_count,
                        r,
                    ) && spec_status_of(r, status)
            })
        },
        CommandView::DeleteTopic { stream_id, topic_id } => {
            &&& payload == Seq::<u8>::empty()
            &&& s1.users@ == s0.users@
            &&& s1.sessions@ == s0.sessions@
            &&& (!spec_stream_exists(s0.streams@, stream_id) ==> status
                == IggyError::ResourceNotFound(ResourceKind::Stream).spec_code() && s1.streams@
                == s0.streams@)
            &&& (spec_stream_exists(s0.streams@, stream_id) ==> {
                let si = spec_stream_index(s0.streams@, stream_id);
                &&& spec_only_stream_changed(s0, s1, si)
                &&& exists|r: Result<(), IggyError>|
                    #[trigger] spec_delete_topic_effect(
                        &s0.streams@[si],
                        &s1.streams@[si],
                        topic_id,
                        r,
                    ) && spec_status_of(r, status)
            })
        },
        CommandView::CreateConsumerGroup { stream_id, topic_id, group_id, name } => {
            &&& payload == Seq::<u8>::empty()
            &&& s1.users@ == s0.users@
            &&& s1.sessions@ == s0.sessions@
            &&& match spec_find_err(s0.streams@, stream_id, topic_id) {
                Some(e) => status == e.spec_code() && s1.streams@ == s0.streams@,
                None => {
                    let si = spec_stream_index(s0.streams@, stream_id);
                    let ti = spec_topic_index(s0.streams@[si].topics@, topic_id);
                    &&& spec_only_topic_changed(s0, s1, si, ti)
                    &&& exists|r: Result<(), IggyError>|
                        #[trigger] spec_create_group_effect(
                            &s0.streams@[si].topics@[ti],
                            &s1.streams@[si].topics@[ti],
                            group_id,
                            name,
                            r,
                        ) && spec_status_of(r, status)
                },
            }
        },
        CommandView::DeleteConsumerGroup { stream_id, topic_id, consumer_group_id } => {
            &&& payload == Seq::<u8>::empty()
            &&& s1.users@ == s0.users@
            &&& s1.sessions@ == s0.sessions@
            &&& (consumer_group_id is Name ==> status == IggyError::InvalidIdentifier.spec_code()
                && *s1 == *s0)
            &&& (consumer_group_id matches IdView::Num(gid) ==> match spec_find_err(
                s0.streams@,
                stream_id,
                topic_id,
            ) {
                Some(e) => status == e.spec_code() && s1.streams@ == s0.streams@,
                None => {
                    let si = spec_stream_index(s0.streams@, stream_id);
                    let ti = spec_topic_index(s0.streams@[si].topics@, topic_id);
                    &&& spec_only_topic_changed(s0, s1, si, ti)
                    &&& exists|r: Result<(), IggyError>|
                        #[trigger] spec_delete_group_effect(
                            &s0.streams@[si].topics@[ti],
                            &s1.streams@[si].topics@[ti],
                            gid,
                            r,
                        ) && spec_status_of(r, status)
                },
            })
        },
        CommandView::SendMessages { stream_id, topic_id, partitioning, messages } => {
            &&& payload == Seq::<u8>::empty()
            &&& s1.users@ == s0.users@
            &&& s1.sessions@ == s0.sessions@
            &&& match spec_find_err(s0.streams@, stream_id, topic_id) {
                Some(e) => status == e.spec_code() && s1.streams@ == s0.streams@,
                None => {
                    let si = spec_stream_index(s0.streams@, stream_id);
                    let ti = spec_topic_index(s0.streams@[si].topics@, topic_id);
                    &&& spec_only_topic_changed(s0, s1, si, ti)
                    &&& exists|r: Result<u32, IggyError>|
                        spec_send_effect(
                            &s0.streams@[si].topics@[ti],
                            &s1.streams@[si].topics@[ti],
                            partitioning,
                            messages,
                            now,
                            r,
                        ) && #[trigger] spec_status_of(r, status)
                },
            }
        },
        CommandView::PollMessages {
            consumer,
            stream_id,
            topic_id,
            partition_id,
            strategy,
            count,
            auto_commit,
        } => {
            &&& s1.users@ == s0.users@
            &&& s1.sessions@ == s0.sessions@
            &&& match spec_find_err(s0.streams@, stream_id, topic_id) {
                Some(e) => status == e.spec_code() && s1.streams@ == s0.streams@ && payload
                    == Seq::<u8>::empty(),
                None => {
                    let si = spec_stream_index(s0.streams@, stream_id);
                    let ti = spec_topic_index(s0.streams@[si].topics@, topic_id);
                    &&& spec_only_topic_changed(s0, s1, si, ti)
                    &&& exists|r: Result<Vec<crate::message::Message>, IggyError>|
                        {
                            &&& #[trigger] spec_topic_poll_effect(
                                &s0.streams@[si].topics@[ti],
                                &s1.streams@[si].topics@[ti],
                                partition_id,
                                consumer,
                                strategy,
                                count,
                                auto_commit,
                                r,
                            )
                            &&& match r {
                                Ok(out) => (out@.len() <= u32::MAX ==> status == 0 && payload
                                    == spec_poll_payload(
                                    out@.map_values(|m: crate::message::Message| m@),
                                )) && (out@.len() > u32::MAX ==> status
                                    == IggyError::TooLargePayload.spec_code() && payload
                                    == Seq::<u8>::empty()),
                                Err(e) => status == e.spec_code() && payload
                                    == Seq::<u8>::empty(),
                            }
                        }
                },
            }
        },
        CommandView::StoreConsumerOffset { consumer, stream_id, topic_id, partition_id, offset } => {
            &&& payload == Seq::<u8>::empty()
            &&& s1.users@ == s0.users@
            &&& s1.sessions@ == s0.sessions@
            &&& match spec_find_err(s0.streams@, stream_id, topic_id) {
                Some(e) => status == e.spec_code() && s1.streams@ == s0.streams@,
                None => {
                    let si = spec_stream_index(s0.streams@, stream_id);
                    let ti = spec_topic_index(s0.streams@[si].topics@, topic_id);
                    &&& spec_only_topic_changed(s0, s1, si, ti)
                    &&& exists|r: Result<(), IggyError>|
                        #[trigger] crate::topic::spec_topic_store_effect(
                            &s0.streams@[si].topics@[ti],
                            &s1.streams@[si].topics@[ti],
                            partition_id,
                            consumer,
                            offset,
                            r,
                        ) && spec_status_of(r, status)
                },
            }
        },
        CommandView::CreateUser { username, password, status: ustatus } => {
            let taken = spec_user_named(s0.users@, username);
            let valid = 3 <= username.len() <= 50;
            let max = spec_max_user_id(s0.users@);
            &&& s1.streams@ == s0.streams@
            &&& s1.sessions@ == s0.sessions@
            &&& (status == 0 <==> valid && !taken && max < u32::MAX)
            &&& (valid && taken ==> status == IggyError::ResourceAlreadyExists(
                ResourceKind::User,
            ).spec_code())
            &&& (status == 0 ==> {
                &&& payload == spec_u32_to_le_bytes((max + 1) as u32)
                &&& s1.users@.len() == s0.users@.len() + 1
                &&& s1.users@.take(s0.users@.len() as int) == s0.users@
                &&& s1.users@.last().id == max + 1
                &&& s1.users@.last().username@ == username
                &&& s1.users@.last().password_hash == fnv1a64_of(password)
                &&& s1.users@.last().status == ustatus
                &&& s1.users@.last().permissions == spec_no_permissions()
            })
            &&& (status != 0 ==> s1.users@ == s0.users@ && payload == Seq::<u8>::empty())
        },
        CommandView::DeleteUser { user_id } => {
            let found = spec_user_exists(s0.users@, user_id);
            let ui = spec_user_index(s0.users@, user_id);
            &&& payload == Seq::<u8>::empty()
            &&& s1.streams@ == s0.streams@
            &&& s1.sessions@ == s0.sessions@
            &&& (status == 0 <==> found && s0.users@[ui].id != crate::system::ROOT_USER_ID)
            &&& (!found ==> status == IggyError::ResourceNotFound(ResourceKind::User).spec_code())
            &&& (found && s0.users@[ui].id == crate::system::ROOT_USER_ID ==> status
                == IggyError::Unauthorized.spec_code())
            &&& (status == 0 ==> s1.users@ == s0.users@.remove(ui))
            &&& (status != 0 ==> s1.users@ == s0.users@)
        },
        CommandView::ChangePassword { user_id, current_password, new_password } => {
            let found = spec_user_exists(s0.users@, user_id);
            let ui = spec_user_index(s0.users@, user_id);
            &&& payload == Seq::<u8>::empty()
            &&& s1.streams@ == s0.streams@
            &&& s1.sessions@ == s0.sessions@
            &&& (status == 0 <==> found && s0.users@[ui].password_hash == fnv1a64_of(
                current_password,
            ))
            &&& (!found ==> status == IggyError::ResourceNotFound(ResourceKind::User).spec_code())
            &&& (found && s0.users@[ui].password_hash != fnv1a64_of(current_password) ==> status
                == IggyError::InvalidCredentials.spec_code())
            &&& (status == 0 ==> s1.users@.len() == s0.users@.len() && (forall|j: int|
                0 <= j < s0.users@.len() && j != ui ==> #[trigger] s1.users@[j] == s0.users@[j])
                && s1.users@[ui].password_hash == fnv1a64_of(new_password)
                && s1.users@[ui].username@ == s0.users@[ui].username@ && s1.users@[ui].id
                == s0.users@[ui].id)
            &&& (status != 0 ==> s1.users@ == s0.users@)
        },
    })
}

impl System {
    /// Runs a create-topic command: the status and state change of
    /// [`spec_command_outcome`]'s create-topic case.
    pub fn handle_create_topic(
        &mut self,
        stream_id: Identifier,
        topic_id: u32,
        partitions_count: u32,
        name: Vec<u8>,
        now: u64,
    ) -> (out: (u32, Vec<u8>))
        requires
            wf_system(old(self)),
            stream_id.wf(),
        ensures
            wf_system(final(self)),
            final(self).users@ == old(self).users@,
            final(self).sessions@ == old(self).sessions@,
            final(self).config == old(self).config,
            out.1@ == Seq::<u8>::empty(),
            !spec_stream_exists(old(self).streams@, stream_id@) ==> out.0
                == IggyError::ResourceNotFound(ResourceKind::Stream).spec_code()
                && final(self).streams@ == old(self).streams@,
            spec_stream_exists(old(self).streams@, stream_id@) ==> ({
                let si = spec_stream_index(old(self).streams@, stream_id@);
                &&& spec_only_stream_changed(old(self), final(self), si)
                &&& exists|r: Result<(), IggyError>|
                    #[trigger] spec_create_topic_effect(
                        &old(self).streams@[si],
                        &final(self).streams@[si],
                        topic_id,
                        name@,
                        partitions_count,
                        r,
                    ) && spec_status_of(r, out.0)
            }),
    {
        let ghost namev = name@;
        let res = self.create_topic(&stream_id, topic_id, partitions_count, name, now);
        let out: (u32, Vec<u8>) = match res {
            Ok(()) => (0, Vec::new()),
            Err(e) => (e.as_code(), Vec::new()),
        };
        proof {
            if spec_stream_exists(old(self).streams@, stream_id@) {
                let si = spec_stream_index(old(self).streams@, stream_id@);
                assert(spec_create_topic_effect(
                    &old(self).streams@[si],
                    &self.streams@[si],
                    topic_id,
                    namev,
                    partitions_count,
                    res,
                ) && spec_status_of(res, out.0));
            }
        }
        out
    }

    /// Runs a delete-topic command likewise.
    pub fn handle_delete_topic(&mut self, stream_id: Identifier, topic_id: Identifier) -> (out: (
        u32,
        Vec<u8>,
    ))
        requires
            wf_system(old(self)),
            stream_id.wf(),
            topic_id.wf(),
        ensures
            wf_system(final(self)),
            final(self).users@ == old(self).users@,
            final(self).sessions@ == old(self).sessions@,
            final(self).config == old(self).config,
            out.1@ == Seq::<u8>::empty(),
            !spec_stream_exists(old(self).streams@, stream_id@) ==> out.0
                == IggyError::ResourceNotFound(ResourceKind::Stream).spec_code()
                && final(self).streams@ == old(self).streams@,
            spec_stream_exists(old(self).streams@, stream_id@) ==> ({
                let si = spec_stream_index(old(self).streams@, stream_id@);
                &&& spec_only_stream_changed(old(self), final(self), si)
                &&& exists|r: Result<(), IggyError>|
                    #[trigger] spec_delete_topic_effect(
                        &old(self).streams@[si],
                        &final(self).streams@[si],
                        topic_id@,
                        r,
                    ) && spec_status_of(r, out.0)
            }),
    {
        let res = self.delete_topic(&stream_id, &topic_id);
        let out: (u32, Vec<u8>) = match res {
            Ok(()) => (0, Vec::new()),
            Err(e) => (e.as_code(), Vec::new()),
        };
        proof {
            if spec_stream_exists(old(self).streams@, stream_id@) {
                let si = spec_stream_index(old(self).streams@, stream_id@);
                assert(spec_delete_topic_effect(
                    &old(self).streams@[si],
                    &self.streams@[si],
                    topic_id@,
                    res,
                ) && spec_status_of(res, out.0));
            }
        }
        out
    }

    /// Runs a create-consumer-group command likewise.
    pub fn handle_create_group(
        &mut self,
        stream_id: Identifier,
        topic_id: Identifier,
        group_id: u32,
        name: Vec<u8>,
    ) -> (out: (u32, Vec<u8>))
        requires
            wf_system(old(self)),
            stream_id.wf(),
            topic_id.wf(),
        ensures
            wf_system(final(self)),
            final(self).users@ == old(self).users@,
            final(self).sessions@ == old(self).sessions@,
            final(self).config == old(self).config,
            out.1@ == Seq::<u8>::empty(),
            match spec_find_err(old(self).streams@, stream_id@, topic_id@) {
                Some(e) => out.0 == e.spec_code() && final(self).streams@ == old(self).streams@,
                None => {
                    let si = spec_stream_index(old(self).streams@, stream_id@);
                    let ti = spec_topic_index(old(self).streams@[si].topics@, topic_id@);
                    &&& spec_only_topic_changed(old(self), final(self), si, ti)
                    &&& exists|r: Result<(), IggyError>|
                        #[trigger] spec_create_group_effect(
                            &old(self).streams@[si].topics@[ti],
                            &final(self).streams@[si].topics@[ti],
                            group_id,
                            name@,
                            r,
                        ) && spec_status_of(r, out.0)
                },
            },
    {
        let ghost namev = name@;
        let res = self.create_consumer_group(&stream_id, &topic_id, group_id, name);
        let out: (u32, Vec<u8>) = match res {
            Ok(()) => (0, Vec::new()),
            Err(e) => (e.as_code(), Vec::new()),
        };
        proof {
            if spec_find_err(old(self).streams@, stream_id@, topic_id@) is None {
                let si = spec_stream_index(old(self).streams@, stream_id@);
                let ti = spec_topic_index(old(self).streams@[si].topics@, topic_id@);
                assert(spec_create_group_effect(
                    &old(self).streams@[si].topics@[ti],
                    &self.streams@[si].topics@[ti],
                    group_id,
                    namev,
                    res,
                ) && spec_status_of(res, out.0));
            }
        }
        out
    }

    /// Runs a delete-consumer-group command likewise.
    pub fn handle_delete_group(&mut self, stream_id: Identifier, topic_id: Identifier, gid: u32) -> (out:
        (u32, Vec<u8>))
        requires
            wf_system(old(self)),
            stream_id.wf(),
            topic_id.wf(),
        ensures
            wf_system(final(self)),
            final(self).users@ == old(self).users@,
            final(self).sessions@ == old(self).sessions@,
            final(self).config == old(self).config,
            out.1@ == Seq::<u8>::empty(),
            match spec_find_err(old(self).streams@, stream_id@, topic_id@) {
                Some(e) => out.0 == e.spec_code() && final(self).streams@ == old(self).streams@,
                None => {
                    let si = spec_stream_index(old(self).streams@, stream_id@);
                    let ti = spec_topic_index(old(self).streams@[si].topics@, topic_id@);
                    &&& spec_only_topic_changed(old(self), final(self), si, ti)
                    &&& exists|r: Result<(), IggyError>|
                        #[trigger] spec_delete_group_effect(
                            &old(self).streams@[si].topics@[ti],
                            &final(self).streams@[si].topics@[ti],
                            gid,
                            r,
                        ) && spec_status_of(r, out.0)
                },
            },
    {
        let res = self.delete_consumer_group(&stream_id, &topic_id, gid);
        let out: (u32, Vec<u8>) = match res {
            Ok(()) => (0, Vec::new()),
            Err(e) => (e.as_code(), Vec::new()),
        };
        proof {
            if spec_find_err(old(self).streams@, stream_id@, topic_id@) is None {
                let si = spec_stream_index(old(self).streams@, stream_id@);
                let ti = spec_topic_index(old(self).streams@[si].topics@, topic_id@);
                assert(spec_delete_group_effect(
                    &old(self).streams@[si].topics@[ti],
                    &self.streams@[si].topics@[ti],
                    gid,
                    res,
                ) && spec_status_of(res, out.0));
            }
        }
        out
    }

    /// Runs a send-messages command likewise.
    pub fn handle_send(&mut self, c: SendMessages, now: u64) -> (out: (u32, Vec<u8>))
        requires
            wf_system(old(self)),
            c.stream_id.wf(),
            c.topic_id.wf(),
        ensures
            wf_system(final(self)),
            final(self).users@ == old(self).users@,
            final(self).sessions@ == old(self).sessions@,
            final(self).config == old(self).config,
            out.1@ == Seq::<u8>::empty(),
            match spec_find_err(old(self).streams@, c.stream_id@, c.topic_id@) {
                Some(e) => out.0 == e.spec_code() && final(self).streams@ == old(self).streams@,
                None => {
                    let si = spec_stream_index(old(self).streams@, c.stream_id@);
                    let ti = spec_topic_index(old(self).streams@[si].topics@, c.topic_id@);
                    &&& spec_only_topic_changed(old(self), final(self), si, ti)
                    &&& exists|r: Result<u32, IggyError>|
                        spec_send_effect(
                            &old(self).streams@[si].topics@[ti],
                            &final(self).streams@[si].topics@[ti],
                            c.partitioning@,
                            c.messages@.map_values(|m: crate::message::Message| m@),
                            now,
                            r,
                        ) && #[trigger] spec_status_of(r, out.0)
                },
            },
    {
        let ghost views = c.messages@.map_values(|m: crate::message::Message| m@);
        let SendMessages { stream_id, topic_id, partitioning, messages } = c;
        let res = self.send_messages(&stream_id, &topic_id, &partitioning, messages, now);
        let out: (u32, Vec<u8>) = match res {
            Ok(_) => (0, Vec::new()),
            Err(e) => (e.as_code(), Vec::new()),
        };
        proof {
            if spec_find_err(old(self).streams@, stream_id@, topic_id@) is None {
                let si = spec_stream_index(old(self).streams@, stream_id@);
                let ti = spec_topic_index(old(self).streams@[si].topics@, topic_id@);
                assert(spec_send_effect(
                    &old(self).streams@[si].topics@[ti],
                    &self.streams@[si].topics@[ti],
                    partitioning@,
                    views,
                    now,
                    res,
                ) && spec_status_of(res, out.0));
            }
        }
        out
    }

    /// Runs a store-consumer-offset command likewise.
    pub fn handle_store_offset(
        &mut self,
        consumer: Consumer,
        stream_id: Identifier,
        topic_id: Identifier,
        partition_id: u32,
        offset: u64,
    ) -> (out: (u32, Vec<u8>))
        requires
            wf_system(old(self)),
            stream_id.wf(),
            topic_id.wf(),
        ensures
            wf_system(final(self)),
            final(self).users@ == old(self).users@,
            final(self).sessions@ == old(self).sessions@,
            final(self).config == old(self).config,
            out.1@ == Seq::<u8>::empty(),
            match spec_find_err(old(self).streams@, stream_id@, topic_id@) {
                Some(e) => out.0 == e.spec_code() && final(self).streams@ == old(self).streams@,
                None => {
                    let si = spec_stream_index(old(self).streams@, stream_id@);
                    let ti = spec_topic_index(old(self).streams@[si].topics@, topic_id@);
                    &&& spec_only_topic_changed(old(self), final(self), si, ti)
                    &&& exists|r: Result<(), IggyError>|
                        #[trigger] crate::topic::spec_topic_store_effect(
                            &old(self).streams@[si].topics@[ti],
                            &final(self).streams@[si].topics@[ti],
                            partition_id,
                            consumer,
                            offset,
                            r,
                        ) && spec_status_of(r, out.0)
                },
            },
    {
        let res = self.store_consumer_offset(&stream_id, &topic_id, partition_id, consumer, offset);
        let out: (u32, Vec<u8>) = match res {
            Ok(()) => (0, Vec::new()),
            Err(e) => (e.as_code(), Vec::new()),
        };
        proof {
            if spec_find_err(old(self).streams@, stream_id@, topic_id@) is None {
                let si = spec_stream_index(old(self).streams@, stream_id@);
                let ti = spec_topic_index(old(self).streams@[si].topics@, topic_id@);
                assert(crate::topic::spec_topic_store_effect(
                    &old(self).streams@[si].topics@[ti],
                    &self.streams@[si].topics@[ti],
                    partition_id,
                    consumer,
                    offset,
                    res,
                ) && spec_status_of(res, out.0));
            }
        }
        out
    }

    /// Runs a poll-messages command likewise, with its payload.
    pub fn handle_poll(&mut self, c: crate::command::PollMessages, now: u64) -> (out: (u32, Vec<u8>))
        requires
            wf_system(old(self)),
            c.stream_id.wf(),
            c.topic_id.wf(),
        ensures
            wf_system(final(self)),
            final(self).users@ == old(self).users@,
            final(self).sessions@ == old(self).sessions@,
            final(self).config == old(self).config,
            match spec_find_err(old(self).streams@, c.stream_id@, c.topic_id@) {
                Some(e) => out.0 == e.spec_code() && final(self).streams@ == old(self).streams@
                    && out.1@ == Seq::<u8>::empty(),
                None => {
                    let si = spec_stream_index(old(self).streams@, c.stream_id@);
                    let ti = spec_topic_index(old(self).streams@[si].topics@, c.topic_id@);
                    &&& spec_only_topic_changed(old(self), final(self), si, ti)
                    &&& exists|r: Result<Vec<crate::message::Message>, IggyError>|
                        {
                            &&& #[trigger] spec_topic_poll_effect(
                                &old(self).streams@[si].topics@[ti],
                                &final(self).streams@[si].topics@[ti],
                                c.partition_id,
                                c.consumer,
                                c.strategy,
                                c.count,
                                c.auto_commit,
                                r,
                            )
                            &&& match r {
                                Ok(ms) => (ms@.len() <= u32::MAX ==> out.0 == 0 && out.1@
                                    == spec_poll_payload(
                                    ms@.map_values(|m: crate::message::Message| m@),
                                )) && (ms@.len() > u32::MAX ==> out.0
                                    == IggyError::TooLargePayload.spec_code() && out.1@
                                    == Seq::<u8>::empty()),
                                Err(e) => out.0 == e.spec_code() && out.1@ == Seq::<u8>::empty(),
                            }
                        }
                },
            },
    {
        let res = self.poll_messages(
            &c.stream_id,
            &c.topic_id,
            c.partition_id,
            c.consumer,
            c.strategy,
            c.count,
            c.auto_commit,
        );
        match res {
            Ok(messages) => {
                proof {
                    assert(res == Result::<Vec<crate::message::Message>, IggyError>::Ok(messages));
                }
                if messages.len() > u32::MAX as usize {
                    return (IggyError::TooLargePayload.as_code(), Vec::new());
                }
                let payload = encode_poll_payload(&messages);
                (0, payload)
            },
            Err(e) => (e.as_code(), Vec::new()),
        }
    }
}

/// Introduces the poll branch's existential witness: the actual result of
/// the poll satisfies the effect, and the status and payload built from it
/// satisfy the response clauses.
proof fn poll_witness(
    s0: &System,
    s1: &System,
    c: &crate::command::PollMessages,
    now: u64,
    res: Result<Vec<crate::message::Message>, IggyError>,
    status: u32,
    payload: Seq<u8>,
)
    requires
        spec_find_err(s0.streams@, c.stream_id@, c.topic_id@) is None ==> ({
            let si = spec_stream_index(s0.streams@, c.stream_id@);
            let ti = spec_topic_index(s0.streams@[si].topics@, c.topic_id@);
            spec_topic_poll_effect(
                &s0.streams@[si].topics@[ti],
                &s1.streams@[si].topics@[ti],
                c.partition_id,
                c.consumer,
                c.strategy,
                c.count,
                c.auto_commit,
                res,
            )
        }),
        match res {
            Ok(out) => (out@.len() <= u32::MAX ==> status == 0 && payload == spec_poll_payload(
                out@.map_values(|m: crate::message::Message| m@),
            )) && (out@.len() > u32::MAX ==> status == IggyError::TooLargePayload.spec_code()
                && payload == Seq::<u8>::empty()),
            Err(e) => status == e.spec_code() && payload == Seq::<u8>::empty(),
        },
    ensures
        spec_find_err(s0.streams@, c.stream_id@, c.topic_id@) is None ==> ({
            let si = spec_stream_index(s0.streams@, c.stream_id@);
            let ti = spec_topic_index(s0.streams@[si].topics@, c.topic_id@);
            exists|r: Result<Vec<crate::message::Message>, IggyError>|
                {
                    &&& #[trigger] spec_topic_poll_effect(
                        &s0.streams@[si].topics@[ti],
                        &s1.streams@[si].topics@[ti],
                        c.partition_id,
                        c.consumer,
                        c.strategy,
                        c.count,
                        c.auto_commit,
                        r,
                    )
                    &&& match r {
                        Ok(out) => (out@.len() <= u32::MAX ==> status == 0 && payload
                            == spec_poll_payload(
                            out@.map_values(|m: crate::message::Message| m@),
                        )) && (out@.len() > u32::MAX ==> status
                            == IggyError::TooLargePayload.spec_code() && payload
                            == Seq::<u8>::empty()),
                        Err(e) => status == e.spec_code() && payload == Seq::<u8>::empty(),
                    }
                }
        }),
{
}

impl System {
    /// Runs one decoded command for a client and returns the response
    /// status and payload, as [`spec_command_outcome`] pins them per
    /// command.
    #[verifier::loop_isolation(false)]
    #[verifier::rlimit(100)]
    #[verifier::spinoff_prover]
    pub fn handle_command(&mut self, client_id: u32, cmd: Command, now: u64) -> (r: (u32, Vec<u8>))
        requires
            wf_system(old(self)),
            crate::command::wf_command(&cmd),
        ensures
            wf_system(final(self)),
            spec_login_required(cmd@) && !spec_authenticated(old(self).sessions@, client_id)
                ==> r.0 == IggyError::Unauthenticated.spec_code() && *final(self) == *old(self)
                && r.1@ == Seq::<u8>::empty(),
            ({
                let session = spec_session_of(old(self).sessions@, client_id);
                let allowed = !spec_login_required(cmd@) || (session matches Some(ses)
                    && ses.authenticated && (spec_user_perms(old(self).users@, ses.user_id) matches
                Some(p) && spec_permitted(p, cmd@)));
                &&& (!(spec_login_required(cmd@) && !spec_authenticated(
                    old(self).sessions@,
                    client_id,
                )) && !allowed ==> r.0 == IggyError::Unauthorized.spec_code() && *final(self)
                    == *old(self) && r.1@ == Seq::<u8>::empty())
                &&& (cmd is Ping ==> r.0 == 0 && r.1@ == Seq::<u8>::empty() && *final(self) == *old(
                    self,
                ))
                &&& (cmd is GetMe && allowed ==> r.0 == 0 && r.1@ == spec_u32_to_le_bytes(client_id)
                    && *final(self) == *old(self))
                &&& (cmd is GetStreams && allowed && old(self).streams@.len() <= u32::MAX ==> r.0
                    == 0 && r.1@ == spec_streams_payload(old(self).streams@) && *final(self)
                    == *old(self))
            }),
    {
        let ghost cmdv = cmd@;
        let session = match self.find_session(client_id) {
            Some(i) => Some(self.sessions[i]),
            None => None,
        };
        let authenticated = match session {
            Some(s) => s.authenticated,
            None => false,
        };
        if login_required(&cmd) && !authenticated {
            let e = IggyError::Unauthenticated;
            return (e.as_code(), Vec::new());
        }
        // permission gate: an authenticated session carries its user's flags
        if login_required(&cmd) {
            let user_id = match session {
                Some(s) => s.user_id,
                None => 0,
            };
            let mut perms: Option<Permissions> = None;
            let mut i: usize = 0;
            while i < self.users.len()
                invariant
                    0 <= i <= self.users@.len(),
                    perms is None ==> forall|j: int|
                        0 <= j < i ==> (#[trigger] self.users@[j]).id != user_id,
                    perms matches Some(p) ==> spec_user_perms(self.users@, user_id) == Some(p),
                decreases self.users@.len() - i,
            {
                if self.users[i].id == user_id {
                    proof {
                        let k = choose|k: int|
                            0 <= k < self.users@.len() && (#[trigger] self.users@[k]).id == user_id;
                        if k != i {
                            assert(self.users@[k].id != self.users@[i as int].id);
                        }
                    }
                    perms = Some(self.users[i].permissions);
                    break ;
                }
                i = i + 1;
            }
            proof {
                if perms is None {
                    assert(spec_user_perms(self.users@, user_id) is None);
                }
            }
            let allowed = match perms {
                Some(p) => permitted(p, &cmd),
                None => false,
            };
            if !allowed {
                let e = IggyError::Unauthorized;
                return (e.as_code(), Vec::new());
            }
        }
        match cmd {
            Command::Ping => {
                (0, Vec::new())
            },
            Command::GetMe(_) => {
                let mut payload: Vec<u8> = Vec::new();
                put_u32_le(&mut payload, client_id);
                proof {
                    assert(payload@ =~= spec_u32_to_le_bytes(client_id));
                    assert(spec_command_outcome(old(self), self, client_id, cmdv, now, 0u32, payload@));
                }
                (0, payload)
            },
            Command::LoginUser { username, password } => {
                match self.login_user(client_id, &username, &password) {
                    Ok(user_id) => {
                        let mut payload: Vec<u8> = Vec::new();
                        put_u32_le(&mut payload, user_id);
                        proof {
                            assert(payload@ =~= spec_u32_to_le_bytes(user_id));
                            assert(spec_command_outcome(old(self), self, client_id, cmdv, now, 0u32, payload@));
                        }
                        (0, payload)
                    },
                    Err(e) => {
                        (e.as_code(), Vec::new())
                    },
                }
            },
            Command::LogoutUser(_) => {
                match self.logout_user(client_id) {
                    Ok(()) => {
                        (0, Vec::new())
                    },
                    Err(e) => (e.as_code(), Vec::new()),
                }
            },
            Command::GetStreams => {
                if self.streams.len() > u32::MAX as usize {
                    return (IggyError::TooLargePayload.as_code(), Vec::new());
                }
                let payload = encode_streams_payload(&self.streams);
                (0, payload)
            },
            Command::GetTopics(c) => {
                match self.find_stream(&c.stream_id) {
                    Some(i) => {
                        let topics = &self.streams[i].topics;
                        if topics.len() > u32::MAX as usize {
                            return (IggyError::TooLargePayload.as_code(), Vec::new());
                        }
                        let payload = encode_topics_payload(topics);
                        (0, payload)
                    },
                    None => (
                        IggyError::ResourceNotFound(ResourceKind::Stream).as_code(),
                        Vec::new(),
                    ),
                }
            },
            Command::CreateStream(c) => {
                match self.create_stream(c.stream_id, c.name, now) {
                    Ok(()) => {
                        (0, Vec::new())
                    },
                    Err(e) => {
                        (e.as_code(), Vec::new())
                    },
                }
            },
            Command::DeleteStream { stream_id } => {
                match self.delete_stream(&stream_id) {
                    Ok(()) => {
                        (0, Vec::new())
                    },
                    Err(e) => {
                        (e.as_code(), Vec::new())
                    },
                }
            },
            Command::CreateTopic { stream_id, topic_id, partitions_count, name } => {
                let out = self.handle_create_topic(stream_id, topic_id, partitions_count, name, now);
                out
            },
            Command::DeleteTopic { stream_id, topic_id } => {
                let out = self.handle_delete_topic(stream_id, topic_id);
                out
            },
            Command::CreateConsumerGroup { stream_id, topic_id, group_id, name } => {
                let out = self.handle_create_group(stream_id, topic_id, group_id, name);
                out
            },
            Command::DeleteConsumerGroup(c) => {
                let gid = match numeric_id_of(&c.consumer_group_id) {
                    Some(g) => g,
                    None => {
                        return (IggyError::InvalidIdentifier.as_code(), Vec::new());
                    },
                };
                let out = self.handle_delete_group(c.stream_id, c.topic_id, gid);
                out
            },
            Command::SendMessages(c) => {
                let out = self.handle_send(c, now);
                out
            },
            Command::PollMessages(c) => {
                let out = self.handle_poll(c, now);
                out
            },
            Command::StoreConsumerOffset { consumer, stream_id, topic_id, partition_id, offset } => {
                let out = self.handle_store_offset(consumer, stream_id, topic_id, partition_id, offset);
                out
            },
            Command::CreateUser { username, password, status } => {
                match self.create_user(username, &password, status, now) {
                    Ok(user_id) => {
                        let mut payload: Vec<u8> = Vec::new();
                        put_u32_le(&mut payload, user_id);
                        proof {
                            assert(payload@ =~= spec_u32_to_le_bytes(user_id));
                            assert(spec_command_outcome(old(self), self, client_id, cmdv, now, 0u32, payload@));
                        }
                        (0, payload)
                    },
                    Err(e) => {
                        (e.as_code(), Vec::new())
                    },
                }
            },
            Command::DeleteUser(c) => {
                match self.delete_user(&c.user_id) {
                    Ok(()) => {
                        (0, Vec::new())
                    },
                    Err(e) => {
                        (e.as_code(), Vec::new())
                    },
                }
            },
            Command::ChangePassword(c) => {
                match self.change_password(&c.user_id, &c.current_password, &c.new_password) {
                    Ok(()) => {
                        (0, Vec::new())
                    },
                    Err(e) => {
                        (e.as_code(), Vec::new())
                    },
                }
            },
        }
    }

    /// Decodes a request frame body, runs the command, and encodes the
    /// response frame. A body that does not decode yields an error frame
    /// with an empty payload and the engine untouched.
    pub fn handle_frame(&mut self, client_id: u32, body: &[u8], now: u64) -> (r: Vec<u8>)
        requires
            wf_system(old(self)),
        ensures
            wf_system(final(self)),
            r@.len() >= 8,
    {
        let cmd = match Command::from_bytes(body) {
            Ok(c) => c,
            Err(e) => {
                let empty: Vec<u8> = Vec::new();
                let r = crate::command::encode_response(e.as_code(), &empty);
                proof {
                    vstd::bytes::lemma_auto_spec_u32_to_from_le_bytes();
                }
                return r;
            },
        };
        let (status, payload) = self.handle_command(client_id, cmd, now);
        let r = crate::command::encode_response(status, &payload);
        proof {
            vstd::bytes::lemma_auto_spec_u32_to_from_le_bytes();
        }
        r
    }
}

/// The numeric value of an identifier, if it is numeric.
pub fn numeric_id_of(id: &Identifier) -> (r: Option<u32>)
    requires
        id.wf(),
    ensures
        id@ is Num ==> r == Some(id@->Num_0),
        id@ is Name ==> r is None,
{
    match id.kind {
        crate::identifier::IdKind::Numeric => {
            let n = crate::encoding::read_u32_le(id.value.as_slice(), 0);
            proof {
                assert(id.value@.subrange(0, 4) =~= id.value@);
            }
            Some(n)
        },
        crate::identifier::IdKind::Named => None,
    }
}

} // verus!
