//! The client-side command objects of the command-line front end: each one
//! wraps a wire command payload and says how to announce itself. Sending
//! them over a transport is the front end's business; building them, and
//! what they claim, is checked here.

use crate::command::{
    ChangePassword, CreateStream, DeleteConsumerGroup, DeleteUser, GetMe, Partitioning,
    PartitioningView, SendMessages,
};
use crate::encoding::{dec_str, u32_to_dec_string};
use crate::error::IggyError;
use crate::identifier::{IdKind, Identifier};
use crate::message::Message;
use vstd::prelude::*;
use vstd::string::StringSliceAdditionalSpecFns;

verus! {

/// What lossy UTF-8 decoding renders a byte string as.
pub uninterp spec fn utf8_lossy_of(bytes: Seq<u8>) -> Seq<char>;

/// Relies on String::from_utf8_lossy: the decoded string, a function of the
/// bytes alone, with invalid sequences replaced.
#[verifier::external_body]
fn bytes_to_string_lossy(bytes: &Vec<u8>) -> (r: String)
    ensures
        r@ == utf8_lossy_of(bytes@),
{
    String::from_utf8_lossy(bytes.as_slice()).into_owned()
}

/// What an identifier renders as: the decimal id, or the lossily decoded
/// name.
pub open spec fn spec_id_string(id: &Identifier) -> Seq<char> {
    match id.kind {
        IdKind::Numeric => dec_str(
            vstd::bytes::spec_u32_from_le_bytes(id.value@) as nat,
        ),
        IdKind::Named => utf8_lossy_of(id.value@),
    }
}

impl Identifier {
    /// Renders the identifier for people: the decimal id, or the name.
    pub fn as_string(&self) -> (r: String)
        requires
            self.wf(),
        ensures
            r@ == spec_id_string(self),
    {
        match self.kind {
            IdKind::Numeric => {
                let n = crate::encoding::read_u32_le(self.value.as_slice(), 0);
                proof {
                    assert(self.value@.subrange(0, 4) =~= self.value@);
                }
                u32_to_dec_string(n)
            },
            IdKind::Named => bytes_to_string_lossy(&self.value),
        }
    }
}

/// What a command-line command announces and needs: a line describing it,
/// whether its output goes through the logger, and whether it must run on an
/// authenticated connection.
pub trait CliCommand {
    /// One line saying what the command will do.
    fn explain(&self) -> String;

    /// Whether the command's output goes through the logger rather than
    /// plain standard output.
    fn use_tracing(&self) -> bool;

    /// Whether the command needs a logged-in session.
    fn login_required(&self) -> bool;
}

/// Deletes a consumer group.
#[derive(Debug)]
pub struct DeleteConsumerGroupCmd {
    pub delete_consumer_group: DeleteConsumerGroup,
}

impl DeleteConsumerGroupCmd {
    /// Wraps the identifiers into a delete-consumer-group payload.
    pub fn new(stream_id: Identifier, topic_id: Identifier, consumer_group_id: Identifier) -> (r:
        DeleteConsumerGroupCmd)
        ensures
            r.delete_consumer_group.stream_id@ == stream_id@,
            r.delete_consumer_group.topic_id@ == topic_id@,
            r.delete_consumer_group.consumer_group_id@ == consumer_group_id@,
    {
        DeleteConsumerGroupCmd {
            delete_consumer_group: DeleteConsumerGroup { stream_id, topic_id, consumer_group_id },
        }
    }
}

impl CliCommand for DeleteConsumerGroupCmd {
    fn explain(&self) -> String {
        let mut s = "delete consumer group with ID: ".to_owned();
        if self.delete_consumer_group.consumer_group_id.check_wf() {
            s.append(self.delete_consumer_group.consumer_group_id.as_string().as_str());
        }
        s.append(" for topic with ID: ");
        if self.delete_consumer_group.topic_id.check_wf() {
            s.append(self.delete_consumer_group.topic_id.as_string().as_str());
        }
        s.append(" and stream with ID: ");
        if self.delete_consumer_group.stream_id.check_wf() {
            s.append(self.delete_consumer_group.stream_id.as_string().as_str());
        }
        s
    }

    fn use_tracing(&self) -> bool {
        true
    }

    fn login_required(&self) -> bool {
        true
    }
}

/// Sends messages to a topic, routed by an explicit partition id, a message
/// key, or round-robin when neither is given.
#[derive(Debug)]
pub struct SendMessagesCmd {
    pub stream_id: Identifier,
    pub topic_id: Identifier,
    pub partitioning: Partitioning,
    pub messages: Option<Vec<Message>>,
}

impl SendMessagesCmd {
    /// Builds the send command. An explicit partition id and a message key
    /// cannot both be given; a key must be 1 to 255 bytes.
    pub fn new(
        stream_id: Identifier,
        topic_id: Identifier,
        partition_id: Option<u32>,
        message_key: Option<String>,
        messages: Option<Vec<Message>>,
    ) -> (r: Result<SendMessagesCmd, IggyError>)
        ensures
            partition_id is Some && message_key is Some ==> r == Result::<
                SendMessagesCmd,
                IggyError,
            >::Err(IggyError::InvalidCommand),
            partition_id is Some && message_key is None ==> (r matches Ok(c) && (c.partitioning@
                matches PartitioningView::PartitionId(p) && p == partition_id->0 && c.stream_id@
                == stream_id@ && c.topic_id@ == topic_id@)),
            partition_id is None && message_key is Some && 1 <= vstd::utf8::encode_utf8(message_key->0@).len()
                <= 255 ==> (r matches Ok(c) && (c.partitioning@ matches
            PartitioningView::MessagesKey(k) && k == vstd::utf8::encode_utf8(message_key->0@) && c.stream_id@
                == stream_id@ && c.topic_id@ == topic_id@)),
            partition_id is None && message_key is None ==> (r matches Ok(c) && (c.partitioning@ is
            Balanced && c.stream_id@ == stream_id@ && c.topic_id@ == topic_id@)),
    {
        let partitioning = match (partition_id, &message_key) {
            (Some(_), Some(_)) => {
                return Err(IggyError::InvalidCommand);
            },
            (Some(p), None) => Partitioning::partition_id(p),
            (None, Some(key)) => {
                match Partitioning::messages_key_str(key.as_str()) {
                    Ok(p) => p,
                    Err(e) => {
                        return Err(e);
                    },
                }
            },
            (None, None) => Partitioning::balanced(),
        };
        Ok(SendMessagesCmd { stream_id, topic_id, partitioning, messages })
    }
}

impl CliCommand for SendMessagesCmd {
    fn explain(&self) -> String {
        let mut s = "send messages to topic with ID: ".to_owned();
        if self.topic_id.check_wf() {
            s.append(self.topic_id.as_string().as_str());
        }
        s.append(" and stream with ID: ");
        if self.stream_id.check_wf() {
            s.append(self.stream_id.as_string().as_str());
        }
        s
    }

    fn use_tracing(&self) -> bool {
        true
    }

    fn login_required(&self) -> bool {
        true
    }
}

/// Creates a stream.
#[derive(Debug)]
pub struct CreateStreamCmd {
    pub create_stream: CreateStream,
}

impl CreateStreamCmd {
    /// Wraps an id and a name into a create-stream payload.
    pub fn new(stream_id: u32, name: String) -> (r: CreateStreamCmd)
        ensures
            r.create_stream.stream_id == stream_id,
            r.create_stream.name@ == vstd::utf8::encode_utf8(name@),
    {
        CreateStreamCmd {
            create_stream: CreateStream {
                stream_id,
                name: vstd::slice::slice_to_vec(name.as_str().as_bytes()),
            },
        }
    }
}

impl CliCommand for CreateStreamCmd {
    fn explain(&self) -> String {
        let mut s = "create stream with ID: ".to_owned();
        s.append(u32_to_dec_string(self.create_stream.stream_id).as_str());
        s.append(" and name: ");
        s.append(bytes_to_string_lossy(&self.create_stream.name).as_str());
        s
    }

    fn use_tracing(&self) -> bool {
        true
    }

    fn login_required(&self) -> bool {
        true
    }
}

/// Asks who the caller is.
#[derive(Debug)]
pub struct GetMeCmd {
    pub get_me: GetMe,
}

impl GetMeCmd {
    /// The command carries nothing.
    pub fn new() -> (r: GetMeCmd) {
        GetMeCmd { get_me: GetMe {} }
    }
}

impl Default for GetMeCmd {
    fn default() -> Self {
        GetMeCmd::new()
    }
}

impl CliCommand for GetMeCmd {
    fn explain(&self) -> String {
        "me command".to_owned()
    }

    fn use_tracing(&self) -> bool {
        true
    }

    fn login_required(&self) -> bool {
        true
    }
}

/// Changes a user's password. The passwords may be absent here: the front
/// end prompts for what is missing before building the wire payload.
#[derive(Debug)]
pub struct ChangePasswordCmd {
    pub user_id: Identifier,
    pub current_password: Option<String>,
    pub new_password: Option<String>,
}

impl ChangePasswordCmd {
    /// Wraps the target user and whatever passwords were given.
    pub fn new(user_id: Identifier, current_password: Option<String>, new_password: Option<
        String,
    >) -> (r: ChangePasswordCmd)
        ensures
            r.user_id@ == user_id@,
            r.current_password == current_password,
            r.new_password == new_password,
    {
        ChangePasswordCmd { user_id, current_password, new_password }
    }

    /// Output goes through the logger exactly when no prompt will be needed.
    pub fn use_tracing(&self) -> (r: bool)
        ensures
            r == (self.current_password is Some || self.new_password is Some),
    {
        self.current_password.is_some() || self.new_password.is_some()
    }

    /// The wire payload, once both passwords are in hand.
    pub fn to_payload(&self, current_password: String, new_password: String) -> (r: ChangePassword)
        requires
            self.user_id.wf(),
        ensures
            r.user_id@ == self.user_id@,
            r.current_password@ == vstd::utf8::encode_utf8(current_password@),
            r.new_password@ == vstd::utf8::encode_utf8(new_password@),
    {
        ChangePassword {
            user_id: self.user_id.clone(),
            current_password: vstd::slice::slice_to_vec(current_password.as_str().as_bytes()),
            new_password: vstd::slice::slice_to_vec(new_password.as_str().as_bytes()),
        }
    }
}

impl CliCommand for ChangePasswordCmd {
    fn explain(&self) -> String {
        let mut s = "change password for user with ID: ".to_owned();
        if self.user_id.check_wf() {
            s.append(self.user_id.as_string().as_str());
        }
        s
    }

    fn use_tracing(&self) -> bool {
        self.current_password.is_some() || self.new_password.is_some()
    }

    fn login_required(&self) -> bool {
        true
    }
}

/// Deletes a user.
#[derive(Debug)]
pub struct DeleteUserCmd {
    pub delete_user: DeleteUser,
}

impl DeleteUserCmd {
    /// Wraps the target user into a delete-user payload.
    pub fn new(user_id: Identifier) -> (r: DeleteUserCmd)
        ensures
            r.delete_user.user_id@ == user_id@,
    {
        DeleteUserCmd { delete_user: DeleteUser { user_id } }
    }
}

impl CliCommand for DeleteUserCmd {
    fn explain(&self) -> String {
        let mut s = "delete user with ID: ".to_owned();
        if self.delete_user.user_id.check_wf() {
            s.append(self.delete_user.user_id.as_string().as_str());
        }
        s
    }

    fn use_tracing(&self) -> bool {
        true
    }

    fn login_required(&self) -> bool {
        true
    }
}

} // verus!
