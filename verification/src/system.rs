//! The top-level engine: the streams map, the user accounts with their
//! permissions, the per-connection sessions with their authentication state,
//! and the dispatcher that takes a decoded command to an engine operation
//! and a response frame. Every command but ping and login requires an
//! authenticated session; permissions are explicit-allow.

use crate::command::UserStatus;
use crate::encoding::{fnv1a64, fnv1a64_of};
use crate::error::{IggyError, ResourceKind};
use crate::identifier::{IdView, Identifier};
use crate::message::Message;
use crate::partition::{wf_config, Consumer, PartitionConfig, PollStrategy};
use crate::stream::{
    id_matches, spec_create_topic_effect, spec_delete_topic_effect, spec_topic_exists,
    spec_topic_index, wf_stream, Stream,
};
use crate::topic::{spec_send_effect, spec_topic_poll_effect, spec_topic_store_effect};
use vstd::prelude::*;

verus! {

/// The global permission flags of a user; absence denies.
#[derive(Clone, Copy, Debug, PartialEq, Eq, Structural)]
pub struct Permissions {
    pub manage_servers: bool,
    pub read_servers: bool,
    pub manage_users: bool,
    pub read_users: bool,
    pub manage_streams: bool,
    pub read_streams: bool,
    pub manage_topics: bool,
    pub read_topics: bool,
    pub poll_messages: bool,
    pub send_messages: bool,
}

/// Every flag set: the root user's rights.
pub open spec fn spec_all_permissions() -> Permissions {
    Permissions {
        manage_servers: true,
        read_servers: true,
        manage_users: true,
        read_users: true,
        manage_streams: true,
        read_streams: true,
        manage_topics: true,
        read_topics: true,
        poll_messages: true,
        send_messages: true,
    }
}

/// No flag set: what a new user starts with.
pub open spec fn spec_no_permissions() -> Permissions {
    Permissions {
        manage_servers: false,
        read_servers: false,
        manage_users: false,
        read_users: false,
        manage_streams: false,
        read_streams: false,
        manage_topics: false,
        read_topics: false,
        poll_messages: false,
        send_messages: false,
    }
}

impl Permissions {
    /// Everything allowed: the root user's rights.
    pub fn all() -> (r: Permissions)
        ensures
            r == spec_all_permissions(),
            r == (Permissions {
                manage_servers: true,
                read_servers: true,
                manage_users: true,
                read_users: true,
                manage_streams: true,
                read_streams: true,
                manage_topics: true,
                read_topics: true,
                poll_messages: true,
                send_messages: true,
            }),
    {
        Permissions {
            manage_servers: true,
            read_servers: true,
            manage_users: true,
            read_users: true,
            manage_streams: true,
            read_streams: true,
            manage_topics: true,
            read_topics: true,
            poll_messages: true,
            send_messages: true,
        }
    }

    /// Nothing allowed: what a new user starts with.
    pub fn none() -> (r: Permissions)
        ensures
            r == spec_no_permissions(),
            r == (Permissions {
                manage_servers: false,
                read_servers: false,
                manage_users: false,
                read_users: false,
                manage_streams: false,
                read_streams: false,
                manage_topics: false,
                read_topics: false,
                poll_messages: false,
                send_messages: false,
            }),
    {
        Permissions {
            manage_servers: false,
            read_servers: false,
            manage_users: false,
            read_users: false,
            manage_streams: false,
            read_streams: false,
            manage_topics: false,
            read_topics: false,
            poll_messages: false,
            send_messages: false,
        }
    }
}

/// A user account. The password digest is opaque to the engine: equality is
/// all it ever asks of it.
#[derive(Debug)]
pub struct User {
    pub id: u32,
    pub username: Vec<u8>,
    pub password_hash: u64,
    pub status: UserStatus,
    pub permissions: Permissions,
    pub created_at: u64,
}

/// One live connection's authentication state.
#[derive(Clone, Copy, Debug, PartialEq, Eq, Structural)]
pub struct Session {
    pub client_id: u32,
    pub user_id: u32,
    pub authenticated: bool,
}

/// The engine's credential digest: the FNV-1a hash of the password bytes.
pub fn hash_password(password: &[u8]) -> (r: u64)
    ensures
        r == fnv1a64_of(password@),
{
    fnv1a64(password)
}

/// The id and the seeded credentials of the root user, created at first
/// boot.
pub const ROOT_USER_ID: u32 = 1;

/// The whole engine state.
#[derive(Debug)]
pub struct System {
    pub streams: Vec<Stream>,
    pub users: Vec<User>,
    pub sessions: Vec<Session>,
    pub config: PartitionConfig,
    pub created_at: u64,
}

/// A well-formed engine: streams unique by id and name and well formed;
/// users unique by id and username; sessions unique by client id.
pub open spec fn wf_system(s: &System) -> bool {
    &&& wf_config(s.config)
    &&& forall|i: int| 0 <= i < s.streams@.len() ==> wf_stream(#[trigger] &s.streams@[i])
    &&& forall|i: int, j: int|
        0 <= i < j < s.streams@.len() ==> (#[trigger] s.streams@[i]).id != (
        #[trigger] s.streams@[j]).id && s.streams@[i].name@ != s.streams@[j].name@
    &&& forall|i: int, j: int|
        0 <= i < j < s.users@.len() ==> (#[trigger] s.users@[i]).id != (#[trigger] s.users@[j]).id
            && s.users@[i].username@ != s.users@[j].username@
    &&& forall|i: int| 0 <= i < s.users@.len() ==> (#[trigger] s.users@[i]).id != 0
    &&& forall|i: int, j: int|
        0 <= i < j < s.sessions@.len() ==> (#[trigger] s.sessions@[i]).client_id != (
        #[trigger] s.sessions@[j]).client_id
}

/// Whether some stream of the sequence matches the identifier.
pub open spec fn spec_stream_exists(streams: Seq<Stream>, v: IdView) -> bool {
    exists|i: int|
        0 <= i < streams.len() && id_matches(v, (#[trigger] streams[i]).id, streams[i].name@)
}

/// The session of a client, if one is registered.
pub open spec fn spec_session_of(sessions: Seq<Session>, client_id: u32) -> Option<Session> {
    if exists|i: int| 0 <= i < sessions.len() && (#[trigger] sessions[i]).client_id == client_id {
        let i = choose|i: int|
            0 <= i < sessions.len() && (#[trigger] sessions[i]).client_id == client_id;
        Some(sessions[i])
    } else {
        None
    }
}

/// Whether the client's session is authenticated.
pub open spec fn spec_authenticated(sessions: Seq<Session>, client_id: u32) -> bool {
    match spec_session_of(sessions, client_id) {
        Some(s) => s.authenticated,
        None => false,
    }
}

/// The index of the stream the identifier picks out; ids and names are
/// unique, so there is at most one.
pub open spec fn spec_stream_index(streams: Seq<Stream>, v: IdView) -> int {
    choose|i: int|
        0 <= i < streams.len() && id_matches(v, (#[trigger] streams[i]).id, streams[i].name@)
}

/// Which error a stream/topic lookup reports, if it fails.
pub open spec fn spec_find_err(streams: Seq<Stream>, sv: IdView, tv: IdView) -> Option<IggyError> {
    if !spec_stream_exists(streams, sv) {
        Some(IggyError::ResourceNotFound(ResourceKind::Stream))
    } else if !spec_topic_exists(streams[spec_stream_index(streams, sv)].topics@, tv) {
        Some(IggyError::ResourceNotFound(ResourceKind::Topic))
    } else {
        None
    }
}

/// Only the topic at (si, ti) differs between the two stream lists; the
/// stream around it keeps its identity.
pub open spec fn spec_only_topic_changed(s0: &System, s1: &System, si: int, ti: int) -> bool {
    &&& s1.streams@.len() == s0.streams@.len()
    &&& forall|k: int|
        0 <= k < s0.streams@.len() && k != si ==> #[trigger] s1.streams@[k] == s0.streams@[k]
    &&& s1.streams@[si].id == s0.streams@[si].id
    &&& s1.streams@[si].name@ == s0.streams@[si].name@
    &&& s1.streams@[si].created_at == s0.streams@[si].created_at
    &&& s1.streams@[si].topics@.len() == s0.streams@[si].topics@.len()
    &&& forall|j: int|
        0 <= j < s0.streams@[si].topics@.len() && j != ti ==> #[trigger] s1.streams@[si].topics@[j]
            == s0.streams@[si].topics@[j]
}

/// Whether some user matches the identifier (numeric id or username).
pub open spec fn spec_user_exists(users: Seq<User>, v: IdView) -> bool {
    exists|i: int| 0 <= i < users.len() && id_matches(v, (#[trigger] users[i]).id, users[i].username@)
}

/// The index of the user the identifier picks out; ids and usernames are
/// unique, so there is at most one.
pub open spec fn spec_user_index(users: Seq<User>, v: IdView) -> int {
    choose|i: int| 0 <= i < users.len() && id_matches(v, (#[trigger] users[i]).id, users[i].username@)
}

/// Whether some user carries the username.
pub open spec fn spec_user_named(users: Seq<User>, name: Seq<u8>) -> bool {
    exists|i: int| 0 <= i < users.len() && (#[trigger] users[i]).username@ == name
}

/// The index of the user with the username; usernames are unique.
pub open spec fn spec_user_name_index(users: Seq<User>, name: Seq<u8>) -> int {
    choose|i: int| 0 <= i < users.len() && (#[trigger] users[i]).username@ == name
}

/// The highest user id taken.
pub open spec fn spec_max_user_id(users: Seq<User>) -> int
    decreases users.len(),
{
    if users.len() == 0 {
        0int
    } else {
        let rest = spec_max_user_id(users.drop_last());
        if users.last().id > rest {
            users.last().id as int
        } else {
            rest
        }
    }
}

/// The seeded root username.
pub open spec fn spec_root_username() -> Seq<u8> {
    seq![105u8, 103u8, 103u8, 121u8]
}

/// Replacing the one session of a client — keeping its client id — changes
/// what is registered for that client and nothing else.
pub proof fn lemma_session_update(s0: Seq<Session>, s1: Seq<Session>, si: int, client_id: u32)
    requires
        forall|a: int, b: int|
            0 <= a < b < s0.len() ==> (#[trigger] s0[a]).client_id != (#[trigger] s0[b]).client_id,
        0 <= si < s0.len(),
        s0[si].client_id == client_id,
        s1.len() == s0.len(),
        s1[si].client_id == client_id,
        forall|k: int| 0 <= k < s0.len() && k != si ==> #[trigger] s1[k] == s0[k],
    ensures
        forall|a: int, b: int|
            0 <= a < b < s1.len() ==> (#[trigger] s1[a]).client_id != (#[trigger] s1[b]).client_id,
        spec_session_of(s1, client_id) == Some(s1[si]),
        forall|c: u32|
            c != client_id ==> #[trigger] spec_session_of(s1, c) == spec_session_of(s0, c),
{
    assert forall|a: int, b: int|
        0 <= a < b < s1.len() implies (#[trigger] s1[a]).client_id != (
    #[trigger] s1[b]).client_id by {
        assert(s0[a].client_id != s0[b].client_id);
        if a != si {
            assert(s1[a] == s0[a]);
        }
        if b != si {
            assert(s1[b] == s0[b]);
        }
    }
    assert(spec_session_of(s1, client_id) == Some(s1[si])) by {
        assert(s1[si].client_id == client_id);
        let k = choose|k: int| 0 <= k < s1.len() && (#[trigger] s1[k]).client_id == client_id;
        if k != si {
            if k < si {
                assert(s1[k].client_id != s1[si].client_id);
            } else {
                assert(s1[si].client_id != s1[k].client_id);
            }
        }
    }
    assert forall|c: u32| c != client_id implies #[trigger] spec_session_of(s1, c)
        == spec_session_of(s0, c) by {
        assert(forall|k: int|
            0 <= k < s1.len() ==> (#[trigger] s1[k]).client_id == s0[k].client_id) by {
            assert(forall|k: int|
                0 <= k < s1.len() && k != si ==> (#[trigger] s1[k]).client_id == s0[k].client_id);
        }
        if exists|k: int| 0 <= k < s0.len() && (#[trigger] s0[k]).client_id == c {
            let k0 = choose|k: int| 0 <= k < s0.len() && (#[trigger] s0[k]).client_id == c;
            assert(s1[k0].client_id == c);
            let k1 = choose|k: int| 0 <= k < s1.len() && (#[trigger] s1[k]).client_id == c;
            if k1 != k0 {
                assert(s0[k1].client_id == c);
                if k0 < k1 {
                    assert(s0[k0].client_id != s0[k1].client_id);
                } else {
                    assert(s0[k1].client_id != s0[k0].client_id);
                }
            }
            assert(k0 != si);
            assert(s1[k0] == s0[k0]);
        } else {
            assert(forall|k: int| 0 <= k < s1.len() ==> (#[trigger] s1[k]).client_id != c);
        }
    }
}

/// A system whose streams differ from a well-formed one only in one topic —
/// which kept its id, name and owner and is itself well formed — is well
/// formed again.
pub proof fn lemma_wf_after_topic_update(s0: &System, s1: &System, si: int, ti: int)
    requires
        wf_system(s0),
        s1.users@ == s0.users@,
        s1.sessions@ == s0.sessions@,
        s1.config == s0.config,
        0 <= si < s0.streams@.len(),
        0 <= ti < s0.streams@[si].topics@.len(),
        spec_only_topic_changed(s0, s1, si, ti),
        crate::topic::wf_topic(&s1.streams@[si].topics@[ti]),
        s1.streams@[si].topics@[ti].id == s0.streams@[si].topics@[ti].id,
        s1.streams@[si].topics@[ti].name@ == s0.streams@[si].topics@[ti].name@,
        s1.streams@[si].topics@[ti].stream_id == s0.streams@[si].topics@[ti].stream_id,
    ensures
        wf_system(s1),
{
    assert forall|j: int|
        0 <= j < s1.streams@[si].topics@.len() implies crate::topic::wf_topic(
        &(#[trigger] s1.streams@[si].topics@[j]),
    ) && s1.streams@[si].topics@[j].stream_id == s1.streams@[si].id && s1.streams@[si].topics@[
        j
    ].id != 0 by {
        if j != ti {
            assert(s1.streams@[si].topics@[j] == s0.streams@[si].topics@[j]);
        }
    }
    assert forall|a: int, b: int|
        0 <= a < b < s1.streams@[si].topics@.len() implies (#[trigger] s1.streams@[si].topics@[
        a
    ]).id != (#[trigger] s1.streams@[si].topics@[b]).id && s1.streams@[si].topics@[a].name@
        != s1.streams@[si].topics@[b].name@ by {
        if a != ti {
            assert(s1.streams@[si].topics@[a] == s0.streams@[si].topics@[a]);
        }
        if b != ti {
            assert(s1.streams@[si].topics@[b] == s0.streams@[si].topics@[b]);
        }
        assert(s0.streams@[si].topics@[a].id != s0.streams@[si].topics@[b].id);
        assert(s0.streams@[si].topics@[a].name@ != s0.streams@[si].topics@[b].name@);
    }
    assert(wf_stream(&s1.streams@[si]));
    assert forall|k: int|
        0 <= k < s1.streams@.len() implies wf_stream(&(#[trigger] s1.streams@[k])) by {
        if k != si {
            assert(s1.streams@[k] == s0.streams@[k]);
        }
    }
    assert forall|a: int, b: int|
        0 <= a < b < s1.streams@.len() implies (#[trigger] s1.streams@[a]).id != (
        #[trigger] s1.streams@[b]).id && s1.streams@[a].name@ != s1.streams@[b].name@ by {
        if a != si {
            assert(s1.streams@[a] == s0.streams@[a]);
        }
        if b != si {
            assert(s1.streams@[b] == s0.streams@[b]);
        }
        assert(s0.streams@[a].id != s0.streams@[b].id);
        assert(s0.streams@[a].name@ != s0.streams@[b].name@);
    }
}

impl System {
    /// A fresh engine with no streams, no sessions, and the root user
    /// seeded with the default credentials.
    pub fn new(config: PartitionConfig, created_at: u64) -> (s: System)
        requires
            wf_config(config),
        ensures
            wf_system(&s),
            s.streams@.len() == 0,
            s.sessions@.len() == 0,
            s.users@.len() == 1,
            s.users@[0].id == ROOT_USER_ID,
            s.users@[0].username@ == spec_root_username(),
            s.users@[0].password_hash == fnv1a64_of(spec_root_username()),
            s.users@[0].status == UserStatus::Active,
            s.users@[0].permissions == spec_all_permissions(),
            s.config == config,
            s.created_at == created_at,
    {
        let mut users: Vec<User> = Vec::new();
        // the bytes of the root username and default password
        let root_name: Vec<u8> = vec![105u8, 103u8, 103u8, 121u8];
        proof {
            assert(root_name@ =~= spec_root_username());
        }
        let root_hash = hash_password(root_name.as_slice());
        users.push(
            User {
                id: ROOT_USER_ID,
                username: root_name,
                password_hash: root_hash,
                status: UserStatus::Active,
                permissions: Permissions::all(),
                created_at,
            },
        );
        System { streams: Vec::new(), users, sessions: Vec::new(), config, created_at }
    }

    /// The index of the client's session, if registered.
    pub(crate) fn find_session(&self, client_id: u32) -> (r: Option<usize>)
        requires
            wf_system(self),
        ensures
            r is Some ==> 0 <= r->0 < self.sessions@.len() && self.sessions@[r->0 as int].client_id
                == client_id && spec_session_of(self.sessions@, client_id) == Some(
                self.sessions@[r->0 as int],
            ),
            r is None ==> spec_session_of(self.sessions@, client_id) is None,
    {
        let mut i: usize = 0;
        while i < self.sessions.len()
            invariant
                wf_system(self),
                0 <= i <= self.sessions@.len(),
                forall|j: int| 0 <= j < i ==> (#[trigger] self.sessions@[j]).client_id != client_id,
            decreases self.sessions@.len() - i,
        {
            if self.sessions[i].client_id == client_id {
                proof {
                    let k = choose|k: int|
                        0 <= k < self.sessions@.len() && (#[trigger] self.sessions@[k]).client_id
                            == client_id;
                    assert(self.sessions@[k] == self.sessions@[i as int]);
                }
                return Some(i);
            }
            i = i + 1;
        }
        None
    }

    /// Registers a connection; a client id already registered keeps its
    /// session.
    pub fn add_client(&mut self, client_id: u32)
        requires
            wf_system(old(self)),
        ensures
            wf_system(final(self)),
            spec_session_of(final(self).sessions@, client_id) is Some,
            final(self).streams@ == old(self).streams@,
            final(self).users@ == old(self).users@,
            spec_session_of(old(self).sessions@, client_id) is Some ==> final(self).sessions@
                == old(self).sessions@,
            spec_session_of(old(self).sessions@, client_id) is None ==> spec_session_of(
                final(self).sessions@,
                client_id,
            ) == Some(Session { client_id, user_id: 0, authenticated: false }),
    {
        match self.find_session(client_id) {
            Some(_) => {},
            None => {
                let s = Session { client_id, user_id: 0, authenticated: false };
                self.sessions.push(s);
                proof {
                    let n = self.sessions@.len() - 1;
                    assert(self.sessions@[n] == s);
                    assert forall|a: int, b: int|
                        0 <= a < b < self.sessions@.len() implies (
                        #[trigger] self.sessions@[a]).client_id != (
                        #[trigger] self.sessions@[b]).client_id by {
                        if b < n {
                            assert(self.sessions@[a] == old(self).sessions@[a]);
                            assert(self.sessions@[b] == old(self).sessions@[b]);
                        } else {
                            assert(self.sessions@[a] == old(self).sessions@[a]);
                        }
                    }
                    let k = choose|k: int|
                        0 <= k < self.sessions@.len() && (#[trigger] self.sessions@[k]).client_id
                            == client_id;
                    assert(self.sessions@[k] == s);
                }
            },
        }
    }

    /// Removes a connection's session, if any.
    pub fn delete_client(&mut self, client_id: u32)
        requires
            wf_system(old(self)),
        ensures
            wf_system(final(self)),
            spec_session_of(final(self).sessions@, client_id) is None,
            final(self).streams@ == old(self).streams@,
            final(self).users@ == old(self).users@,
    {
        match self.find_session(client_id) {
            Some(i) => {
                self.sessions.remove(i);
                proof {
                    assert forall|a: int, b: int|
                        0 <= a < b < self.sessions@.len() implies (
                        #[trigger] self.sessions@[a]).client_id != (
                        #[trigger] self.sessions@[b]).client_id by {
                        let a1 = if a < i {
                            a
                        } else {
                            a + 1
                        };
                        let b1 = if b < i {
                            b
                        } else {
                            b + 1
                        };
                        assert(self.sessions@[a] == old(self).sessions@[a1]);
                        assert(self.sessions@[b] == old(self).sessions@[b1]);
                    }
                    assert forall|k: int|
                        0 <= k < self.sessions@.len() implies (
                        #[trigger] self.sessions@[k]).client_id != client_id by {
                        if k < i {
                            assert(self.sessions@[k] == old(self).sessions@[k]);
                            assert(old(self).sessions@[k].client_id != old(self).sessions@[
                                i as int
                            ].client_id);
                        } else {
                            assert(self.sessions@[k] == old(self).sessions@[k + 1]);
                            assert(old(self).sessions@[k + 1].client_id != old(self).sessions@[
                                i as int
                            ].client_id);
                        }
                    }
                }
            },
            None => {},
        }
    }

    /// The index of the user with this username, if any.
    fn find_user_by_name(&self, username: &Vec<u8>) -> (r: Option<usize>)
        requires
            wf_system(self),
        ensures
            r is Some ==> 0 <= r->0 < self.users@.len() && self.users@[r->0 as int].username@
                == username@ && r->0 == spec_user_name_index(self.users@, username@)
                && spec_user_named(self.users@, username@),
            r is None ==> !spec_user_named(self.users@, username@),
    {
        let mut i: usize = 0;
        while i < self.users.len()
            invariant
                wf_system(self),
                0 <= i <= self.users@.len(),
                forall|j: int| 0 <= j < i ==> (#[trigger] self.users@[j]).username@ != username@,
            decreases self.users@.len() - i,
        {
            let same = self.users[i].username == *username;
            proof {
                if same {
                    assert(self.users@[i as int].username@ =~= username@);
                    let k = spec_user_name_index(self.users@, username@);
                    assert(0 <= k < self.users@.len() && self.users@[k].username@ == username@) by {
                        assert(self.users@[i as int].username@ == username@);
                    }
                    if k != i {
                        assert(self.users@[k].username@ != self.users@[i as int].username@);
                    }
                }
            }
            if same {
                return Some(i);
            }
            i = i + 1;
        }
        None
    }

    /// The index of the user the identifier picks out, if any.
    fn find_user(&self, user_id: &Identifier) -> (r: Option<usize>)
        requires
            wf_system(self),
            user_id.wf(),
        ensures
            r is Some ==> 0 <= r->0 < self.users@.len() && id_matches(
                user_id@,
                self.users@[r->0 as int].id,
                self.users@[r->0 as int].username@,
            ) && r->0 == spec_user_index(self.users@, user_id@) && spec_user_exists(
                self.users@,
                user_id@,
            ),
            r is None ==> !spec_user_exists(self.users@, user_id@),
    {
        let mut i: usize = 0;
        while i < self.users.len()
            invariant
                wf_system(self),
                user_id.wf(),
                0 <= i <= self.users@.len(),
                forall|j: int|
                    0 <= j < i ==> !id_matches(
                        user_id@,
                        (#[trigger] self.users@[j]).id,
                        self.users@[j].username@,
                    ),
            decreases self.users@.len() - i,
        {
            let u = &self.users[i];
            let hit = match user_id.kind {
                crate::identifier::IdKind::Numeric => {
                    let n = crate::encoding::read_u32_le(user_id.value.as_slice(), 0);
                    proof {
                        assert(user_id.value@.subrange(0, 4) =~= user_id.value@);
                    }
                    n == u.id
                },
                crate::identifier::IdKind::Named => {
                    let same = user_id.value == u.username;
                    proof {
                        if same {
                            assert(user_id.value@ =~= u.username@);
                        }
                    }
                    same
                },
            };
            if hit {
                proof {
                    let k = spec_user_index(self.users@, user_id@);
                    assert(0 <= k < self.users@.len() && id_matches(
                        user_id@,
                        self.users@[k].id,
                        self.users@[k].username@,
                    )) by {
                        assert(id_matches(
                            user_id@,
                            self.users@[i as int].id,
                            self.users@[i as int].username@,
                        ));
                    }
                    if k != i {
                        assert(self.users@[k].id != self.users@[i as int].id);
                        assert(self.users@[k].username@ != self.users@[i as int].username@);
                    }
                }
                return Some(i);
            }
            i = i + 1;
        }
        None
    }

    /// Authenticates a session with a username and password. Success needs a
    /// registered session, a known username, the matching password digest,
    /// and an active account; everything else is "invalid credentials".
    pub fn login_user(&mut self, client_id: u32, username: &Vec<u8>, password: &Vec<u8>) -> (r:
        Result<u32, IggyError>)
        requires
            wf_system(old(self)),
        ensures
            wf_system(final(self)),
            final(self).streams@ == old(self).streams@,
            final(self).users@ == old(self).users@,
            final(self).config == old(self).config,
            ({
                let ok = spec_session_of(old(self).sessions@, client_id) is Some
                    && spec_user_named(old(self).users@, username@) && {
                    let ui = spec_user_name_index(old(self).users@, username@);
                    old(self).users@[ui].password_hash == fnv1a64_of(password@) && old(
                        self,
                    ).users@[ui].status == UserStatus::Active
                };
                &&& (r is Ok <==> ok)
                &&& (r is Err ==> r == Result::<u32, IggyError>::Err(IggyError::InvalidCredentials)
                    && final(self).sessions@ == old(self).sessions@)
                &&& (r is Ok ==> {
                    let ui = spec_user_name_index(old(self).users@, username@);
                    &&& r->Ok_0 == old(self).users@[ui].id
                    &&& spec_session_of(final(self).sessions@, client_id) == Some(
                        Session {
                            client_id,
                            user_id: old(self).users@[ui].id,
                            authenticated: true,
                        },
                    )
                    &&& final(self).sessions@.len() == old(self).sessions@.len()
                    &&& forall|c: u32|
                        c != client_id ==> #[trigger] spec_session_of(final(self).sessions@, c)
                            == spec_session_of(old(self).sessions@, c)
                })
            }),
    {
        let si = match self.find_session(client_id) {
            Some(i) => i,
            None => {
                return Err(IggyError::InvalidCredentials);
            },
        };
        let ui = match self.find_user_by_name(username) {
            Some(i) => i,
            None => {
                return Err(IggyError::InvalidCredentials);
            },
        };
        let h = hash_password(password.as_slice());
        let active = match self.users[ui].status {
            UserStatus::Active => true,
            UserStatus::Inactive => false,
        };
        if self.users[ui].password_hash != h || !active {
            return Err(IggyError::InvalidCredentials);
        }
        let user_id = self.users[ui].id;
        let s = self.sessions[si];
        self.sessions[si] = Session { client_id: s.client_id, user_id, authenticated: true };
        proof {
            lemma_session_update(old(self).sessions@, self.sessions@, si as int, client_id);
        }
        Ok(user_id)
    }

    /// Ends a session's authentication.
    pub fn logout_user(&mut self, client_id: u32) -> (r: Result<(), IggyError>)
        requires
            wf_system(old(self)),
        ensures
            wf_system(final(self)),
            final(self).streams@ == old(self).streams@,
            final(self).users@ == old(self).users@,
            final(self).config == old(self).config,
            r is Ok <==> spec_session_of(old(self).sessions@, client_id) is Some,
            r is Err ==> r == Result::<(), IggyError>::Err(IggyError::Unauthenticated)
                && final(self).sessions@ == old(self).sessions@,
            r is Ok ==> spec_session_of(final(self).sessions@, client_id) == Some(
                Session { client_id, user_id: 0, authenticated: false },
            ) && final(self).sessions@.len() == old(self).sessions@.len() && (forall|c: u32|
                c != client_id ==> #[trigger] spec_session_of(final(self).sessions@, c)
                    == spec_session_of(old(self).sessions@, c)),
    {
        let si = match self.find_session(client_id) {
            Some(i) => i,
            None => {
                return Err(IggyError::Unauthenticated);
            },
        };
        let s = self.sessions[si];
        self.sessions[si] = Session { client_id: s.client_id, user_id: 0, authenticated: false };
        proof {
            lemma_session_update(old(self).sessions@, self.sessions@, si as int, client_id);
        }
        Ok(())
    }

    /// The index of the stream the identifier picks out, if any.
    pub fn find_stream(&self, stream_id: &Identifier) -> (r: Option<usize>)
        requires
            wf_system(self),
            stream_id.wf(),
        ensures
            r is Some ==> 0 <= r->0 < self.streams@.len() && id_matches(
                stream_id@,
                self.streams@[r->0 as int].id,
                self.streams@[r->0 as int].name@,
            ) && r->0 == spec_stream_index(self.streams@, stream_id@),
            r is None ==> !spec_stream_exists(self.streams@, stream_id@),
            r is Some ==> spec_stream_exists(self.streams@, stream_id@),
    {
        let mut i: usize = 0;
        while i < self.streams.len()
            invariant
                wf_system(self),
                stream_id.wf(),
                0 <= i <= self.streams@.len(),
                forall|j: int|
                    0 <= j < i ==> !id_matches(
                        stream_id@,
                        (#[trigger] self.streams@[j]).id,
                        self.streams@[j].name@,
                    ),
            decreases self.streams@.len() - i,
        {
            let s = &self.streams[i];
            let hit = match stream_id.kind {
                crate::identifier::IdKind::Numeric => {
                    let n = crate::encoding::read_u32_le(stream_id.value.as_slice(), 0);
                    proof {
                        assert(stream_id.value@.subrange(0, 4) =~= stream_id.value@);
                    }
                    n == s.id
                },
                crate::identifier::IdKind::Named => {
                    let same = stream_id.value == s.name;
                    proof {
                        if same {
                            assert(stream_id.value@ =~= s.name@);
                        }
                    }
                    same
                },
            };
            if hit {
                proof {
                    let k = spec_stream_index(self.streams@, stream_id@);
                    assert(0 <= k < self.streams@.len() && id_matches(
                        stream_id@,
                        self.streams@[k].id,
                        self.streams@[k].name@,
                    )) by {
                        assert(id_matches(
                            stream_id@,
                            self.streams@[i as int].id,
                            self.streams@[i as int].name@,
                        ));
                    }
                    if k != i {
                        assert(self.streams@[k].id != self.streams@[i as int].id);
                        assert(self.streams@[k].name@ != self.streams@[i as int].name@);
                    }
                }
                return Some(i);
            }
            i = i + 1;
        }
        None
    }

    /// Creates a stream. A zero or taken id, or a taken name, is refused:
    /// the same create again always fails with "already exists".
    #[verifier::loop_isolation(false)]
    pub fn create_stream(&mut self, stream_id: u32, name: Vec<u8>, created_at: u64) -> (r: Result<
        (),
        IggyError,
    >)
        requires
            wf_system(old(self)),
        ensures
            wf_system(final(self)),
            final(self).users@ == old(self).users@,
            final(self).sessions@ == old(self).sessions@,
            ({
                let taken = exists|i: int|
                    0 <= i < old(self).streams@.len() && ((#[trigger] old(self).streams@[i]).id
                        == stream_id || old(self).streams@[i].name@ == name@);
                let valid = stream_id != 0 && 1 <= name@.len() <= 255;
                &&& (r is Ok <==> valid && !taken)
                &&& (valid && taken ==> r == Result::<(), IggyError>::Err(
                    IggyError::ResourceAlreadyExists(ResourceKind::Stream),
                ))
                &&& (r is Ok ==> final(self).streams@.len() == old(self).streams@.len() + 1
                    && final(self).streams@.take(old(self).streams@.len() as int) == old(
                    self,
                ).streams@ && final(self).streams@.last().id == stream_id
                    && final(self).streams@.last().name@ == name@
                    && final(self).streams@.last().topics@.len() == 0)
                &&& (r is Err ==> final(self).streams@ == old(self).streams@)
            }),
    {
        if stream_id == 0 {
            return Err(IggyError::InvalidIdentifier);
        }
        if name.len() == 0 {
            return Err(IggyError::NameTooShort);
        }
        if name.len() > 255 {
            return Err(IggyError::NameTooLong);
        }
        let mut i: usize = 0;
        while i < self.streams.len()
            invariant
                0 <= i <= self.streams@.len(),
                self.streams@ == old(self).streams@,
                forall|j: int|
                    0 <= j < i ==> (#[trigger] self.streams@[j]).id != stream_id
                        && self.streams@[j].name@ != name@,
            decreases self.streams@.len() - i,
        {
            let s = &self.streams[i];
            let same_name = s.name == name;
            proof {
                if same_name {
                    assert(s.name@ =~= name@);
                }
            }
            if s.id == stream_id || same_name {
                return Err(IggyError::ResourceAlreadyExists(ResourceKind::Stream));
            }
            i = i + 1;
        }
        let stream = match Stream::new(stream_id, name, created_at) {
            Ok(s) => s,
            Err(e) => {
                return Err(e);
            },
        };
        self.streams.push(stream);
        proof {
            assert(self.streams@.take(old(self).streams@.len() as int) =~= old(self).streams@);
            assert forall|a: int, b: int|
                0 <= a < b < self.streams@.len() implies (#[trigger] self.streams@[a]).id != (
                #[trigger] self.streams@[b]).id && self.streams@[a].name@
                != self.streams@[b].name@ by {
                assert(self.streams@[a] == old(self).streams@[a]);
                if b < self.streams@.len() - 1 {
                    assert(self.streams@[b] == old(self).streams@[b]);
                }
            }
        }
        Ok(())
    }

    /// Deletes the stream the identifier picks out, with every topic in it;
    /// a missing stream is reported, and deleting twice reports the same.
    pub fn delete_stream(&mut self, stream_id: &Identifier) -> (r: Result<(), IggyError>)
        requires
            wf_system(old(self)),
            stream_id.wf(),
        ensures
            wf_system(final(self)),
            final(self).users@ == old(self).users@,
            final(self).sessions@ == old(self).sessions@,
            r is Ok <==> spec_stream_exists(old(self).streams@, stream_id@),
            r is Err ==> r == Result::<(), IggyError>::Err(IggyError::ResourceNotFound(
                ResourceKind::Stream,
            )) && final(self).streams@ == old(self).streams@,
            r is Ok ==> final(self).streams@ == old(self).streams@.remove(
                spec_stream_index(old(self).streams@, stream_id@),
            ),
    {
        match self.find_stream(stream_id) {
            Some(i) => {
                self.streams.remove(i);
                proof {
                    assert forall|a: int, b: int|
                        0 <= a < b < self.streams@.len() implies (#[trigger] self.streams@[a]).id
                        != (#[trigger] self.streams@[b]).id && self.streams@[a].name@
                        != self.streams@[b].name@ by {
                        let a1 = if a < i {
                            a
                        } else {
                            a + 1
                        };
                        let b1 = if b < i {
                            b
                        } else {
                            b + 1
                        };
                        assert(self.streams@[a] == old(self).streams@[a1]);
                        assert(self.streams@[b] == old(self).streams@[b1]);
                    }
                    assert forall|k: int|
                        0 <= k < self.streams@.len() implies wf_stream(
                        &(#[trigger] self.streams@[k]),
                    ) by {
                        if k < i {
                            assert(self.streams@[k] == old(self).streams@[k]);
                        } else {
                            assert(self.streams@[k] == old(self).streams@[k + 1]);
                        }
                    }
                }
                Ok(())
            },
            None => Err(IggyError::ResourceNotFound(ResourceKind::Stream)),
        }
    }
}

impl System {
    /// Creates a topic in the stream the identifier picks out.
    pub fn create_topic(
        &mut self,
        stream_id: &Identifier,
        topic_id: u32,
        partitions_count: u32,
        name: Vec<u8>,
        created_at: u64,
    ) -> (r: Result<(), IggyError>)
        requires
            wf_system(old(self)),
            stream_id.wf(),
        ensures
            wf_system(final(self)),
            final(self).users@ == old(self).users@,
            final(self).sessions@ == old(self).sessions@,
            final(self).config == old(self).config,
            !spec_stream_exists(old(self).streams@, stream_id@) ==> r == Result::<
                (),
                IggyError,
            >::Err(IggyError::ResourceNotFound(ResourceKind::Stream)) && final(self).streams@
                == old(self).streams@,
            spec_stream_exists(old(self).streams@, stream_id@) ==> ({
                let si = spec_stream_index(old(self).streams@, stream_id@);
                &&& final(self).streams@.len() == old(self).streams@.len()
                &&& (forall|k: int|
                    0 <= k < old(self).streams@.len() && k != si
                        ==> #[trigger] final(self).streams@[k] == old(self).streams@[k])
                &&& spec_create_topic_effect(
                    &old(self).streams@[si],
                    &final(self).streams@[si],
                    topic_id,
                    name@,
                    partitions_count,
                    r,
                )
            }),
    {
        let i = match self.find_stream(stream_id) {
            Some(i) => i,
            None => {
                return Err(IggyError::ResourceNotFound(ResourceKind::Stream));
            },
        };
        let config = self.config;
        let st = &mut self.streams[i];
        let r = st.create_topic(topic_id, name, partitions_count, config, created_at);
        proof {
            assert forall|k: int|
                0 <= k < self.streams@.len() implies wf_stream(&(#[trigger] self.streams@[k])) by {
                if k != i {
                    assert(self.streams@[k] == old(self).streams@[k]);
                }
            }
            assert forall|a: int, b: int|
                0 <= a < b < self.streams@.len() implies (#[trigger] self.streams@[a]).id != (
                #[trigger] self.streams@[b]).id && self.streams@[a].name@
                != self.streams@[b].name@ by {
                if a != i {
                    assert(self.streams@[a] == old(self).streams@[a]);
                }
                if b != i {
                    assert(self.streams@[b] == old(self).streams@[b]);
                }
                assert(old(self).streams@[a].id != old(self).streams@[b].id);
                assert(old(self).streams@[a].name@ != old(self).streams@[b].name@);
            }
        }
        r
    }

    /// Deletes a topic from the stream the identifier picks out.
    pub fn delete_topic(&mut self, stream_id: &Identifier, topic_id: &Identifier) -> (r: Result<
        (),
        IggyError,
    >)
        requires
            wf_system(old(self)),
            stream_id.wf(),
            topic_id.wf(),
        ensures
            wf_system(final(self)),
            final(self).users@ == old(self).users@,
            final(self).sessions@ == old(self).sessions@,
            final(self).config == old(self).config,
            !spec_stream_exists(old(self).streams@, stream_id@) ==> r == Result::<
                (),
                IggyError,
            >::Err(IggyError::ResourceNotFound(ResourceKind::Stream)) && final(self).streams@
                == old(self).streams@,
            spec_stream_exists(old(self).streams@, stream_id@) ==> ({
                let si = spec_stream_index(old(self).streams@, stream_id@);
                &&& final(self).streams@.len() == old(self).streams@.len()
                &&& (forall|k: int|
                    0 <= k < old(self).streams@.len() && k != si
                        ==> #[trigger] final(self).streams@[k] == old(self).streams@[k])
                &&& spec_delete_topic_effect(
                    &old(self).streams@[si],
                    &final(self).streams@[si],
                    topic_id@,
                    r,
                )
            }),
    {
        let i = match self.find_stream(stream_id) {
            Some(i) => i,
            None => {
                return Err(IggyError::ResourceNotFound(ResourceKind::Stream));
            },
        };
        let st = &mut self.streams[i];
        let r = st.delete_topic(topic_id);
        proof {
            assert forall|k: int|
                0 <= k < self.streams@.len() implies wf_stream(&(#[trigger] self.streams@[k])) by {
                if k != i {
                    assert(self.streams@[k] == old(self).streams@[k]);
                }
            }
            assert forall|a: int, b: int|
                0 <= a < b < self.streams@.len() implies (#[trigger] self.streams@[a]).id != (
                #[trigger] self.streams@[b]).id && self.streams@[a].name@
                != self.streams@[b].name@ by {
                if a != i {
                    assert(self.streams@[a] == old(self).streams@[a]);
                }
                if b != i {
                    assert(self.streams@[b] == old(self).streams@[b]);
                }
                assert(old(self).streams@[a].id != old(self).streams@[b].id);
                assert(old(self).streams@[a].name@ != old(self).streams@[b].name@);
            }
        }
        r
    }

    /// Runs `f`-style topic access: finds the stream, then the topic. The
    /// caller gets the indices so mutation stays in one place.
    pub(crate) fn find_stream_topic(&self, stream_id: &Identifier, topic_id: &Identifier) -> (r:
        Result<(usize, usize), IggyError>)
        requires
            wf_system(self),
            stream_id.wf(),
            topic_id.wf(),
        ensures
            r is Err <==> spec_find_err(self.streams@, stream_id@, topic_id@) is Some,
            r is Err ==> r == Result::<(usize, usize), IggyError>::Err(
                spec_find_err(self.streams@, stream_id@, topic_id@)->0,
            ),
            r is Ok ==> {
                let (si, ti) = r->Ok_0;
                &&& si == spec_stream_index(self.streams@, stream_id@)
                &&& ti == spec_topic_index(self.streams@[si as int].topics@, topic_id@)
                &&& 0 <= si < self.streams@.len()
                &&& 0 <= ti < self.streams@[si as int].topics@.len()
            },
    {
        let si = match self.find_stream(stream_id) {
            Some(i) => i,
            None => {
                return Err(IggyError::ResourceNotFound(ResourceKind::Stream));
            },
        };
        let ti = match self.streams[si].find_topic(topic_id) {
            Some(i) => i,
            None => {
                return Err(IggyError::ResourceNotFound(ResourceKind::Topic));
            },
        };
        Ok((si, ti))
    }

    /// Appends a batch to the topic the identifiers pick out, routed by the
    /// partitioning rule; returns the partition id the batch landed in.
    pub fn send_messages(
        &mut self,
        stream_id: &Identifier,
        topic_id: &Identifier,
        partitioning: &crate::command::Partitioning,
        batch: Vec<Message>,
        now: u64,
    ) -> (r: Result<u32, IggyError>)
        requires
            wf_system(old(self)),
            stream_id.wf(),
            topic_id.wf(),
        ensures
            wf_system(final(self)),
            final(self).users@ == old(self).users@,
            final(self).sessions@ == old(self).sessions@,
            final(self).config == old(self).config,
            match spec_find_err(old(self).streams@, stream_id@, topic_id@) {
                Some(e) => r == Result::<u32, IggyError>::Err(e) && final(self).streams@ == old(
                    self,
                ).streams@,
                None => {
                    let si = spec_stream_index(old(self).streams@, stream_id@);
                    let ti = spec_topic_index(old(self).streams@[si].topics@, topic_id@);
                    &&& spec_only_topic_changed(old(self), final(self), si, ti)
                    &&& spec_send_effect(
                        &old(self).streams@[si].topics@[ti],
                        &final(self).streams@[si].topics@[ti],
                        partitioning@,
                        batch@.map_values(|m: Message| m@),
                        now,
                        r,
                    )
                },
            },
    {
        let (si, ti) = match self.find_stream_topic(stream_id, topic_id) {
            Ok(p) => p,
            Err(e) => {
                return Err(e);
            },
        };
        let st = &mut self.streams[si];
        let t = &mut st.topics[ti];
        let r = t.send_messages(partitioning, batch, now);
        proof {
            lemma_wf_after_topic_update(old(self), self, si as int, ti as int);
        }
        r
    }

    /// Polls one partition of the topic the identifiers pick out.
    pub fn poll_messages(
        &mut self,
        stream_id: &Identifier,
        topic_id: &Identifier,
        partition_id: u32,
        consumer: Consumer,
        strategy: PollStrategy,
        count: u32,
        auto_commit: bool,
    ) -> (r: Result<Vec<Message>, IggyError>)
        requires
            wf_system(old(self)),
            stream_id.wf(),
            topic_id.wf(),
        ensures
            wf_system(final(self)),
            final(self).users@ == old(self).users@,
            final(self).sessions@ == old(self).sessions@,
            final(self).config == old(self).config,
            match spec_find_err(old(self).streams@, stream_id@, topic_id@) {
                Some(e) => r == Result::<Vec<Message>, IggyError>::Err(e) && final(self).streams@
                    == old(self).streams@,
                None => {
                    let si = spec_stream_index(old(self).streams@, stream_id@);
                    let ti = spec_topic_index(old(self).streams@[si].topics@, topic_id@);
                    &&& spec_only_topic_changed(old(self), final(self), si, ti)
                    &&& spec_topic_poll_effect(
                        &old(self).streams@[si].topics@[ti],
                        &final(self).streams@[si].topics@[ti],
                        partition_id,
                        consumer,
                        strategy,
                        count,
                        auto_commit,
                        r,
                    )
                },
            },
            r is Ok ==> forall|k: int|
                0 <= k < r->Ok_0@.len() ==> crate::message::wf_message(#[trigger] r->Ok_0@[k]@),
    {
        let (si, ti) = match self.find_stream_topic(stream_id, topic_id) {
            Ok(p) => p,
            Err(e) => {
                return Err(e);
            },
        };
        let st = &mut self.streams[si];
        let t = &mut st.topics[ti];
        let r = t.poll_messages(partition_id, consumer, strategy, count, auto_commit);
        proof {
            lemma_wf_after_topic_update(old(self), self, si as int, ti as int);
        }
        r
    }
}

impl System {
    /// Fails unless the session is authenticated.
    pub fn ensure_authenticated(&self, session: &Session) -> (r: Result<(), IggyError>)
        ensures
            r is Ok <==> session.authenticated,
            r is Err ==> r == Result::<(), IggyError>::Err(IggyError::Unauthenticated),
    {
        if session.authenticated {
            Ok(())
        } else {
            Err(IggyError::Unauthenticated)
        }
    }

    /// Creates a user account with no permissions. Success exactly for a
    /// fresh username of 3 to 50 bytes while ids remain; the id continues
    /// from the highest taken.
    #[verifier::loop_isolation(false)]
    pub fn create_user(
        &mut self,
        username: Vec<u8>,
        password: &Vec<u8>,
        status: UserStatus,
        created_at: u64,
    ) -> (r: Result<u32, IggyError>)
        requires
            wf_system(old(self)),
        ensures
            wf_system(final(self)),
            final(self).streams@ == old(self).streams@,
            final(self).sessions@ == old(self).sessions@,
            final(self).config == old(self).config,
            ({
                let taken = spec_user_named(old(self).users@, username@);
                let valid = 3 <= username@.len() <= 50;
                let max = spec_max_user_id(old(self).users@);
                &&& (r is Ok <==> valid && !taken && max < u32::MAX)
                &&& (username@.len() < 3 ==> r == Result::<u32, IggyError>::Err(
                    IggyError::NameTooShort,
                ))
                &&& (username@.len() > 50 ==> r == Result::<u32, IggyError>::Err(
                    IggyError::NameTooLong,
                ))
                &&& (valid && taken ==> r == Result::<u32, IggyError>::Err(
                    IggyError::ResourceAlreadyExists(ResourceKind::User),
                ))
                &&& (r is Err ==> final(self).users@ == old(self).users@)
                &&& (r is Ok ==> {
                    &&& r->Ok_0 == max + 1
                    &&& final(self).users@.len() == old(self).users@.len() + 1
                    &&& final(self).users@.take(old(self).users@.len() as int) == old(self).users@
                    &&& final(self).users@.last().id == max + 1
                    &&& final(self).users@.last().username@ == username@
                    &&& final(self).users@.last().password_hash == fnv1a64_of(password@)
                    &&& final(self).users@.last().status == status
                    &&& final(self).users@.last().permissions == spec_no_permissions()
                    &&& final(self).users@.last().created_at == created_at
                })
            }),
    {
        if username.len() < 3 {
            return Err(IggyError::NameTooShort);
        }
        if username.len() > 50 {
            return Err(IggyError::NameTooLong);
        }
        match self.find_user_by_name(&username) {
            Some(_) => {
                return Err(IggyError::ResourceAlreadyExists(ResourceKind::User));
            },
            None => {},
        }
        let mut max_id: u32 = 0;
        let mut i: usize = 0;
        proof {
            assert(self.users@.take(0) =~= Seq::<User>::empty());
        }
        while i < self.users.len()
            invariant
                0 <= i <= self.users@.len(),
                max_id as int == spec_max_user_id(self.users@.take(i as int)),
                forall|j: int| 0 <= j < i ==> (#[trigger] self.users@[j]).id <= max_id,
            decreases self.users@.len() - i,
        {
            proof {
                assert(self.users@.take(i + 1).drop_last() =~= self.users@.take(i as int));
                assert(self.users@.take(i + 1).last() == self.users@[i as int]);
            }
            if self.users[i].id > max_id {
                max_id = self.users[i].id;
            }
            i = i + 1;
        }
        proof {
            assert(self.users@.take(self.users@.len() as int) =~= self.users@);
        }
        if max_id == u32::MAX {
            return Err(IggyError::ResourceAlreadyExists(ResourceKind::User));
        }
        let id = max_id + 1;
        let h = hash_password(password.as_slice());
        self.users.push(
            User {
                id,
                username,
                password_hash: h,
                status,
                permissions: Permissions::none(),
                created_at,
            },
        );
        proof {
            assert(self.users@.take(old(self).users@.len() as int) =~= old(self).users@);
            assert forall|a: int, b: int|
                0 <= a < b < self.users@.len() implies (#[trigger] self.users@[a]).id != (
                #[trigger] self.users@[b]).id && self.users@[a].username@
                != self.users@[b].username@ by {
                assert(self.users@[a] == old(self).users@[a]);
                if b < self.users@.len() - 1 {
                    assert(self.users@[b] == old(self).users@[b]);
                } else {
                    assert(old(self).users@[a].id <= max_id);
                }
            }
        }
        Ok(id)
    }

    /// Deletes a user; the root account cannot be deleted. Exactly the
    /// matched account is removed; a missing user is reported the same way
    /// every time.
    pub fn delete_user(&mut self, user_id: &Identifier) -> (r: Result<(), IggyError>)
        requires
            wf_system(old(self)),
            user_id.wf(),
        ensures
            wf_system(final(self)),
            final(self).streams@ == old(self).streams@,
            final(self).sessions@ == old(self).sessions@,
            final(self).config == old(self).config,
            ({
                let found = spec_user_exists(old(self).users@, user_id@);
                let ui = spec_user_index(old(self).users@, user_id@);
                &&& (r is Ok <==> found && old(self).users@[ui].id != ROOT_USER_ID)
                &&& (!found ==> r == Result::<(), IggyError>::Err(IggyError::ResourceNotFound(
                    ResourceKind::User,
                )))
                &&& (found && old(self).users@[ui].id == ROOT_USER_ID ==> r == Result::<
                    (),
                    IggyError,
                >::Err(IggyError::Unauthorized))
                &&& (r is Err ==> final(self).users@ == old(self).users@)
                &&& (r is Ok ==> final(self).users@ == old(self).users@.remove(ui))
            }),
    {
        let i = match self.find_user(user_id) {
            Some(i) => i,
            None => {
                return Err(IggyError::ResourceNotFound(ResourceKind::User));
            },
        };
        if self.users[i].id == ROOT_USER_ID {
            return Err(IggyError::Unauthorized);
        }
        self.users.remove(i);
        proof {
            assert forall|a: int, b: int|
                0 <= a < b < self.users@.len() implies (#[trigger] self.users@[a]).id != (
                #[trigger] self.users@[b]).id && self.users@[a].username@
                != self.users@[b].username@ by {
                let a1 = if a < i {
                    a
                } else {
                    a + 1
                };
                let b1 = if b < i {
                    b
                } else {
                    b + 1
                };
                assert(self.users@[a] == old(self).users@[a1]);
                assert(self.users@[b] == old(self).users@[b1]);
            }
            assert forall|k: int|
                0 <= k < self.users@.len() implies (#[trigger] self.users@[k]).id != 0 by {
                if k < i {
                    assert(self.users@[k] == old(self).users@[k]);
                } else {
                    assert(self.users@[k] == old(self).users@[k + 1]);
                }
            }
        }
        Ok(())
    }

    /// Replaces a user's password, provided the current one matches; only
    /// the matched user's digest changes, and only that field of it.
    pub fn change_password(
        &mut self,
        user_id: &Identifier,
        current_password: &Vec<u8>,
        new_password: &Vec<u8>,
    ) -> (r: Result<(), IggyError>)
        requires
            wf_system(old(self)),
            user_id.wf(),
        ensures
            wf_system(final(self)),
            final(self).streams@ == old(self).streams@,
            final(self).sessions@ == old(self).sessions@,
            final(self).config == old(self).config,
            ({
                let found = spec_user_exists(old(self).users@, user_id@);
                let ui = spec_user_index(old(self).users@, user_id@);
                &&& (!found ==> r == Result::<(), IggyError>::Err(IggyError::ResourceNotFound(
                    ResourceKind::User,
                )))
                &&& (found ==> (r is Ok <==> old(self).users@[ui].password_hash == fnv1a64_of(
                    current_password@,
                )))
                &&& (found && old(self).users@[ui].password_hash != fnv1a64_of(current_password@)
                    ==> r == Result::<(), IggyError>::Err(IggyError::InvalidCredentials))
                &&& (r is Err ==> final(self).users@ == old(self).users@)
                &&& (r is Ok ==> {
                    &&& final(self).users@.len() == old(self).users@.len()
                    &&& (forall|j: int|
                        0 <= j < old(self).users@.len() && j != ui
                            ==> #[trigger] final(self).users@[j] == old(self).users@[j])
                    &&& final(self).users@[ui].password_hash == fnv1a64_of(new_password@)
                    &&& final(self).users@[ui].id == old(self).users@[ui].id
                    &&& final(self).users@[ui].username@ == old(self).users@[ui].username@
                    &&& final(self).users@[ui].status == old(self).users@[ui].status
                    &&& final(self).users@[ui].permissions == old(self).users@[ui].permissions
                    &&& final(self).users@[ui].created_at == old(self).users@[ui].created_at
                })
            }),
    {
        let i = match self.find_user(user_id) {
            Some(i) => i,
            None => {
                return Err(IggyError::ResourceNotFound(ResourceKind::User));
            },
        };
        let h = hash_password(current_password.as_slice());
        if self.users[i].password_hash != h {
            return Err(IggyError::InvalidCredentials);
        }
        let nh = hash_password(new_password.as_slice());
        let u = &mut self.users[i];
        u.password_hash = nh;
        proof {
            assert forall|a: int, b: int|
                0 <= a < b < self.users@.len() implies (#[trigger] self.users@[a]).id != (
                #[trigger] self.users@[b]).id && self.users@[a].username@
                != self.users@[b].username@ by {
                if a != i {
                    assert(self.users@[a] == old(self).users@[a]);
                }
                if b != i {
                    assert(self.users@[b] == old(self).users@[b]);
                }
                assert(old(self).users@[a].id != old(self).users@[b].id);
                assert(old(self).users@[a].username@ != old(self).users@[b].username@);
            }
            assert forall|k: int|
                0 <= k < self.users@.len() implies (#[trigger] self.users@[k]).id != 0 by {
                if k != i {
                    assert(self.users@[k] == old(self).users@[k]);
                }
            }
        }
        Ok(())
    }
}

} // verus!
