//! The command dispatcher: what the broker does with each packet a client
//! sends, and the packet it answers with, if any.

use vstd::prelude::*;
use vstd::string::StringExecFns;
use std::collections::HashMap;
use crate::security::{check_login_auth, credentials_match, plaintext_check, LoginDecision, Login, MQTTUser};
use crate::share_sub::{shared_topic_name, spec_shared_topic, topics_of, without_client, MqttProtocol, QoS, ShareSubRegistry, ShareSubscriber};
use crate::storage::{shard_records, spec_write, MemoryStorageAdapter, Record, RecordView};

verus! {

broadcast use vstd::std_specs::hash::group_hash_axioms;

#[derive(Clone, Copy, Debug, PartialEq, Eq, Structural)]
pub enum ConnectReason {
    Success,
    BadUserNameOrPassword,
}

#[derive(Clone, Copy, Debug, PartialEq, Eq, Structural)]
pub enum PubAckReason {
    Success,
    UnspecifiedError,
}

#[derive(Clone, Copy, Debug, PartialEq, Eq, Structural)]
pub enum DisconnectReason {
    NormalDisconnection,
}

/// The packets the dispatcher reads and writes.
pub enum MQTTPacket {
    Connect { client_id: String, login: Option<Login>, protocol: MqttProtocol },
    ConnAck { session_present: bool, reason: ConnectReason },
    Publish { topic: String, qos: QoS, pkid: u16, dup: bool, retain: bool, payload: Vec<u8> },
    PubAck { pkid: u16, reason: PubAckReason },
    PubRec { pkid: u16, reason: PubAckReason },
    PubRel { pkid: u16 },
    PubComp { pkid: u16 },
    Subscribe { pkid: u16, filters: Vec<(String, QoS)> },
    SubAck { pkid: u16, granted: Vec<QoS> },
    Unsubscribe { pkid: u16, filters: Vec<String> },
    UnsubAck { pkid: u16 },
    PingReq,
    PingResp,
    Disconnect { reason: DisconnectReason },
}

/// What the broker keeps of a connected client.
pub struct Session {
    pub client_id: String,
    pub protocol: MqttProtocol,
    /// Packet identifiers of the QoS 1 and 2 publishes already stored.
    pub stored_pkids: Vec<u16>,
}

pub open spec fn qos_header_name() -> Seq<char> {
    seq!['q', 'o', 's']
}

pub open spec fn qos_digit(q: QoS) -> Seq<char> {
    match q {
        QoS::AtMostOnce => seq!['0'],
        QoS::AtLeastOnce => seq!['1'],
        QoS::ExactlyOnce => seq!['2'],
    }
}

/// The record a publish is stored as: its payload, with its service level
/// as the `qos` header.
pub open spec fn publish_record(payload: Seq<u8>, qos: QoS) -> RecordView {
    RecordView {
        offset: 0,
        key: None,
        headers: seq![(qos_header_name(), qos_digit(qos))],
        data: payload,
        timestamp: 0,
    }
}

/// The service level a record was published with: its first header, where
/// that is a `qos` header holding `0`, `1` or `2`.
pub open spec fn spec_record_qos(r: RecordView) -> Option<QoS> {
    if r.headers.len() > 0 && r.headers[0].0 == qos_header_name() {
        if r.headers[0].1 == qos_digit(QoS::AtMostOnce) {
            Some(QoS::AtMostOnce)
        } else if r.headers[0].1 == qos_digit(QoS::AtLeastOnce) {
            Some(QoS::AtLeastOnce)
        } else if r.headers[0].1 == qos_digit(QoS::ExactlyOnce) {
            Some(QoS::ExactlyOnce)
        } else {
            None
        }
    } else {
        None
    }
}

/// A stored publish reads back the service level it was published with.
pub proof fn lemma_publish_record_keeps_qos(payload: Seq<u8>, qos: QoS)
    ensures
        spec_record_qos(publish_record(payload, qos)) == Some(qos),
{
    assert(seq!['0'] != seq!['1']) by {
        assert(seq!['0'][0] != seq!['1'][0]);
    }
    assert(seq!['0'] != seq!['2']) by {
        assert(seq!['0'][0] != seq!['2'][0]);
    }
    assert(seq!['1'] != seq!['2']) by {
        assert(seq!['1'][0] != seq!['2'][0]);
    }
}

fn qos_header(qos: QoS) -> (r: (String, String))
    ensures
        r.0@ == qos_header_name(),
        r.1@ == qos_digit(qos),
{
    proof {
        reveal_strlit("qos");
        reveal_strlit("0");
        reveal_strlit("1");
        reveal_strlit("2");
    }
    let name = String::from_str("qos");
    let value = match qos {
        QoS::AtMostOnce => String::from_str("0"),
        QoS::AtLeastOnce => String::from_str("1"),
        QoS::ExactlyOnce => String::from_str("2"),
    };
    proof {
        assert(name@ =~= qos_header_name());
        assert(value@ =~= qos_digit(qos));
    }
    (name, value)
}

/// The service level a stored record was published with, if it says.
pub fn record_qos(r: &Record) -> (q: Option<QoS>)
    ensures
        q == spec_record_qos(r@),
{
    if r.headers.len() == 0 {
        return None;
    }
    let (name, value) = qos_header(QoS::AtMostOnce);
    let (_, one) = qos_header(QoS::AtLeastOnce);
    let (_, two) = qos_header(QoS::ExactlyOnce);
    proof {
        assert(r@.headers[0] == (r.headers@[0].0@, r.headers@[0].1@));
    }
    if r.headers[0].0 != name {
        None
    } else if r.headers[0].1 == value {
        Some(QoS::AtMostOnce)
    } else if r.headers[0].1 == one {
        Some(QoS::AtLeastOnce)
    } else if r.headers[0].1 == two {
        Some(QoS::ExactlyOnce)
    } else {
        None
    }
}

/// The user cache entry whose name is `name`: the first one.
pub open spec fn user_index(users: Seq<MQTTUser>, name: Seq<char>, i: int) -> bool {
    0 <= i < users.len() && users[i].username@ == name && forall|j: int| 0 <= j < i ==> users[j].username@ != name
}

fn find_user(users: &Vec<MQTTUser>, name: &String) -> (r: Option<usize>)
    ensures
        r is Some ==> user_index(users@, name@, r->Some_0 as int),
        r is None ==> forall|j: int| 0 <= j < users@.len() ==> users@[j].username@ != name@,
{
    let mut i: usize = 0;
    while i < users.len()
        invariant
            i <= users@.len(),
            forall|j: int| 0 <= j < i ==> users@[j].username@ != name@,
        decreases users@.len() - i,
    {
        if users[i].username == *name {
            return Some(i);
        }
        i = i + 1;
    }
    None
}

fn has_pkid(pkids: &Vec<u16>, pkid: u16) -> (r: bool)
    ensures
        r == pkids@.contains(pkid),
{
    let mut i: usize = 0;
    while i < pkids.len()
        invariant
            i <= pkids@.len(),
            forall|j: int| 0 <= j < i ==> pkids@[j] != pkid,
        decreases pkids@.len() - i,
    {
        if pkids[i] == pkid {
            proof {
                assert(pkids@[i as int] == pkid);
            }
            return true;
        }
        i = i + 1;
    }
    false
}

proof fn topics_of_index(r: ShareSubRegistry, t: Seq<char>) -> (k: int)
    requires
        r.has_topic(t),
    ensures
        0 <= k < r.groups@.len(),
        r.groups@[k].topic@ == t,
{
    let k = crate::share_sub::topics_of(r.groups@).index_of(t);
    assert(crate::share_sub::topics_of(r.groups@)[k] == r.groups@[k].topic@);
    k
}

/// The dispatcher's state: message storage, the user cache, the login mode,
/// the session of each connection that has connected, and the shared
/// subscriptions.
pub struct Command {
    pub storage: MemoryStorageAdapter,
    pub users: Vec<MQTTUser>,
    pub secret_free_login: bool,
    pub sessions: HashMap<u64, Session>,
    pub share_subs: ShareSubRegistry,
    /// The broker node this dispatcher runs on.
    pub node_id: u64,
}

pub open spec fn granted_of(filters: Seq<(String, QoS)>) -> Seq<QoS> {
    filters.map_values(|f: (String, QoS)| f.1)
}

impl Command {
    pub open spec fn wf(&self) -> bool {
        self.storage.wf() && self.share_subs.wf()
    }

    pub fn new(storage: MemoryStorageAdapter, users: Vec<MQTTUser>, secret_free_login: bool, node_id: u64) -> (r: Command)
        requires
            storage.wf(),
        ensures
            r.wf(),
            r.storage == storage,
            r.users == users,
            r.secret_free_login == secret_free_login,
            r.sessions@ == Map::<u64, Session>::empty(),
            r.share_subs.groups@.len() == 0,
            r.node_id == node_id,
    {
        Command {
            storage,
            users,
            secret_free_login,
            sessions: HashMap::new(),
            share_subs: ShareSubRegistry::new(),
            node_id,
        }
    }

    /// Acks a subscription; each shared filter makes the client a member of
    /// the topic's share group.
    fn subscribe(&mut self, connection_id: u64, client_id: &String, protocol: MqttProtocol, pkid: u16, filters: &Vec<(String, QoS)>) -> (r: Vec<QoS>)
        requires
            old(self).wf(),
        ensures
            final(self).wf(),
            final(self).storage == old(self).storage,
            final(self).sessions == old(self).sessions,
            final(self).users == old(self).users,
            final(self).secret_free_login == old(self).secret_free_login,
            r@ == granted_of(filters@),
            forall|j: int| 0 <= j < filters@.len() && #[trigger] spec_shared_topic(filters@[j].0@) is Some
                ==> final(self).share_subs.has_topic(spec_shared_topic(filters@[j].0@)->Some_0),
            forall|t: Seq<char>| old(self).share_subs.has_topic(t) ==> final(self).share_subs.has_topic(t),
    {
        let mut granted: Vec<QoS> = Vec::new();
        let mut i: usize = 0;
        while i < filters.len()
            invariant
                i <= filters@.len(),
                self.wf(),
                self.storage == old(self).storage,
                self.sessions == old(self).sessions,
                self.users == old(self).users,
                self.secret_free_login == old(self).secret_free_login,
                granted@ =~= granted_of(filters@).take(i as int),
                forall|j: int| 0 <= j < i && #[trigger] spec_shared_topic(filters@[j].0@) is Some
                    ==> self.share_subs.has_topic(spec_shared_topic(filters@[j].0@)->Some_0),
                forall|t: Seq<char>| old(self).share_subs.has_topic(t) ==> self.share_subs.has_topic(t),
            decreases filters@.len() - i,
        {
            let (path, qos) = (&filters[i].0, filters[i].1);
            if let Some(topic) = shared_topic_name(path) {
                let member = ShareSubscriber {
                    client_id: client_id.clone(),
                    connection_id: Some(connection_id),
                    node_id: self.node_id,
                    qos,
                    packet_identifier: pkid,
                    subscription_identifier: None,
                    protocol,
                };
                let ghost before = self.share_subs;
                self.share_subs.add_member(topic, member);
                proof {
                    assert forall|t: Seq<char>| before.has_topic(t) implies self.share_subs.has_topic(t) by {
                        let k = topics_of_index(before, t);
                        if before.groups@[k].topic@ != spec_shared_topic(filters@[i as int].0@)->Some_0 {
                            assert(self.share_subs.groups@[k] == before.groups@[k]);
                            assert(crate::share_sub::topics_of(self.share_subs.groups@)[k] == t);
                        }
                    }
                }
            }
            granted.push(qos);
            proof {
                assert(granted_of(filters@).take(i as int + 1) =~= granted_of(filters@).take(i as int).push(qos));
            }
            i = i + 1;
        }
        proof {
            assert(granted_of(filters@).take(filters@.len() as int) =~= granted_of(filters@));
        }
        granted
    }

    /// Removes the client from the share group of each shared filter.
    fn unsubscribe(&mut self, client_id: &String, filters: &Vec<String>)
        requires
            old(self).wf(),
        ensures
            final(self).wf(),
            final(self).storage == old(self).storage,
            final(self).sessions == old(self).sessions,
            final(self).users == old(self).users,
            final(self).secret_free_login == old(self).secret_free_login,
    {
        let mut i: usize = 0;
        while i < filters.len()
            invariant
                i <= filters@.len(),
                self.wf(),
                self.storage == old(self).storage,
                self.sessions == old(self).sessions,
                self.users == old(self).users,
                self.secret_free_login == old(self).secret_free_login,
            decreases filters@.len() - i,
        {
            if let Some(topic) = shared_topic_name(&filters[i]) {
                self.share_subs.remove_member(&topic, client_id);
            }
            i = i + 1;
        }
    }

    fn store_publish(&mut self, topic: &String, qos: QoS, payload: Vec<u8>) -> (ok: bool)
        requires
            old(self).wf(),
        ensures
            final(self).wf(),
            final(self).sessions == old(self).sessions,
            final(self).users == old(self).users,
            final(self).secret_free_login == old(self).secret_free_login,
            ok == (shard_records(old(self).storage.shards(), topic@).len() + 1 <= usize::MAX),
            ok ==> final(self).storage.shards() == spec_write(old(self).storage.shards(), topic@, seq![publish_record(payload@, qos)]),
            !ok ==> final(self).storage.shards() == old(self).storage.shards(),
            final(self).storage.groups() == old(self).storage.groups(),
            final(self).storage.kv() == old(self).storage.kv(),
    {
        let ghost p = payload@;
        let mut rec = Record::build_b(payload);
        rec.headers.push(qos_header(qos));
        let mut data: Vec<Record> = Vec::new();
        data.push(rec);
        proof {
            assert(rec@.headers =~= seq![(qos_header_name(), qos_digit(qos))]);
            assert(crate::storage::records_view(data@) =~= seq![publish_record(p, qos)]);
        }
        let r = self.storage.stream_write(topic.clone(), data);
        r.is_ok()
    }

    /// Ends a connection's session: the session goes, and its client leaves
    /// every share group. Returns whether there was a session.
    pub fn close_session(&mut self, connection_id: u64) -> (r: bool)
        requires
            old(self).wf(),
        ensures
            final(self).wf(),
            r == old(self).sessions@.contains_key(connection_id),
            final(self).sessions@ == old(self).sessions@.remove(connection_id),
            final(self).storage == old(self).storage,
            final(self).users == old(self).users,
            final(self).secret_free_login == old(self).secret_free_login,
            !r ==> final(self).share_subs == old(self).share_subs,
            r ==> final(self).share_subs.groups@.len() == old(self).share_subs.groups@.len()
                && forall|i: int| 0 <= i < old(self).share_subs.groups@.len() ==> #[trigger] final(self).share_subs.groups@[i].members@
                    == without_client(old(self).share_subs.groups@[i].members@, old(self).sessions@[connection_id].client_id@)
                    && final(self).share_subs.groups@[i].topic@ == old(self).share_subs.groups@[i].topic@,
    {
        match self.sessions.remove(&connection_id) {
            None => false,
            Some(session) => {
                let ghost before = self.share_subs.groups@;
                self.share_subs.remove_client(&session.client_id);
                proof {
                    assert forall|i: int| 0 <= i < before.len() implies #[trigger] self.share_subs.groups@[i].topic@ == before[i].topic@ by {
                        assert(topics_of(self.share_subs.groups@)[i] == topics_of(before)[i]);
                    }
                }
                true
            },
        }
    }

    /// The user the auth back-end must be asked for before a Connect can be
    /// decided: the Connect's username, where login is not secret-free and
    /// the user is not in the cache. `None` for every other packet.
    pub fn user_to_fetch(&self, packet: &MQTTPacket) -> (r: Option<String>)
        ensures
            match *packet {
                MQTTPacket::Connect { client_id, login, protocol } => {
                    &&& (r is Some <==> !self.secret_free_login && login is Some
                        && !exists|i: int| user_index(self.users@, login->Some_0.username@, i))
                    &&& r is Some ==> r->Some_0@ == login->Some_0.username@
                },
                _ => r is None,
            },
    {
        match packet {
            MQTTPacket::Connect { client_id, login, protocol } => {
                if self.secret_free_login {
                    return None;
                }
                match login {
                    None => None,
                    Some(l) => match find_user(&self.users, &l.username) {
                        Some(i) => None,
                        None => {
                            proof {
                                assert forall|i: int| !user_index(self.users@, l.username@, i) by {
                                    if 0 <= i < self.users@.len() {
                                        assert(self.users@[i].username@ != l.username@);
                                    }
                                }
                            }
                            Some(l.username.clone())
                        },
                    },
                }
            },
            _ => None,
        }
    }

    /// Finishes a Connect once the auth back-end answered for its user. A
    /// user it returned joins the cache; the client is let in (session
    /// opened, ConnAck `Success`) exactly when that user's credentials are
    /// the ones the client gave, and refused (`BadUserNameOrPassword`, no
    /// session) otherwise, an unknown user included.
    pub fn finish_connect(
        &mut self,
        connection_id: u64,
        client_id: String,
        login: Login,
        protocol: MqttProtocol,
        fetched: Option<MQTTUser>,
    ) -> (r: MQTTPacket)
        requires
            old(self).wf(),
        ensures
            final(self).wf(),
            final(self).storage == old(self).storage,
            final(self).share_subs == old(self).share_subs,
            final(self).secret_free_login == old(self).secret_free_login,
            final(self).users@ == (match fetched {
                Some(u) => old(self).users@.push(u),
                None => old(self).users@,
            }),
            ({
                let allowed = fetched is Some && credentials_match(fetched->Some_0, login);
                &&& allowed ==> (match r {
                    MQTTPacket::ConnAck { session_present, reason } => !session_present && reason == ConnectReason::Success,
                    _ => false,
                }) && final(self).sessions@.dom() == old(self).sessions@.dom().insert(connection_id)
                    && final(self).sessions@[connection_id].client_id@ == client_id@
                    && final(self).sessions@[connection_id].protocol == protocol
                    && final(self).sessions@[connection_id].stored_pkids@.len() == 0
                &&& !allowed ==> (match r {
                    MQTTPacket::ConnAck { session_present, reason } => !session_present && reason == ConnectReason::BadUserNameOrPassword,
                    _ => false,
                }) && final(self).sessions@ == old(self).sessions@
            }),
    {
        let allowed = match fetched {
            Some(u) => {
                let ok = plaintext_check(&u, &login);
                self.users.push(u);
                ok
            },
            None => false,
        };
        if allowed {
            let session = Session { client_id, protocol, stored_pkids: Vec::new() };
            self.sessions.insert(connection_id, session);
            proof {
                assert(self.sessions@.dom() =~= old(self).sessions@.dom().insert(connection_id));
            }
            MQTTPacket::ConnAck { session_present: false, reason: ConnectReason::Success }
        } else {
            MQTTPacket::ConnAck { session_present: false, reason: ConnectReason::BadUserNameOrPassword }
        }
    }

    /// Handles one packet from connection `connection_id`.
    /// - Connect: checks the login against the user cache; on success opens
    ///   the session and acks with `Success`, otherwise acks with
    ///   `BadUserNameOrPassword`. A user not in the cache is refused here:
    ///   a caller that can reach the auth back-end asks `user_to_fetch`
    ///   first and decides such a Connect with `finish_connect`.
    /// - Publish, from a connection without a session: dropped.
    /// - A publish is stored as a record of its payload, with its service
    ///   level as the `qos` header (`publish_record`).
    /// - Publish at QoS 0: stored in the shard named by the topic (unless the
    ///   shard is at its length limit); no answer.
    /// - Publish at QoS 1 or 2: a duplicate of a publish already stored is
    ///   acked again without storing it twice; otherwise it is stored and
    ///   acked with `Success` (`PubAck` for QoS 1, `PubRec` for QoS 2), or,
    ///   where the shard is at its length limit, acked with an error reason
    ///   and not stored.
    /// - PubRel: answered with PubComp.
    /// - Subscribe, from a connection with a session: acked with the service
    ///   levels asked for; each shared filter (`$share/{group}/{topic}`)
    ///   makes the client a member of the topic's share group.
    /// - Unsubscribe, likewise: acked; the client leaves the share group of
    ///   each shared filter.
    /// - PingReq: answered with PingResp.
    /// - Disconnect: the session is closed, its client leaves every share
    ///   group, and a Disconnect goes back so that the response stage tears
    ///   the connection down.
    /// - Anything else: no answer.
    pub fn apply(&mut self, connection_id: u64, packet: MQTTPacket) -> (r: Option<MQTTPacket>)
        requires
            old(self).wf(),
        ensures
            final(self).wf(),
            final(self).users == old(self).users,
            final(self).secret_free_login == old(self).secret_free_login,
            match packet {
                MQTTPacket::Connect { client_id, login, protocol } => {
                    let cached = match login {
                        Some(l) => if exists|i: int| user_index(old(self).users@, l.username@, i) {
                            Some(old(self).users@[choose|i: int| user_index(old(self).users@, l.username@, i)])
                        } else {
                            None
                        },
                        None => None,
                    };
                    let allowed = old(self).secret_free_login || (login is Some && cached is Some
                        && cached->Some_0.username@ == login->Some_0.username@
                        && cached->Some_0.password@ == login->Some_0.password@);
                    &&& final(self).storage == old(self).storage
                    &&& allowed ==> (match r {
                        Some(MQTTPacket::ConnAck { session_present, reason }) => !session_present && reason == ConnectReason::Success,
                        _ => false,
                    }) && final(self).sessions@.dom() == old(self).sessions@.dom().insert(connection_id)
                        && final(self).sessions@[connection_id].client_id@ == client_id@
                        && final(self).sessions@[connection_id].protocol == protocol
                        && final(self).sessions@[connection_id].stored_pkids@.len() == 0
                    &&& !allowed ==> (match r {
                        Some(MQTTPacket::ConnAck { session_present, reason }) => !session_present && reason == ConnectReason::BadUserNameOrPassword,
                        _ => false,
                    }) && final(self).sessions@ == old(self).sessions@
                },
                MQTTPacket::Publish { topic, qos, pkid, dup, retain, payload } => {
                    let in_session = old(self).sessions@.contains_key(connection_id);
                    let seen = in_session && old(self).sessions@[connection_id].stored_pkids@.contains(pkid);
                    let written = final(self).storage.shards() == spec_write(old(self).storage.shards(), topic@, seq![publish_record(payload@, qos)]);
                    let unchanged = final(self).storage.shards() == old(self).storage.shards();
                    let full = shard_records(old(self).storage.shards(), topic@).len() + 1 > usize::MAX;
                    &&& final(self).storage.groups() == old(self).storage.groups()
                    &&& final(self).storage.kv() == old(self).storage.kv()
                    &&& final(self).sessions@.dom() == old(self).sessions@.dom()
                    &&& !in_session ==> r is None && unchanged
                    &&& in_session && qos == QoS::AtMostOnce ==> r is None && (!full ==> written) && (full ==> unchanged)
                    &&& in_session && qos != QoS::AtMostOnce && dup && seen ==> unchanged && (match r {
                        Some(MQTTPacket::PubAck { pkid: p, reason }) => qos == QoS::AtLeastOnce && p == pkid && reason == PubAckReason::Success,
                        Some(MQTTPacket::PubRec { pkid: p, reason }) => qos == QoS::ExactlyOnce && p == pkid && reason == PubAckReason::Success,
                        _ => false,
                    })
                    &&& in_session && qos != QoS::AtMostOnce && !(dup && seen) ==> (match r {
                        Some(MQTTPacket::PubAck { pkid: p, reason }) => qos == QoS::AtLeastOnce && p == pkid
                            && (!full ==> reason == PubAckReason::Success && written && final(self).sessions@[connection_id].stored_pkids@.contains(pkid))
                            && (full ==> reason == PubAckReason::UnspecifiedError && unchanged),
                        Some(MQTTPacket::PubRec { pkid: p, reason }) => qos == QoS::ExactlyOnce && p == pkid
                            && (!full ==> reason == PubAckReason::Success && written && final(self).sessions@[connection_id].stored_pkids@.contains(pkid))
                            && (full ==> reason == PubAckReason::UnspecifiedError && unchanged),
                        _ => false,
                    })
                },
                MQTTPacket::Subscribe { pkid, filters } => {
                    &&& final(self).storage == old(self).storage
                    &&& final(self).sessions@ == old(self).sessions@
                    &&& !old(self).sessions@.contains_key(connection_id) ==> r is None
                    &&& old(self).sessions@.contains_key(connection_id) ==> (match r {
                        Some(MQTTPacket::SubAck { pkid: p, granted }) => p == pkid && granted@ == granted_of(filters@),
                        _ => false,
                    }) && forall|j: int| 0 <= j < filters@.len() && #[trigger] spec_shared_topic(filters@[j].0@) is Some
                        ==> final(self).share_subs.has_topic(spec_shared_topic(filters@[j].0@)->Some_0)
                },
                MQTTPacket::Unsubscribe { pkid, filters } => {
                    &&& final(self).storage == old(self).storage
                    &&& final(self).sessions@ == old(self).sessions@
                    &&& !old(self).sessions@.contains_key(connection_id) ==> r is None
                    &&& old(self).sessions@.contains_key(connection_id) ==> (match r {
                        Some(MQTTPacket::UnsubAck { pkid: p }) => p == pkid,
                        _ => false,
                    })
                },
                MQTTPacket::PubRel { pkid } => final(self).storage == old(self).storage && final(self).sessions@ == old(self).sessions@
                    && (match r {
                        Some(MQTTPacket::PubComp { pkid: p }) => p == pkid,
                        _ => false,
                    }),
                MQTTPacket::PingReq => final(self).storage == old(self).storage && final(self).sessions@ == old(self).sessions@
                    && (match r {
                        Some(MQTTPacket::PingResp) => true,
                        _ => false,
                    }),
                MQTTPacket::Disconnect { reason } => final(self).storage == old(self).storage
                    && final(self).sessions@ == old(self).sessions@.remove(connection_id)
                    && (old(self).sessions@.contains_key(connection_id) ==> forall|i: int|
                        0 <= i < old(self).share_subs.groups@.len() ==> #[trigger] final(self).share_subs.groups@[i].members@
                            == without_client(old(self).share_subs.groups@[i].members@, old(self).sessions@[connection_id].client_id@))
                    && (match r {
                        Some(MQTTPacket::Disconnect { reason: back }) => back == DisconnectReason::NormalDisconnection,
                        _ => false,
                    }),
                _ => r is None && final(self).storage == old(self).storage && final(self).sessions@ == old(self).sessions@,
            },
    {
        match packet {
            MQTTPacket::Connect { client_id, login, protocol } => {
                let cached: Option<MQTTUser> = match &login {
                    Some(l) => match find_user(&self.users, &l.username) {
                        Some(i) => {
                            proof {
                                assert(user_index(self.users@, l.username@, i as int));
                                let c = choose|j: int| user_index(self.users@, l.username@, j);
                                assert(c == i as int) by {
                                    if c < i as int {
                                        assert(self.users@[c].username@ != l.username@);
                                    } else if c > i as int {
                                        assert(self.users@[i as int].username@ != l.username@);
                                    }
                                }
                            }
                            let u = &self.users[i];
                            Some(MQTTUser { username: u.username.clone(), password: u.password.clone(), is_superuser: u.is_superuser })
                        },
                        None => None,
                    },
                    None => None,
                };
                let decision = check_login_auth(self.secret_free_login, &login, &cached);
                if decision == LoginDecision::Allow {
                    let session = Session { client_id, protocol, stored_pkids: Vec::new() };
                    self.sessions.insert(connection_id, session);
                    proof {
                        assert(self.sessions@.dom() =~= old(self).sessions@.dom().insert(connection_id));
                    }
                    Some(MQTTPacket::ConnAck { session_present: false, reason: ConnectReason::Success })
                } else {
                    Some(MQTTPacket::ConnAck { session_present: false, reason: ConnectReason::BadUserNameOrPassword })
                }
            },
            MQTTPacket::Publish { topic, qos, pkid, dup, retain, payload } => {
                match self.sessions.remove(&connection_id) {
                    None => None,
                    Some(mut session) => {
                        let seen = has_pkid(&session.stored_pkids, pkid);
                        let r = if qos == QoS::AtMostOnce {
                            self.store_publish(&topic, qos, payload);
                            None
                        } else if dup && seen {
                            if qos == QoS::AtLeastOnce {
                                Some(MQTTPacket::PubAck { pkid, reason: PubAckReason::Success })
                            } else {
                                Some(MQTTPacket::PubRec { pkid, reason: PubAckReason::Success })
                            }
                        } else {
                            let ok = self.store_publish(&topic, qos, payload);
                            let reason = if ok {
                                if !seen {
                                    session.stored_pkids.push(pkid);
                                    proof {
                                        assert(session.stored_pkids@.last() == pkid);
                                    }
                                }
                                PubAckReason::Success
                            } else {
                                PubAckReason::UnspecifiedError
                            };
                            if qos == QoS::AtLeastOnce {
                                Some(MQTTPacket::PubAck { pkid, reason })
                            } else {
                                Some(MQTTPacket::PubRec { pkid, reason })
                            }
                        };
                        self.sessions.insert(connection_id, session);
                        proof {
                            assert(self.sessions@.dom() =~= old(self).sessions@.dom());
                        }
                        r
                    },
                }
            },
            MQTTPacket::Subscribe { pkid, filters } => {
                let (client_id, protocol) = match self.sessions.get(&connection_id) {
                    Some(session) => (session.client_id.clone(), session.protocol),
                    None => {
                        return None;
                    },
                };
                let granted = self.subscribe(connection_id, &client_id, protocol, pkid, &filters);
                Some(MQTTPacket::SubAck { pkid, granted })
            },
            MQTTPacket::Unsubscribe { pkid, filters } => {
                let client_id = match self.sessions.get(&connection_id) {
                    Some(session) => session.client_id.clone(),
                    None => {
                        return None;
                    },
                };
                self.unsubscribe(&client_id, &filters);
                Some(MQTTPacket::UnsubAck { pkid })
            },
            MQTTPacket::PubRel { pkid } => Some(MQTTPacket::PubComp { pkid }),
            MQTTPacket::PingReq => Some(MQTTPacket::PingResp),
            MQTTPacket::Disconnect { reason } => {
                self.close_session(connection_id);
                Some(MQTTPacket::Disconnect { reason: DisconnectReason::NormalDisconnection })
            },
            _ => None,
        }
    }
}

} // verus!
