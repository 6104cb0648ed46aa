//! The connection registry: live connections, the write side of each, the
//! ceiling on how many are open, and teardown.

use vstd::prelude::*;
use std::collections::HashMap;
use crate::share_sub::MqttProtocol;

verus! {

broadcast use vstd::std_specs::hash::group_hash_axioms;

/// The transport a connection came in on.
#[derive(Clone, Copy, Debug, PartialEq, Eq, Structural)]
pub enum NetworkConnectionType {
    Tcp,
    Tcps,
    Websocket,
    Websockets,
    Quic,
}

/// A live connection.
pub struct NetworkConnection {
    pub connection_id: u64,
    pub addr: String,
    pub connection_type: NetworkConnectionType,
    /// The protocol version negotiated by the client's Connect, once known.
    pub protocol: Option<MqttProtocol>,
}

impl NetworkConnection {
    /// A field-by-field copy.
    pub fn duplicate(&self) -> (r: NetworkConnection)
        ensures
            r.connection_id == self.connection_id,
            r.addr@ == self.addr@,
            r.connection_type == self.connection_type,
            r.protocol == self.protocol,
    {
        NetworkConnection {
            connection_id: self.connection_id,
            addr: self.addr.clone(),
            connection_type: self.connection_type,
            protocol: self.protocol,
        }
    }
}

/// Why the registry refused a request.
#[derive(Clone, Copy, Debug, PartialEq, Eq, Structural)]
pub enum ConnectionError {
    /// The ceiling on open connections is reached: the client is refused.
    TooManyConnections,
    /// No connection id is left to hand out.
    ConnectionIdExhausted,
    /// No live connection has this id.
    NotFound(u64),
    /// The connection has no write side (never registered, or closed).
    NoWriteSink(u64),
}

/// What the response stage does with a packet for a connection.
#[derive(Clone, Copy, Debug, PartialEq, Eq, Structural)]
pub enum ResponseOutcome {
    /// The connection is gone: the packet is dropped.
    Dropped,
    /// The frame is queued on the connection's write side.
    Queued,
    /// The frame (a Disconnect) is queued, and the connection is to be torn
    /// down once it is written.
    QueuedThenClose,
}

pub open spec fn frames_view(s: Seq<Vec<u8>>) -> Seq<Seq<u8>> {
    s.map_values(|f: Vec<u8>| f@)
}

/// The registry of live connections and of their write sides. The write side
/// of a connection is the queue of frames its writer still has to send, in the
/// order they were submitted.
pub struct ConnectionManager {
    pub connections: HashMap<u64, NetworkConnection>,
    pub write_sinks: HashMap<u64, Vec<Vec<u8>>>,
    pub max_connection_num: usize,
    pub next_id: u64,
}

impl ConnectionManager {
    pub open spec fn wf(&self) -> bool {
        &&& forall|id: u64| #[trigger] self.write_sinks@.contains_key(id) ==> self.connections@.contains_key(id)
        &&& forall|id: u64| #[trigger] self.connections@.contains_key(id) ==> id < self.next_id
        &&& forall|id: u64| #[trigger] self.connections@.contains_key(id) ==> self.connections@[id].connection_id == id
    }

    pub open spec fn has_sink(&self, id: u64) -> bool {
        self.write_sinks@.contains_key(id)
    }

    /// The frames queued on a connection's write side.
    pub open spec fn pending(&self, id: u64) -> Seq<Seq<u8>> {
        frames_view(self.write_sinks@[id]@)
    }

    pub fn new(max_connection_num: usize) -> (r: ConnectionManager)
        ensures
            r.wf(),
            r.connections@ == Map::<u64, NetworkConnection>::empty(),
            r.write_sinks@ == Map::<u64, Vec<Vec<u8>>>::empty(),
            r.max_connection_num == max_connection_num,
    {
        ConnectionManager {
            connections: HashMap::new(),
            write_sinks: HashMap::new(),
            max_connection_num,
            next_id: 1,
        }
    }

    /// The number of live connections.
    pub fn connection_count(&self) -> (r: usize)
        ensures
            r == self.connections@.len(),
    {
        self.connections.len()
    }

    /// Admits a new connection under the ceiling and gives it a fresh id.
    /// Once `max_connection_num` connections are open the next one is refused
    /// and nothing is registered for it.
    pub fn add_connection(&mut self, addr: String, connection_type: NetworkConnectionType) -> (r: Result<u64, ConnectionError>)
        requires
            old(self).wf(),
        ensures
            final(self).wf(),
            final(self).max_connection_num == old(self).max_connection_num,
            final(self).write_sinks@ == old(self).write_sinks@,
            old(self).connections@.len() >= old(self).max_connection_num ==> r == Err::<u64, ConnectionError>(ConnectionError::TooManyConnections),
            old(self).connections@.len() < old(self).max_connection_num && old(self).next_id == u64::MAX
                ==> r == Err::<u64, ConnectionError>(ConnectionError::ConnectionIdExhausted),
            r is Err ==> final(self).connections@ == old(self).connections@,
            old(self).connections@.len() < old(self).max_connection_num && old(self).next_id < u64::MAX
                ==> r is Ok,
            r is Ok ==> {
                let id = r->Ok_0;
                &&& !old(self).connections@.contains_key(id)
                &&& final(self).connections@.dom() == old(self).connections@.dom().insert(id)
                &&& final(self).connections@[id].addr@ == addr@
                &&& final(self).connections@[id].connection_type == connection_type
                &&& final(self).connections@[id].protocol is None
                &&& forall|i: u64| i != id && #[trigger] old(self).connections@.contains_key(i) ==> final(self).connections@[i] == old(self).connections@[i]
            },
    {
        if self.connections.len() >= self.max_connection_num {
            return Err(ConnectionError::TooManyConnections);
        }
        if self.next_id == u64::MAX {
            return Err(ConnectionError::ConnectionIdExhausted);
        }
        let id = self.next_id;
        let conn = NetworkConnection { connection_id: id, addr, connection_type, protocol: None };
        self.connections.insert(id, conn);
        self.next_id = self.next_id + 1;
        proof {
            assert(final(self).connections@.dom() =~= old(self).connections@.dom().insert(id));
        }
        Ok(id)
    }

    /// Registers the write side of a live connection (kept if it is there).
    pub fn add_write(&mut self, id: u64) -> (r: Result<(), ConnectionError>)
        requires
            old(self).wf(),
        ensures
            final(self).wf(),
            final(self).connections@ == old(self).connections@,
            final(self).max_connection_num == old(self).max_connection_num,
            r is Ok <==> old(self).connections@.contains_key(id),
            r is Err ==> r == Err::<(), ConnectionError>(ConnectionError::NotFound(id)) && final(self).write_sinks@ == old(self).write_sinks@,
            r is Ok && old(self).has_sink(id) ==> final(self).write_sinks@ == old(self).write_sinks@,
            r is Ok && !old(self).has_sink(id) ==> final(self).write_sinks@.dom() == old(self).write_sinks@.dom().insert(id)
                && final(self).pending(id) == Seq::<Seq<u8>>::empty()
                && forall|i: u64| i != id && #[trigger] old(self).write_sinks@.contains_key(i) ==> final(self).write_sinks@[i] == old(self).write_sinks@[i],
    {
        if !self.connections.contains_key(&id) {
            return Err(ConnectionError::NotFound(id));
        }
        if !self.write_sinks.contains_key(&id) {
            self.write_sinks.insert(id, Vec::new());
            proof {
                assert(final(self).write_sinks@.dom() =~= old(self).write_sinks@.dom().insert(id));
                assert(final(self).pending(id) =~= Seq::<Seq<u8>>::empty());
            }
        }
        Ok(())
    }

    /// A copy of a live connection.
    pub fn get_connect(&self, id: u64) -> (r: Option<NetworkConnection>)
        ensures
            r is Some <==> self.connections@.contains_key(id),
            r is Some ==> r->Some_0.connection_id == self.connections@[id].connection_id
                && r->Some_0.addr@ == self.connections@[id].addr@
                && r->Some_0.connection_type == self.connections@[id].connection_type
                && r->Some_0.protocol == self.connections@[id].protocol,
    {
        match self.connections.get(&id) {
            Some(c) => Some(c.duplicate()),
            None => None,
        }
    }

    /// The protocol a live connection negotiated, once known.
    pub fn get_connect_protocol(&self, id: u64) -> (r: Option<MqttProtocol>)
        ensures
            r == (if self.connections@.contains_key(id) {
                self.connections@[id].protocol
            } else {
                None
            }),
    {
        match self.connections.get(&id) {
            Some(c) => c.protocol,
            None => None,
        }
    }

    /// Records the protocol a connection negotiated.
    pub fn set_connect_protocol(&mut self, id: u64, protocol: MqttProtocol) -> (r: Result<(), ConnectionError>)
        requires
            old(self).wf(),
        ensures
            final(self).wf(),
            final(self).write_sinks@ == old(self).write_sinks@,
            final(self).max_connection_num == old(self).max_connection_num,
            r is Ok <==> old(self).connections@.contains_key(id),
            r is Err ==> r == Err::<(), ConnectionError>(ConnectionError::NotFound(id)) && final(self).connections@ == old(self).connections@,
            r is Ok ==> final(self).connections@.dom() == old(self).connections@.dom()
                && final(self).connections@[id].protocol == Some(protocol)
                && final(self).connections@[id].addr == old(self).connections@[id].addr
                && final(self).connections@[id].connection_type == old(self).connections@[id].connection_type
                && forall|i: u64| i != id && #[trigger] old(self).connections@.contains_key(i) ==> final(self).connections@[i] == old(self).connections@[i],
    {
        match self.connections.remove(&id) {
            Some(c) => {
                let updated = NetworkConnection {
                    connection_id: c.connection_id,
                    addr: c.addr,
                    connection_type: c.connection_type,
                    protocol: Some(protocol),
                };
                self.connections.insert(id, updated);
                proof {
                    assert(final(self).connections@.dom() =~= old(self).connections@.dom());
                }
                Ok(())
            },
            None => Err(ConnectionError::NotFound(id)),
        }
    }

    /// Queues a frame on a connection's write side. Frames leave in the
    /// order they were queued. Fails where the connection has no write side.
    pub fn write_tcp_frame(&mut self, id: u64, frame: Vec<u8>) -> (r: Result<(), ConnectionError>)
        requires
            old(self).wf(),
        ensures
            final(self).wf(),
            final(self).connections@ == old(self).connections@,
            final(self).max_connection_num == old(self).max_connection_num,
            r is Ok <==> old(self).has_sink(id),
            r is Err ==> r == Err::<(), ConnectionError>(ConnectionError::NoWriteSink(id)) && final(self).write_sinks@ == old(self).write_sinks@,
            r is Ok ==> final(self).write_sinks@.dom() == old(self).write_sinks@.dom()
                && final(self).pending(id) == old(self).pending(id).push(frame@)
                && forall|i: u64| i != id && #[trigger] old(self).write_sinks@.contains_key(i) ==> final(self).write_sinks@[i] == old(self).write_sinks@[i],
    {
        match self.write_sinks.remove(&id) {
            Some(mut q) => {
                let ghost before = q@;
                q.push(frame);
                proof {
                    assert(frames_view(q@) =~= frames_view(before).push(q@.last()@));
                }
                self.write_sinks.insert(id, q);
                proof {
                    assert(final(self).write_sinks@.dom() =~= old(self).write_sinks@.dom());
                }
                Ok(())
            },
            None => Err(ConnectionError::NoWriteSink(id)),
        }
    }

    /// Hands the writer the frames queued on a connection, oldest first, and
    /// empties the queue. Nothing for a connection without a write side.
    pub fn take_outbound(&mut self, id: u64) -> (r: Vec<Vec<u8>>)
        requires
            old(self).wf(),
        ensures
            final(self).wf(),
            final(self).connections@ == old(self).connections@,
            final(self).max_connection_num == old(self).max_connection_num,
            final(self).write_sinks@.dom() == old(self).write_sinks@.dom(),
            old(self).has_sink(id) ==> frames_view(r@) == old(self).pending(id) && final(self).pending(id) == Seq::<Seq<u8>>::empty(),
            !old(self).has_sink(id) ==> r@.len() == 0,
            forall|i: u64| i != id && #[trigger] old(self).write_sinks@.contains_key(i) ==> final(self).write_sinks@[i] == old(self).write_sinks@[i],
    {
        match self.write_sinks.remove(&id) {
            Some(q) => {
                self.write_sinks.insert(id, Vec::new());
                proof {
                    assert(final(self).write_sinks@.dom() =~= old(self).write_sinks@.dom());
                    assert(final(self).pending(id) =~= Seq::<Seq<u8>>::empty());
                }
                q
            },
            None => Vec::new(),
        }
    }

    /// Tears a connection down: its write side and its entry go. Returns
    /// whether it was live (then its reader is to be told to stop).
    pub fn close_connect(&mut self, id: u64) -> (r: bool)
        requires
            old(self).wf(),
        ensures
            final(self).wf(),
            final(self).max_connection_num == old(self).max_connection_num,
            r == old(self).connections@.contains_key(id),
            final(self).connections@ == old(self).connections@.remove(id),
            final(self).write_sinks@ == old(self).write_sinks@.remove(id),
    {
        self.write_sinks.remove(&id);
        let r = self.connections.remove(&id);
        r.is_some()
    }

    /// The response stage's decision for a packet addressed to `id`: drop it
    /// where the connection or its protocol is gone, else queue its frame; a
    /// Disconnect also asks for the connection to be torn down after writing.
    pub fn dispatch_response(&mut self, id: u64, frame: Vec<u8>, is_disconnect: bool) -> (r: ResponseOutcome)
        requires
            old(self).wf(),
        ensures
            final(self).wf(),
            final(self).connections@ == old(self).connections@,
            final(self).max_connection_num == old(self).max_connection_num,
            !(old(self).connections@.contains_key(id) && old(self).connections@[id].protocol is Some && old(self).has_sink(id))
                ==> r == ResponseOutcome::Dropped && final(self).write_sinks@ == old(self).write_sinks@,
            old(self).connections@.contains_key(id) && old(self).connections@[id].protocol is Some && old(self).has_sink(id)
                ==> final(self).pending(id) == old(self).pending(id).push(frame@)
                && final(self).write_sinks@.dom() == old(self).write_sinks@.dom()
                && (if is_disconnect { r == ResponseOutcome::QueuedThenClose } else { r == ResponseOutcome::Queued }),
            forall|i: u64| i != id && #[trigger] old(self).write_sinks@.contains_key(i) ==> final(self).write_sinks@[i] == old(self).write_sinks@[i],
    {
        if self.get_connect_protocol(id).is_none() {
            return ResponseOutcome::Dropped;
        }
        match self.write_tcp_frame(id, frame) {
            Ok(()) => {
                if is_disconnect {
                    ResponseOutcome::QueuedThenClose
                } else {
                    ResponseOutcome::Queued
                }
            },
            Err(_) => ResponseOutcome::Dropped,
        }
    }
}

/// The frames a connection's writer sends, after `frames` were queued in turn
/// on an empty write side: the same frames, in the same order.
pub open spec fn queue_all(q: Seq<Seq<u8>>, frames: Seq<Seq<u8>>) -> Seq<Seq<u8>>
    decreases frames.len(),
{
    if frames.len() == 0 {
        q
    } else {
        queue_all(q.push(frames[0]), frames.drop_first())
    }
}

/// Queuing frames one by one keeps their submission order: what the writer
/// takes is what was queued before, then the new frames in order.
pub proof fn lemma_outbound_order(q: Seq<Seq<u8>>, frames: Seq<Seq<u8>>)
    ensures
        queue_all(q, frames) == q + frames,
    decreases frames.len(),
{
    if frames.len() > 0 {
        lemma_outbound_order(q.push(frames[0]), frames.drop_first());
        assert(q.push(frames[0]) + frames.drop_first() =~= q + frames);
    } else {
        assert(q + frames =~= q);
    }
}

} // verus!
