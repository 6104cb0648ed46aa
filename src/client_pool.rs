//! The registry of RPC connection pools: one pool per service, module and
//! address, created lazily on first use and never twice.

use vstd::prelude::*;
use vstd::string::StringExecFns;

verus! {

/// The RPC services a pool can serve.
#[derive(Clone, Copy, Debug, PartialEq, Eq, Structural)]
pub enum ServiceTag {
    PlacementInner,
    PlacementJournal,
    PlacementKv,
    PlacementMqtt,
    BrokerMqtt,
}

pub open spec fn server_name_of(s: ServiceTag) -> Seq<char> {
    match s {
        ServiceTag::PlacementInner => "PlacementServer"@,
        ServiceTag::PlacementJournal => "JournalServer"@,
        ServiceTag::PlacementKv => "PlacementCenter"@,
        ServiceTag::PlacementMqtt => "PlacementCenter"@,
        ServiceTag::BrokerMqtt => "MQTTBroker"@,
    }
}

pub open spec fn module_name_of(s: ServiceTag) -> Seq<char> {
    match s {
        ServiceTag::PlacementInner => "PlacementService"@,
        ServiceTag::PlacementJournal => "JournalService"@,
        ServiceTag::PlacementKv => "KvServices"@,
        ServiceTag::PlacementMqtt => "MqttServices"@,
        ServiceTag::BrokerMqtt => "BrokerMqttServices"@,
    }
}

/// The name of the server side of a service.
pub fn server_name(s: ServiceTag) -> (r: String)
    ensures
        r@ == server_name_of(s),
{
    match s {
        ServiceTag::PlacementInner => String::from_str("PlacementServer"),
        ServiceTag::PlacementJournal => String::from_str("JournalServer"),
        ServiceTag::PlacementKv => String::from_str("PlacementCenter"),
        ServiceTag::PlacementMqtt => String::from_str("PlacementCenter"),
        ServiceTag::BrokerMqtt => String::from_str("MQTTBroker"),
    }
}

/// The module name of a service, as errors report it.
pub fn module_name(s: ServiceTag) -> (r: String)
    ensures
        r@ == module_name_of(s),
{
    match s {
        ServiceTag::PlacementInner => String::from_str("PlacementService"),
        ServiceTag::PlacementJournal => String::from_str("JournalService"),
        ServiceTag::PlacementKv => String::from_str("KvServices"),
        ServiceTag::PlacementMqtt => String::from_str("MqttServices"),
        ServiceTag::BrokerMqtt => String::from_str("BrokerMqttServices"),
    }
}

/// The key of a pool: `{server}_{module}_{address}`.
pub open spec fn pool_key_of(s: ServiceTag, addr: Seq<char>) -> Seq<char> {
    server_name_of(s) + seq!['_'] + module_name_of(s) + seq!['_'] + addr
}

/// The key of the pool that serves a service at an address.
pub fn pool_key(s: ServiceTag, addr: &String) -> (r: String)
    ensures
        r@ == pool_key_of(s, addr@),
{
    proof {
        reveal_strlit("_");
    }
    let k = server_name(s).concat("_");
    let k = k.concat(module_name(s).as_str());
    let k = k.concat("_");
    k.concat(addr.as_str())
}

/// Why no channel could be had.
pub enum CommonError {
    /// No channel of the module's pool is available, with the reason.
    NoAvailableGrpcConnection(String, String),
}

/// The registry of pools: the key of each pool that exists, each once, and
/// the ceiling on open connections that every pool is built with.
pub struct ClientPool {
    pub max_open_connection: u64,
    pub pool_keys: Vec<String>,
}

pub open spec fn keys_view(v: Seq<String>) -> Seq<Seq<char>> {
    v.map_values(|s: String| s@)
}

impl ClientPool {
    /// The keys of the pools that exist.
    pub open spec fn keys(&self) -> Seq<Seq<char>> {
        keys_view(self.pool_keys@)
    }

    /// At most one pool per key.
    pub open spec fn wf(&self) -> bool {
        self.keys().no_duplicates()
    }

    pub fn new(max_open_connection: u64) -> (r: ClientPool)
        ensures
            r.wf(),
            r.max_open_connection == max_open_connection,
            r.keys() == Seq::<Seq<char>>::empty(),
    {
        let v: Vec<String> = Vec::new();
        proof {
            assert(keys_view(v@) =~= Seq::<Seq<char>>::empty());
        }
        ClientPool { max_open_connection, pool_keys: v }
    }

    /// Whether the pool with this key exists.
    pub fn has_pool(&self, key: &String) -> (r: bool)
        ensures
            r == self.keys().contains(key@),
    {
        let mut i: usize = 0;
        while i < self.pool_keys.len()
            invariant
                i <= self.pool_keys@.len(),
                forall|j: int| 0 <= j < i ==> self.keys()[j] != key@,
            decreases self.pool_keys@.len() - i,
        {
            if self.pool_keys[i] == *key {
                proof {
                    assert(self.keys()[i as int] == key@);
                }
                return true;
            }
            i = i + 1;
        }
        false
    }

    /// The key of the pool for a service at an address, registering the pool
    /// if it does not exist yet. The flag says whether the caller is to build
    /// it (with `max_open_connection`); a second call for the same key never
    /// asks for a second pool.
    pub fn get_or_register(&mut self, s: ServiceTag, addr: &String) -> (r: (String, bool))
        requires
            old(self).wf(),
        ensures
            final(self).wf(),
            final(self).max_open_connection == old(self).max_open_connection,
            r.0@ == pool_key_of(s, addr@),
            r.1 == !old(self).keys().contains(pool_key_of(s, addr@)),
            r.1 ==> final(self).keys() == old(self).keys().push(pool_key_of(s, addr@)),
            !r.1 ==> final(self).keys() == old(self).keys(),
            final(self).keys().contains(pool_key_of(s, addr@)),
    {
        let key = pool_key(s, addr);
        if self.has_pool(&key) {
            (key, false)
        } else {
            let k2 = key.clone();
            self.pool_keys.push(k2);
            proof {
                assert(self.keys() =~= old(self).keys().push(key@));
                assert(self.keys()[self.keys().len() - 1] == key@);
            }
            (key, true)
        }
    }

    /// The error for a pool that could hand out no channel.
    pub fn no_available_channel(s: ServiceTag, reason: String) -> (r: CommonError)
        ensures
            match r {
                CommonError::NoAvailableGrpcConnection(m, why) => m@ == module_name_of(s) && why@ == reason@,
            },
    {
        CommonError::NoAvailableGrpcConnection(module_name(s), reason)
    }
}

/// Registering the pool for the same service and address twice leaves one
/// pool: the registry never holds a key twice.
pub proof fn lemma_register_idempotent(keys: Seq<Seq<char>>, s: ServiceTag, addr: Seq<char>)
    requires
        keys.no_duplicates(),
    ensures
        ({
            let k = pool_key_of(s, addr);
            let once = if keys.contains(k) { keys } else { keys.push(k) };
            let twice = if once.contains(k) { once } else { once.push(k) };
            &&& once.no_duplicates()
            &&& twice == once
        }),
{
    let k = pool_key_of(s, addr);
    if !keys.contains(k) {
        let once = keys.push(k);
        assert(once[once.len() - 1] == k);
        assert(once.contains(k));
        assert forall|i: int, j: int| 0 <= i < j < once.len() implies once[i] != once[j] by {
            if j == once.len() - 1 {
                assert(once[i] == keys[i]);
            }
        }
    }
}

} // verus!
