//! Storage of the MQTT blacklist in the placement center's key-value engine:
//! one entry per cluster, blacklist kind and resource.

use vstd::prelude::*;
use vstd::string::StringExecFns;
use crate::storage::{MemoryStorageAdapter, Record};

verus! {

pub open spec fn blacklist_root() -> Seq<char> {
    "/mqtt/blacklist/"@
}

/// The prefix under which a cluster's blacklist entries are kept.
pub open spec fn blacklist_prefix_of(cluster: Seq<char>) -> Seq<char> {
    blacklist_root() + cluster + seq!['/']
}

/// The key of one blacklist entry.
pub open spec fn blacklist_key_of(cluster: Seq<char>, kind: Seq<char>, resource: Seq<char>) -> Seq<char> {
    blacklist_prefix_of(cluster) + kind + seq!['/'] + resource
}

/// `/mqtt/blacklist/{cluster}/`.
pub fn storage_key_mqtt_blacklist_prefix(cluster_name: &String) -> (r: String)
    ensures
        r@ == blacklist_prefix_of(cluster_name@),
{
    proof {
        reveal_strlit("/");
    }
    let root = String::from_str("/mqtt/blacklist/");
    root.concat(cluster_name.as_str()).concat("/")
}

/// `/mqtt/blacklist/{cluster}/{kind}/{resource}`.
pub fn storage_key_mqtt_blacklist(cluster_name: &String, blacklist_type: &String, resource_name: &String) -> (r: String)
    ensures
        r@ == blacklist_key_of(cluster_name@, blacklist_type@, resource_name@),
{
    proof {
        reveal_strlit("/");
    }
    let p = storage_key_mqtt_blacklist_prefix(cluster_name);
    p.concat(blacklist_type.as_str()).concat("/").concat(resource_name.as_str())
}

/// Every entry of a cluster lies under that cluster's prefix, so a listing by
/// prefix finds all of them.
pub proof fn lemma_key_under_prefix(cluster: Seq<char>, kind: Seq<char>, resource: Seq<char>)
    ensures
        blacklist_key_of(cluster, kind, resource).subrange(0, blacklist_prefix_of(cluster).len() as int)
            == blacklist_prefix_of(cluster),
{
    let p = blacklist_prefix_of(cluster);
    assert(blacklist_key_of(cluster, kind, resource).subrange(0, p.len() as int) =~= p);
}

pub open spec fn has_prefix(s: Seq<char>, p: Seq<char>) -> bool {
    s.len() >= p.len() && s.subrange(0, p.len() as int) == p
}

fn starts_with(s: &String, p: &String) -> (r: bool)
    ensures
        r == has_prefix(s@, p@),
{
    let n = s.unicode_len();
    let m = p.unicode_len();
    if n < m {
        return false;
    }
    let mut i: usize = 0;
    while i < m
        invariant
            m <= n,
            n == s@.len(),
            m == p@.len(),
            i <= m,
            forall|j: int| 0 <= j < i ==> s@[j] == p@[j],
        decreases m - i,
    {
        if s.get_char(i) != p.get_char(i) {
            proof {
                assert(s@.subrange(0, m as int)[i as int] != p@[i as int]);
            }
            return false;
        }
        i = i + 1;
    }
    proof {
        assert(s@.subrange(0, m as int) =~= p@);
    }
    true
}

/// The blacklist store over a key-value engine.
pub struct MQTTBlackListStorage {
    pub engine: MemoryStorageAdapter,
}

impl MQTTBlackListStorage {
    pub fn new(engine: MemoryStorageAdapter) -> (r: MQTTBlackListStorage)
        ensures
            r.engine == engine,
    {
        MQTTBlackListStorage { engine }
    }

    /// Stores an encoded blacklist entry under its key.
    pub fn save(
        &mut self,
        cluster_name: &String,
        blacklist_type: &String,
        resource_name: &String,
        encoded: Vec<u8>,
    )
        requires
            old(self).engine.wf(),
        ensures
            final(self).engine.wf(),
            final(self).engine.kv().dom() == old(self).engine.kv().dom().insert(
                blacklist_key_of(cluster_name@, blacklist_type@, resource_name@),
            ),
            final(self).engine.kv()[blacklist_key_of(cluster_name@, blacklist_type@, resource_name@)].data
                == encoded@,
    {
        let key = storage_key_mqtt_blacklist(cluster_name, blacklist_type, resource_name);
        let rec = Record::build_b(encoded);
        self.engine.set(key, rec);
    }

    /// The encoded entries of a cluster, each with its key, each once, in no
    /// set order.
    pub fn list(&self, cluster_name: &String) -> (r: Vec<(String, Vec<u8>)>)
        ensures
            forall|i: int|
                0 <= i < r@.len() ==> has_prefix(#[trigger] r@[i].0@, blacklist_prefix_of(cluster_name@))
                    && self.engine.kv().contains_key(r@[i].0@) && self.engine.kv()[r@[i].0@].data == r@[i].1@,
            forall|k: Seq<char>|
                #[trigger] self.engine.kv().contains_key(k) && has_prefix(k, blacklist_prefix_of(cluster_name@))
                    ==> exists|i: int| 0 <= i < r@.len() && r@[i].0@ == k,
            forall|i: int, j: int| 0 <= i < j < r@.len() ==> r@[i].0@ != r@[j].0@,
    {
        let prefix = storage_key_mqtt_blacklist_prefix(cluster_name);
        let all = self.engine.entries();
        let mut out: Vec<(String, Vec<u8>)> = Vec::new();
        let ghost mut picked: Seq<int> = Seq::empty();
        let mut i: usize = 0;
        while i < all.len()
            invariant
                i <= all@.len(),
                prefix@ == blacklist_prefix_of(cluster_name@),
                forall|a: int|
                    0 <= a < all@.len() ==> self.engine.kv().contains_key(#[trigger] all@[a].0@)
                        && self.engine.kv()[all@[a].0@] == all@[a].1@,
                forall|a: int, b: int| 0 <= a < b < all@.len() ==> all@[a].0@ != all@[b].0@,
                out@.len() == picked.len(),
                forall|x: int| 0 <= x < picked.len() ==> 0 <= #[trigger] picked[x] < i,
                forall|x: int, y: int| 0 <= x < y < picked.len() ==> picked[x] < picked[y],
                forall|x: int|
                    0 <= x < out@.len() ==> #[trigger] out@[x].0@ == all@[picked[x]].0@ && out@[x].1@
                        == all@[picked[x]].1@.data && has_prefix(out@[x].0@, prefix@),
                forall|a: int|
                    0 <= a < i && has_prefix(#[trigger] all@[a].0@, prefix@) ==> exists|x: int|
                        0 <= x < picked.len() && picked[x] == a,
            decreases all@.len() - i,
        {
            if starts_with(&all[i].0, &prefix) {
                let key = all[i].0.clone();
                let data = all[i].1.data.clone();
                out.push((key, data));
                proof {
                    let old_picked = picked;
                    picked = picked.push(i as int);
                    assert forall|a: int|
                        0 <= a < i + 1 && has_prefix(#[trigger] all@[a].0@, prefix@) implies exists|x: int|
                            0 <= x < picked.len() && picked[x] == a by {
                        if a == i {
                            assert(picked[old_picked.len() as int] == a);
                        } else {
                            let x = choose|x: int| 0 <= x < old_picked.len() && old_picked[x] == a;
                            assert(picked[x] == a);
                        }
                    }
                }
            }
            i = i + 1;
        }
        proof {
            assert forall|x: int, y: int| 0 <= x < y < out@.len() implies out@[x].0@ != out@[y].0@ by {
                assert(picked[x] < picked[y]);
            }
            assert forall|k: Seq<char>|
                #[trigger] self.engine.kv().contains_key(k) && has_prefix(k, blacklist_prefix_of(cluster_name@))
                    implies exists|x: int| 0 <= x < out@.len() && out@[x].0@ == k by {
                let a = choose|a: int| 0 <= a < all@.len() && all@[a].0@ == k;
                let x = choose|x: int| 0 <= x < picked.len() && picked[x] == a;
                assert(out@[x].0@ == k);
            }
        }
        out
    }

    /// Removes a blacklist entry.
    pub fn delete(&mut self, cluster_name: &String, blacklist_type: &String, resource_name: &String)
        requires
            old(self).engine.wf(),
        ensures
            final(self).engine.wf(),
            final(self).engine.kv() == old(self).engine.kv().remove(
                blacklist_key_of(cluster_name@, blacklist_type@, resource_name@),
            ),
    {
        let key = storage_key_mqtt_blacklist(cluster_name, blacklist_type, resource_name);
        self.engine.delete(key);
    }
}

} // verus!
