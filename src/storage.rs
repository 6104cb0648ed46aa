//! Streaming and key-value storage: records, shards, consumer-group offsets.

use vstd::prelude::*;
use dashmap::DashMap;

verus! {

#[verifier::external_type_specification]
#[verifier::external_body]
#[verifier::reject_recursive_types(K)]
#[verifier::reject_recursive_types(V)]
#[verifier::reject_recursive_types(S)]
pub struct ExDashMap<K, V, S>(DashMap<K, V, S>);

/// Configuration of a shard; the in-memory backend needs none.
pub struct ShardConfig {}

impl ShardConfig {
    pub fn new() -> (r: ShardConfig) {
        ShardConfig {  }
    }
}

/// A log entry of a shard.
#[derive(Clone)]
pub struct Record {
    pub offset: u128,
    pub key: Option<String>,
    /// Name and value pairs that travel with the payload.
    pub headers: Vec<(String, String)>,
    pub data: Vec<u8>,
    pub timestamp: u128,
}

/// What a record holds, as plain values.
pub struct RecordView {
    pub offset: u128,
    pub key: Option<Seq<char>>,
    pub headers: Seq<(Seq<char>, Seq<char>)>,
    pub data: Seq<u8>,
    pub timestamp: u128,
}

pub open spec fn headers_view(h: Seq<(String, String)>) -> Seq<(Seq<char>, Seq<char>)> {
    h.map_values(|p: (String, String)| (p.0@, p.1@))
}

impl View for Record {
    type V = RecordView;

    open spec fn view(&self) -> RecordView {
        RecordView {
            offset: self.offset,
            key: match self.key {
                Some(k) => Some(k@),
                None => None,
            },
            headers: headers_view(self.headers@),
            data: self.data@,
            timestamp: self.timestamp,
        }
    }
}

pub open spec fn records_view(s: Seq<Record>) -> Seq<RecordView> {
    s.map_values(|r: Record| r@)
}

fn copy_key(k: &Option<String>) -> (r: Option<String>)
    ensures
        match (r, *k) {
            (Some(a), Some(b)) => a@ == b@,
            (None, None) => true,
            _ => false,
        },
{
    match k {
        Some(s) => Some(s.clone()),
        None => None,
    }
}

fn copy_headers(h: &Vec<(String, String)>) -> (r: Vec<(String, String)>)
    ensures
        r@ == h@,
{
    let mut r: Vec<(String, String)> = Vec::new();
    let mut i: usize = 0;
    while i < h.len()
        invariant
            i <= h@.len(),
            r@ == h@.take(i as int),
        decreases h@.len() - i,
    {
        let p = (h[i].0.clone(), h[i].1.clone());
        r.push(p);
        proof {
            assert(h@.take(i as int + 1) =~= h@.take(i as int).push(h@[i as int]));
        }
        i = i + 1;
    }
    proof {
        assert(h@.take(h@.len() as int) =~= h@);
    }
    r
}

impl Record {
    /// A record that carries only a payload.
    pub fn build_b(data: Vec<u8>) -> (r: Record)
        ensures
            r@.data == data@,
            r@.offset == 0,
            r@.key is None,
            r@.headers.len() == 0,
            r@.timestamp == 0,
    {
        Record { offset: 0, key: None, headers: Vec::new(), data, timestamp: 0 }
    }

    /// A record that carries a key and a payload.
    pub fn build_e(key: String, data: Vec<u8>) -> (r: Record)
        ensures
            r@.data == data@,
            r@.offset == 0,
            r@.key == Some(key@),
            r@.headers.len() == 0,
            r@.timestamp == 0,
    {
        Record { offset: 0, key: Some(key), headers: Vec::new(), data, timestamp: 0 }
    }

    /// A field-by-field copy.
    pub fn duplicate(&self) -> (r: Record)
        ensures
            r@ == self@,
    {
        Record {
            offset: self.offset,
            key: copy_key(&self.key),
            headers: copy_headers(&self.headers),
            data: self.data.clone(),
            timestamp: self.timestamp,
        }
    }
}


/// What the adapter's shard table holds: each shard name with its records.
pub uninterp spec fn shard_table(m: DashMap<String, Vec<Record>>) -> Map<Seq<char>, Seq<RecordView>>;

/// What the adapter's consumer-group table holds: each (group, shard) key
/// with its offset.
pub uninterp spec fn group_table(m: DashMap<(String, String), u128>) -> Map<(Seq<char>, Seq<char>), u128>;

/// What the adapter's key-value table holds.
pub uninterp spec fn kv_table(m: DashMap<String, Record>) -> Map<Seq<char>, RecordView>;

/// Relies on DashMap::with_capacity: a new map is empty.
#[verifier::external_body]
fn shard_table_new() -> (r: DashMap<String, Vec<Record>>)
    ensures
        shard_table(r) =~= Map::empty(),
{
    DashMap::with_capacity(256)
}

/// Relies on DashMap::get: the value stored under the key, if any (cloned out of the guard).
#[verifier::external_body]
fn shard_table_get(m: &DashMap<String, Vec<Record>>, k: &String) -> (r: Option<Vec<Record>>)
    ensures
        r is Some <==> shard_table(*m).contains_key(k@),
        r is Some ==> records_view(r->Some_0@) == shard_table(*m)[k@],
{
    m.get(k).map(|v| v.value().clone())
}

/// Relies on DashMap::insert: the key maps to the value afterwards, other keys unchanged.
#[verifier::external_body]
fn shard_table_insert(m: &mut DashMap<String, Vec<Record>>, k: String, v: Vec<Record>)
    ensures
        shard_table(*final(m)) == shard_table(*old(m)).insert(k@, records_view(v@)),
{
    m.insert(k, v);
}

/// Relies on DashMap::remove: the key is gone afterwards, other keys unchanged.
#[verifier::external_body]
fn shard_table_remove(m: &mut DashMap<String, Vec<Record>>, k: &String)
    ensures
        shard_table(*final(m)) == shard_table(*old(m)).remove(k@),
{
    m.remove(k);
}

/// Relies on DashMap::contains_key.
#[verifier::external_body]
fn shard_table_contains(m: &DashMap<String, Vec<Record>>, k: &String) -> (r: bool)
    ensures
        r == shard_table(*m).contains_key(k@),
{
    m.contains_key(k)
}

/// Relies on DashMap::with_capacity: a new map is empty.
#[verifier::external_body]
fn group_table_new() -> (r: DashMap<(String, String), u128>)
    ensures
        group_table(r) =~= Map::empty(),
{
    DashMap::with_capacity(256)
}

/// Relies on DashMap::get: the value stored under the key, if any.
#[verifier::external_body]
fn group_table_get(m: &DashMap<(String, String), u128>, k: &(String, String)) -> (r: Option<u128>)
    ensures
        r is Some <==> group_table(*m).contains_key((k.0@, k.1@)),
        r is Some ==> r->Some_0 == group_table(*m)[(k.0@, k.1@)],
{
    m.get(k).map(|v| *v.value())
}

/// Relies on DashMap::insert: the key maps to the value afterwards, other keys unchanged.
#[verifier::external_body]
fn group_table_insert(m: &mut DashMap<(String, String), u128>, k: (String, String), v: u128)
    ensures
        group_table(*final(m)) == group_table(*old(m)).insert((k.0@, k.1@), v),
{
    m.insert(k, v);
}

/// Whether an offset key names a consumer group's offset in `shard`.
pub open spec fn belongs_to_shard(key: (Seq<char>, Seq<char>), shard: Seq<char>) -> bool {
    key.1 == shard
}

/// Whether an offset key lies outside a shard (see `belongs_to_shard`).
pub fn offset_key_outside_shard(key: &(String, String), shard_name: &String) -> (r: bool)
    ensures
        r == !belongs_to_shard((key.0@, key.1@), shard_name@),
{
    !(key.1 == *shard_name)
}

/// Relies on DashMap::retain: the entries for which the closure returns true
/// stay, with their values; the others go.
#[verifier::external_body]
fn group_table_remove_shard(m: &mut DashMap<(String, String), u128>, shard_name: &String)
    ensures
        forall|k: (Seq<char>, Seq<char>)|
            #[trigger] group_table(*final(m)).contains_key(k) <==> (group_table(*old(m)).contains_key(k)
                && !belongs_to_shard(k, shard_name@)),
        forall|k: (Seq<char>, Seq<char>)|
            #[trigger] group_table(*final(m)).contains_key(k) ==> group_table(*final(m))[k] == group_table(
                *old(m),
            )[k],
{
    m.retain(|k, _| offset_key_outside_shard(k, shard_name));
}

/// Relies on DashMap::with_capacity: a new map is empty.
#[verifier::external_body]
fn kv_table_new() -> (r: DashMap<String, Record>)
    ensures
        kv_table(r) =~= Map::empty(),
{
    DashMap::with_capacity(256)
}

/// Relies on DashMap::get: the value stored under the key, if any (cloned out of the guard).
#[verifier::external_body]
fn kv_table_get(m: &DashMap<String, Record>, k: &String) -> (r: Option<Record>)
    ensures
        r is Some <==> kv_table(*m).contains_key(k@),
        r is Some ==> r->Some_0@ == kv_table(*m)[k@],
{
    m.get(k).map(|v| v.value().clone())
}

/// Relies on DashMap::insert: the key maps to the value afterwards, other keys unchanged.
#[verifier::external_body]
fn kv_table_insert(m: &mut DashMap<String, Record>, k: String, v: Record)
    ensures
        kv_table(*final(m)) == kv_table(*old(m)).insert(k@, v@),
{
    m.insert(k, v);
}

/// Relies on DashMap::remove: the key is gone afterwards, other keys unchanged.
#[verifier::external_body]
fn kv_table_remove(m: &mut DashMap<String, Record>, k: &String)
    ensures
        kv_table(*final(m)) == kv_table(*old(m)).remove(k@),
{
    m.remove(k);
}

/// Relies on DashMap::iter: it visits every entry once (cloned out of the
/// guards), in an order this library does not rely on.
#[verifier::external_body]
fn kv_table_entries(m: &DashMap<String, Record>) -> (r: Vec<(String, Record)>)
    ensures
        forall|i: int|
            0 <= i < r@.len() ==> kv_table(*m).contains_key(#[trigger] r@[i].0@) && kv_table(*m)[r@[i].0@]
                == r@[i].1@,
        forall|k: Seq<char>| #[trigger] kv_table(*m).contains_key(k) ==> exists|i: int| 0 <= i < r@.len() && r@[i].0@ == k,
        forall|i: int, j: int| 0 <= i < j < r@.len() ==> r@[i].0@ != r@[j].0@,
{
    m.iter().map(|e| (e.key().clone(), e.value().clone())).collect()
}

/// Relies on DashMap::contains_key.
#[verifier::external_body]
fn kv_table_contains(m: &DashMap<String, Record>, k: &String) -> (r: bool)
    ensures
        r == kv_table(*m).contains_key(k@),
{
    m.contains_key(k)
}


/// The key under which a consumer group's offset in a shard is kept.
pub open spec fn offset_key_of(group_id: Seq<char>, shard_name: Seq<char>) -> (Seq<char>, Seq<char>) {
    (group_id, shard_name)
}

/// The records of a shard, empty where the shard does not exist.
pub open spec fn shard_records(shards: Map<Seq<char>, Seq<RecordView>>, s: Seq<char>) -> Seq<RecordView> {
    if shards.contains_key(s) {
        shards[s]
    } else {
        Seq::empty()
    }
}

/// `data` with the offsets `start`, `start + 1`, ... assigned in order.
pub open spec fn with_offsets(data: Seq<RecordView>, start: int) -> Seq<RecordView> {
    Seq::new(
        data.len(),
        |i: int|
            RecordView {
                offset: (start + i) as u128,
                key: data[i].key,
                headers: data[i].headers,
                data: data[i].data,
                timestamp: data[i].timestamp,
            },
    )
}

/// The shard table after appending `data` to shard `s`.
pub open spec fn spec_write(
    shards: Map<Seq<char>, Seq<RecordView>>,
    s: Seq<char>,
    data: Seq<RecordView>,
) -> Map<Seq<char>, Seq<RecordView>> {
    let old_recs = shard_records(shards, s);
    shards.insert(s, old_recs + with_offsets(data, old_recs.len() as int))
}

/// Each record of each shard carries its position as its offset.
pub open spec fn offsets_are_positions(shards: Map<Seq<char>, Seq<RecordView>>) -> bool {
    forall|s: Seq<char>, i: int|
        #![trigger shards[s][i]]
        shards.contains_key(s) && 0 <= i < shards[s].len() ==> shards[s][i].offset == i
}

/// The position at which a group reads next, given what it has committed.
pub open spec fn read_start(committed: Option<u128>) -> int {
    match committed {
        Some(o) => o + 1,
        None => 0,
    }
}

pub open spec fn committed_offset(groups: Map<(Seq<char>, Seq<char>), u128>, key: (Seq<char>, Seq<char>)) -> Option<u128> {
    if groups.contains_key(key) {
        Some(groups[key])
    } else {
        None
    }
}

/// The batch that a read returns: at most `num` records from `start` on.
pub open spec fn batch(recs: Seq<RecordView>, start: int, num: int) -> Seq<RecordView> {
    if start >= recs.len() {
        Seq::empty()
    } else if start + num >= recs.len() {
        recs.subrange(start, recs.len() as int)
    } else {
        recs.subrange(start, start + num)
    }
}

/// What `stream_read` returns: `None` for a missing shard, else the next batch
/// strictly after the group's committed offset.
pub open spec fn spec_read(
    shards: Map<Seq<char>, Seq<RecordView>>,
    groups: Map<(Seq<char>, Seq<char>), u128>,
    s: Seq<char>,
    g: Seq<char>,
    num: int,
) -> Option<Seq<RecordView>> {
    if shards.contains_key(s) {
        Some(batch(shards[s], read_start(committed_offset(groups, offset_key_of(g, s))), num))
    } else {
        None
    }
}

/// The group table after a commit: the offset kept never decreases.
pub open spec fn spec_commit(
    groups: Map<(Seq<char>, Seq<char>), u128>,
    s: Seq<char>,
    g: Seq<char>,
    offset: u128,
) -> Map<(Seq<char>, Seq<char>), u128> {
    let key = offset_key_of(g, s);
    if groups.contains_key(key) && groups[key] >= offset {
        groups
    } else {
        groups.insert(key, offset)
    }
}

/// What `stream_read_by_offset` returns.
pub open spec fn spec_read_by_offset(
    shards: Map<Seq<char>, Seq<RecordView>>,
    s: Seq<char>,
    offset: int,
) -> Option<RecordView> {
    if shards.contains_key(s) && 0 <= offset < shards[s].len() {
        Some(shards[s][offset])
    } else {
        None
    }
}

/// After a group commits `o` in a shard, its next read returns only records
/// whose offset is greater than `o`.
pub proof fn lemma_read_after_commit(
    shards: Map<Seq<char>, Seq<RecordView>>,
    groups: Map<(Seq<char>, Seq<char>), u128>,
    s: Seq<char>,
    g: Seq<char>,
    o: u128,
    num: int,
)
    requires
        offsets_are_positions(shards),
        0 <= num,
    ensures
        spec_read(shards, spec_commit(groups, s, g, o), s, g, num) is Some ==> forall|i: int|
            0 <= i < spec_read(shards, spec_commit(groups, s, g, o), s, g, num)->Some_0.len()
                ==> #[trigger] spec_read(shards, spec_commit(groups, s, g, o), s, g, num)->Some_0[i].offset
                > o,
{
    let after = spec_commit(groups, s, g, o);
    let key = offset_key_of(g, s);
    assert(after.contains_key(key) && after[key] >= o);
    if shards.contains_key(s) {
        let recs = shards[s];
        let st = read_start(committed_offset(after, key));
        let b = batch(recs, st, num);
        assert forall|i: int| 0 <= i < b.len() implies #[trigger] b[i].offset > o by {
            assert(st < recs.len());
            assert(st + i < recs.len());
            assert(b[i] == recs[st + i]);
            assert(shards[s][st + i].offset == st + i);
        }
    }
}

/// A record written to a shard is read back at the offset the write returned
/// for it, with the same key and payload.
pub proof fn lemma_write_then_read_by_offset(
    shards: Map<Seq<char>, Seq<RecordView>>,
    s: Seq<char>,
    data: Seq<RecordView>,
    i: int,
)
    requires
        0 <= i < data.len(),
    ensures
        spec_read_by_offset(spec_write(shards, s, data), s, shard_records(shards, s).len() + i)
            is Some,
        spec_read_by_offset(
            spec_write(shards, s, data),
            s,
            shard_records(shards, s).len() + i,
        )->Some_0.data == data[i].data,
        spec_read_by_offset(
            spec_write(shards, s, data),
            s,
            shard_records(shards, s).len() + i,
        )->Some_0.key == data[i].key,
{
    let old_recs = shard_records(shards, s);
    let new_recs = old_recs + with_offsets(data, old_recs.len() as int);
    assert(spec_write(shards, s, data)[s] == new_recs);
    assert(new_recs[old_recs.len() + i] == with_offsets(data, old_recs.len() as int)[i]);
}

/// Why a storage operation failed.
#[derive(Clone, Copy, Debug, PartialEq, Eq, Structural)]
pub enum StorageError {
    /// The shard cannot take that many more records.
    ShardFull,
}

/// The number of records a read returns when the caller names none.
pub const DEFAULT_READ_NUM: u128 = 10;

/// An in-memory storage adapter: shards of records, consumer-group offsets,
/// and a key-value table.
pub struct MemoryStorageAdapter {
    pub memory_data: DashMap<String, Record>,
    pub shard_data: DashMap<String, Vec<Record>>,
    pub group_data: DashMap<(String, String), u128>,
}

impl MemoryStorageAdapter {
    pub open spec fn shards(&self) -> Map<Seq<char>, Seq<RecordView>> {
        shard_table(self.shard_data)
    }

    pub open spec fn groups(&self) -> Map<(Seq<char>, Seq<char>), u128> {
        group_table(self.group_data)
    }

    pub open spec fn kv(&self) -> Map<Seq<char>, RecordView> {
        kv_table(self.memory_data)
    }

    /// The adapter's invariant.
    pub open spec fn wf(&self) -> bool {
        offsets_are_positions(self.shards())
    }

    pub fn new() -> (r: MemoryStorageAdapter)
        ensures
            r.wf(),
            r.shards() == Map::<Seq<char>, Seq<RecordView>>::empty(),
            r.groups() == Map::<(Seq<char>, Seq<char>), u128>::empty(),
            r.kv() == Map::<Seq<char>, RecordView>::empty(),
    {
        MemoryStorageAdapter {
            memory_data: kv_table_new(),
            shard_data: shard_table_new(),
            group_data: group_table_new(),
        }
    }

    /// The key under which a group's committed offset in a shard is kept.
    pub fn offset_key(&self, group_id: String, shard_name: String) -> (r: (String, String))
        ensures
            (r.0@, r.1@) == offset_key_of(group_id@, shard_name@),
    {
        (group_id, shard_name)
    }

    /// The offset the group has committed in the shard, if any.
    pub fn get_offset(&self, group_id: String, shard_name: String) -> (r: Option<u128>)
        ensures
            r == committed_offset(self.groups(), offset_key_of(group_id@, shard_name@)),
    {
        let key = self.offset_key(group_id, shard_name);
        group_table_get(&self.group_data, &key)
    }

    /// Creates an empty shard; a shard that exists is left as it is.
    pub fn create_shard(&mut self, shard_name: String, shard_config: ShardConfig)
        requires
            old(self).wf(),
        ensures
            final(self).wf(),
            final(self).shards() == (if old(self).shards().contains_key(shard_name@) {
                old(self).shards()
            } else {
                old(self).shards().insert(shard_name@, Seq::empty())
            }),
            final(self).groups() == old(self).groups(),
            final(self).kv() == old(self).kv(),
    {
        if !shard_table_contains(&self.shard_data, &shard_name) {
            let empty: Vec<Record> = Vec::new();
            proof {
                assert(records_view(empty@) =~= Seq::empty());
            }
            shard_table_insert(&mut self.shard_data, shard_name, empty);
        }
    }

    /// Removes a shard, its records, and the offsets that consumer groups
    /// committed in it.
    pub fn delete_shard(&mut self, shard_name: String)
        requires
            old(self).wf(),
        ensures
            final(self).wf(),
            final(self).shards() == old(self).shards().remove(shard_name@),
            forall|k: (Seq<char>, Seq<char>)|
                #[trigger] final(self).groups().contains_key(k) <==> (old(self).groups().contains_key(k)
                    && !belongs_to_shard(k, shard_name@)),
            forall|k: (Seq<char>, Seq<char>)|
                #[trigger] final(self).groups().contains_key(k) ==> final(self).groups()[k] == old(
                    self,
                ).groups()[k],
            final(self).kv() == old(self).kv(),
    {
        shard_table_remove(&mut self.shard_data, &shard_name);
        group_table_remove_shard(&mut self.group_data, &shard_name);
    }

    /// Stores a value under a key, replacing what was there.
    pub fn set(&mut self, key: String, value: Record)
        requires
            old(self).wf(),
        ensures
            final(self).wf(),
            final(self).kv() == old(self).kv().insert(key@, value@),
            final(self).shards() == old(self).shards(),
            final(self).groups() == old(self).groups(),
    {
        kv_table_insert(&mut self.memory_data, key, value);
    }

    /// The value stored under a key, if any.
    pub fn get(&self, key: String) -> (r: Option<Record>)
        ensures
            r is Some <==> self.kv().contains_key(key@),
            r is Some ==> r->Some_0@ == self.kv()[key@],
    {
        kv_table_get(&self.memory_data, &key)
    }

    /// Removes the value stored under a key.
    pub fn delete(&mut self, key: String)
        requires
            old(self).wf(),
        ensures
            final(self).wf(),
            final(self).kv() == old(self).kv().remove(key@),
            final(self).shards() == old(self).shards(),
            final(self).groups() == old(self).groups(),
    {
        kv_table_remove(&mut self.memory_data, &key);
    }

    /// Every stored key with its value, each key once, in no set order.
    pub fn entries(&self) -> (r: Vec<(String, Record)>)
        ensures
            forall|i: int|
                0 <= i < r@.len() ==> self.kv().contains_key(#[trigger] r@[i].0@) && self.kv()[r@[i].0@] == r@[i].1@,
            forall|k: Seq<char>| #[trigger] self.kv().contains_key(k) ==> exists|i: int| 0 <= i < r@.len() && r@[i].0@ == k,
            forall|i: int, j: int| 0 <= i < j < r@.len() ==> r@[i].0@ != r@[j].0@,
    {
        kv_table_entries(&self.memory_data)
    }

    /// Whether a value is stored under a key.
    pub fn contains(&self, key: String) -> (r: bool)
        ensures
            r == self.kv().contains_key(key@),
    {
        kv_table_contains(&self.memory_data, &key)
    }

    /// Appends records to a shard (created if missing) and returns the offsets
    /// assigned to them, in input order: the shard's length before the call,
    /// then one more for each record. Fails, changing nothing, where the
    /// offsets would not fit.
    pub fn stream_write(&mut self, shard_name: String, data: Vec<Record>) -> (r: Result<Vec<usize>, StorageError>)
        requires
            old(self).wf(),
        ensures
            final(self).wf(),
            r is Err <==> shard_records(old(self).shards(), shard_name@).len() + data.len() > usize::MAX,
            r is Err ==> r == Err::<Vec<usize>, StorageError>(StorageError::ShardFull) && final(self).shards() == old(self).shards(),
            r is Ok ==> final(self).shards() == spec_write(old(self).shards(), shard_name@, records_view(data@)),
            final(self).groups() == old(self).groups(),
            final(self).kv() == old(self).kv(),
            r is Ok ==> r->Ok_0@.len() == data@.len(),
            r is Ok ==> forall|i: int|
                0 <= i < r->Ok_0@.len() ==> r->Ok_0@[i] == shard_records(old(self).shards(), shard_name@).len()
                    + i,
    {
        let ghost old_recs = shard_records(self.shards(), shard_name@);
        let ghost dv = records_view(data@);
        let mut shard = match shard_table_get(&self.shard_data, &shard_name) {
            Some(v) => v,
            None => Vec::new(),
        };
        proof {
            assert(records_view(shard@) =~= old_recs);
        }
        let start = shard.len();
        if data.len() > usize::MAX - start {
            return Err(StorageError::ShardFull);
        }
        let mut offsets: Vec<usize> = Vec::new();
        let mut i: usize = 0;
        while i < data.len()
            invariant
                i <= data.len(),
                start == old_recs.len(),
                start + data.len() <= usize::MAX,
                dv == records_view(data@),
                records_view(shard@) =~= old_recs + with_offsets(dv.take(i as int), start as int),
                offsets@.len() == i,
                forall|j: int| 0 <= j < i ==> offsets@[j] == start + j,
            decreases data.len() - i,
        {
            let mut rec = data[i].duplicate();
            rec.offset = (start + i) as u128;
            let ghost before = records_view(shard@);
            shard.push(rec);
            offsets.push(start + i);
            proof {
                assert(records_view(shard@) =~= before.push(rec@));
                assert(with_offsets(dv.take(i as int + 1), start as int) =~= with_offsets(
                    dv.take(i as int),
                    start as int,
                ).push(rec@));
            }
            i = i + 1;
        }
        proof {
            assert(dv.take(data.len() as int) =~= dv);
            let new_shards = spec_write(self.shards(), shard_name@, dv);
            assert(new_shards[shard_name@] =~= records_view(shard@));
            assert forall|s: Seq<char>, k: int|
                new_shards.contains_key(s) && 0 <= k < new_shards[s].len() implies #[trigger] new_shards[s][k].offset == k by {
                if s != shard_name@ {
                    assert(self.shards()[s][k].offset == k);
                } else if k < start {
                    assert(self.shards()[s][k].offset == k);
                }
            }
        }
        shard_table_insert(&mut self.shard_data, shard_name, shard);
        Ok(offsets)
    }

    /// Reads the next batch of a shard for a consumer group: the records after
    /// the group's committed offset, at most `record_num` of them (10 where it
    /// is `None`). `None` where the shard does not exist. The batch limit by
    /// size is not applied by this backend.
    pub fn stream_read(
        &self,
        shard_name: String,
        group_id: String,
        record_num: Option<u128>,
        record_size: Option<usize>,
    ) -> (r: Option<Vec<Record>>)
        requires
            self.wf(),
        ensures
            r is Some <==> self.shards().contains_key(shard_name@),
            r is Some ==> spec_read(
                self.shards(),
                self.groups(),
                shard_name@,
                group_id@,
                (match record_num {
                    Some(n) => n,
                    None => DEFAULT_READ_NUM,
                }) as int,
            ) == Some(records_view(r->Some_0@)),
            r is Some ==> forall|i: int, j: int|
                0 <= i < j < r->Some_0@.len() ==> r->Some_0@[i].offset < r->Some_0@[j].offset,
            r is Some && committed_offset(self.groups(), offset_key_of(group_id@, shard_name@))
                is Some ==> forall|i: int|
                0 <= i < r->Some_0@.len() ==> r->Some_0@[i].offset > committed_offset(
                    self.groups(),
                    offset_key_of(group_id@, shard_name@),
                )->Some_0,
    {
        let committed = self.get_offset(group_id, shard_name.clone());
        let num: u128 = match record_num {
            Some(n) => n,
            None => DEFAULT_READ_NUM,
        };
        match shard_table_get(&self.shard_data, &shard_name) {
            None => None,
            Some(recs) => {
                let ghost rv = records_view(recs@);
                let len = recs.len();
                let start: usize = match committed {
                    Some(o) => if o >= len as u128 {
                        len
                    } else {
                        (o + 1) as usize
                    },
                    None => 0,
                };
                let end: usize = if num >= (len - start) as u128 {
                    len
                } else {
                    start + num as usize
                };
                let mut result: Vec<Record> = Vec::new();
                let mut i: usize = start;
                while i < end
                    invariant
                        start <= i <= end <= len,
                        len == recs@.len(),
                        rv == records_view(recs@),
                        records_view(result@) =~= rv.subrange(start as int, i as int),
                    decreases end - i,
                {
                    let rec = recs[i].duplicate();
                    let ghost before = records_view(result@);
                    result.push(rec);
                    proof {
                        assert(records_view(result@) =~= before.push(rec@));
                        assert(rv[i as int] == recs@[i as int]@);
                    }
                    i = i + 1;
                }
                proof {
                    let st = read_start(committed);
                    assert(rv == self.shards()[shard_name@]);
                    assert(batch(rv, st, num as int) =~= records_view(result@));
                    assert forall|k: int| 0 <= k < result@.len() implies #[trigger] result@[k].offset == start + k by {
                        assert(records_view(result@)[k] == result@[k]@);
                        assert(self.shards()[shard_name@][start + k].offset == start + k);
                    }
                    if committed is Some {
                        assert(start > committed->Some_0 || start == len);
                    }
                }
                Some(result)
            },
        }
    }

    /// Records that the group has processed the shard up to `offset`. The
    /// committed offset never decreases: a lower one leaves it as it is.
    pub fn stream_commit_offset(&mut self, shard_name: String, group_id: String, offset: u128) -> (r: bool)
        requires
            old(self).wf(),
        ensures
            r,
            final(self).wf(),
            final(self).groups() == spec_commit(old(self).groups(), shard_name@, group_id@, offset),
            final(self).shards() == old(self).shards(),
            final(self).kv() == old(self).kv(),
    {
        let key = self.offset_key(group_id, shard_name);
        match group_table_get(&self.group_data, &key) {
            Some(cur) => {
                if cur < offset {
                    group_table_insert(&mut self.group_data, key, offset);
                }
            },
            None => {
                group_table_insert(&mut self.group_data, key, offset);
            },
        }
        true
    }

    /// The record at a position of a shard, if there is one.
    pub fn stream_read_by_offset(&self, shard_name: String, offset: usize) -> (r: Option<Record>)
        ensures
            r is Some <==> spec_read_by_offset(self.shards(), shard_name@, offset as int) is Some,
            r is Some ==> spec_read_by_offset(self.shards(), shard_name@, offset as int) == Some(
                r->Some_0@,
            ),
    {
        match shard_table_get(&self.shard_data, &shard_name) {
            Some(recs) => {
                if offset < recs.len() {
                    let rec = recs[offset].duplicate();
                    proof {
                        assert(records_view(recs@)[offset as int] == recs@[offset as int]@);
                    }
                    Some(rec)
                } else {
                    None
                }
            },
            None => None,
        }
    }

    /// Reads by time range; this backend keeps no time index and returns `None`.
    pub fn stream_read_by_timestamp(
        &self,
        shard_name: String,
        start_timestamp: u128,
        end_timestamp: u128,
        record_num: Option<usize>,
        record_size: Option<usize>,
    ) -> (r: Option<Vec<Record>>)
        ensures
            r is None,
    {
        None
    }

    /// Reads by key; this backend keeps no key index and returns `None`.
    pub fn stream_read_by_key(&self, shard_name: String, key: String) -> (r: Option<Record>)
        ensures
            r is None,
    {
        None
    }
}

} // verus!
