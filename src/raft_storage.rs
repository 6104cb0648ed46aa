//! The Raft log store of the placement center: entries after the last
//! snapshot, the hard state, the configuration state, and the reads that the
//! Raft state machine makes of them.

use vstd::prelude::*;

verus! {

/// A log entry.
pub struct Entry {
    pub index: u64,
    pub term: u64,
    pub data: Vec<u8>,
}

pub struct EntryView {
    pub index: u64,
    pub term: u64,
    pub data: Seq<u8>,
}

impl View for Entry {
    type V = EntryView;

    open spec fn view(&self) -> EntryView {
        EntryView { index: self.index, term: self.term, data: self.data@ }
    }
}

impl Entry {
    /// A field-by-field copy.
    pub fn duplicate(&self) -> (r: Entry)
        ensures
            r@ == self@,
    {
        Entry { index: self.index, term: self.term, data: self.data.clone() }
    }
}

pub open spec fn entries_view(s: Seq<Entry>) -> Seq<EntryView> {
    s.map_values(|e: Entry| e@)
}

/// The persistent vote state.
#[derive(Clone, Copy, Debug, PartialEq, Eq, Structural)]
pub struct HardState {
    pub term: u64,
    pub vote: u64,
    pub commit: u64,
}

/// The cluster membership.
pub struct ConfState {
    pub voters: Vec<u64>,
    pub learners: Vec<u64>,
}

/// Where the last snapshot ends.
#[derive(Clone, Copy, Debug, PartialEq, Eq, Structural)]
pub struct SnapshotMetadata {
    pub index: u64,
    pub term: u64,
}

/// The storage errors that the Raft state machine expects.
#[derive(Clone, Copy, Debug, PartialEq, Eq, Structural)]
pub enum RaftStorageError {
    /// The index lies before the first entry kept.
    Compacted,
    /// The index lies after the last entry.
    Unavailable,
    /// The snapshot is not ready yet; ask again later.
    SnapshotTemporarilyUnavailable,
    /// A snapshot older than the log was offered.
    SnapshotOutOfDate,
}

/// The store's state, behind its lock.
pub struct RaftRocksDBStorageCore {
    pub entries: Vec<Entry>,
    pub hard_state: HardState,
    pub conf_state: ConfState,
    pub snapshot_metadata: SnapshotMetadata,
    /// Makes the next snapshot request fail once with a temporary error.
    pub trigger_snap_unavailable: bool,
}

/// The total payload size of a run of entries.
pub open spec fn total_size(s: Seq<EntryView>) -> int
    decreases s.len(),
{
    if s.len() == 0 {
        0
    } else {
        total_size(s.drop_last()) + s.last().data.len()
    }
}

/// How many entries of `s` a read keeps under the size limit `m`, having
/// kept `k` so far: one more while the total stays within `m`.
pub open spec fn limit_len(s: Seq<EntryView>, m: int, k: int) -> int
    decreases s.len() - k,
{
    if k >= s.len() {
        s.len() as int
    } else if total_size(s.take(k + 1)) <= m {
        limit_len(s, m, k + 1)
    } else {
        k
    }
}

/// The entries a read returns: all of them without a limit; else the
/// longest run from the start within the limit, and at least one.
pub open spec fn size_limited(s: Seq<EntryView>, max_size: Option<u64>) -> Seq<EntryView> {
    match max_size {
        None => s,
        Some(m) => if s.len() == 0 {
            s
        } else {
            s.take(limit_len(s, m as int, 1))
        },
    }
}

proof fn lemma_total_size_step(s: Seq<EntryView>, k: int)
    requires
        0 <= k < s.len(),
    ensures
        total_size(s.take(k + 1)) == total_size(s.take(k)) + s[k].data.len(),
{
    assert(s.take(k + 1).drop_last() =~= s.take(k));
}

/// The Raft log store.
pub struct RaftRocksDBStorage {
    pub core: RaftRocksDBStorageCore,
}

impl RaftRocksDBStorage {
    /// The log view: entries follow the snapshot without gaps, and the last
    /// index fits.
    pub open spec fn wf(&self) -> bool {
        &&& forall|i: int|
            0 <= i < self.core.entries@.len() ==> #[trigger] self.core.entries@[i].index
                == self.core.snapshot_metadata.index + 1 + i
        &&& self.core.snapshot_metadata.index + self.core.entries@.len() < u64::MAX
    }

    pub open spec fn spec_first_index(&self) -> int {
        self.core.snapshot_metadata.index + 1
    }

    pub open spec fn spec_last_index(&self) -> int {
        self.core.snapshot_metadata.index + self.core.entries@.len()
    }

    pub open spec fn log(&self) -> Seq<EntryView> {
        entries_view(self.core.entries@)
    }

    /// An empty store: no entries, no snapshot.
    pub fn new() -> (r: RaftRocksDBStorage)
        ensures
            r.wf(),
            r.core.entries@.len() == 0,
            r.core.snapshot_metadata == (SnapshotMetadata { index: 0, term: 0 }),
            r.core.hard_state == (HardState { term: 0, vote: 0, commit: 0 }),
            r.core.conf_state.voters@.len() == 0,
            r.core.conf_state.learners@.len() == 0,
            !r.core.trigger_snap_unavailable,
    {
        RaftRocksDBStorage {
            core: RaftRocksDBStorageCore {
                entries: Vec::new(),
                hard_state: HardState { term: 0, vote: 0, commit: 0 },
                conf_state: ConfState { voters: Vec::new(), learners: Vec::new() },
                snapshot_metadata: SnapshotMetadata { index: 0, term: 0 },
                trigger_snap_unavailable: false,
            },
        }
    }

    /// A new store that starts from a membership.
    pub fn new_with_conf_state(conf_state: ConfState) -> (r: RaftRocksDBStorage)
        ensures
            r.wf(),
            r.core.entries@.len() == 0,
            r.core.conf_state.voters@ == conf_state.voters@,
            r.core.conf_state.learners@ == conf_state.learners@,
    {
        let mut store = RaftRocksDBStorage::new();
        store.initialize_with_conf_state(conf_state);
        store
    }

    /// Whether the store has a membership already.
    pub open spec fn initialized(&self) -> bool {
        self.core.conf_state.voters@.len() > 0 || self.core.conf_state.learners@.len() > 0
    }

    /// Sets the first membership of a store that has none.
    pub fn initialize_with_conf_state(&mut self, conf_state: ConfState)
        requires
            !old(self).initialized(),
            old(self).wf(),
        ensures
            final(self).wf(),
            final(self).core.conf_state.voters@ == conf_state.voters@,
            final(self).core.conf_state.learners@ == conf_state.learners@,
            final(self).core.entries@ == old(self).core.entries@,
            final(self).core.snapshot_metadata == old(self).core.snapshot_metadata,
            final(self).core.hard_state == old(self).core.hard_state,
    {
        self.write_lock().conf_state = conf_state;
    }

    /// The state for readers.
    pub fn read_lock(&self) -> (r: &RaftRocksDBStorageCore)
        ensures
            *r == self.core,
    {
        &self.core
    }

    /// The state for writers.
    pub fn write_lock(&mut self) -> (r: &mut RaftRocksDBStorageCore)
        ensures
            *r == old(self).core,
            final(self).core == *final(r),
    {
        &mut self.core
    }

    /// The hard state and the membership.
    pub fn initial_state(&self) -> (r: (HardState, &ConfState))
        ensures
            r.0 == self.core.hard_state,
            *r.1 == self.core.conf_state,
    {
        let core = self.read_lock();
        (core.hard_state, &core.conf_state)
    }

    /// The index of the first entry kept: one after the snapshot.
    pub fn first_index(&self) -> (r: u64)
        requires
            self.wf(),
        ensures
            r == self.spec_first_index(),
    {
        self.core.snapshot_metadata.index + 1
    }

    /// The index of the last entry (the snapshot's where no entry follows).
    pub fn last_index(&self) -> (r: u64)
        requires
            self.wf(),
        ensures
            r == self.spec_last_index(),
    {
        self.core.snapshot_metadata.index + self.core.entries.len() as u64
    }

    /// The term of the entry at `idx`: the snapshot's own term at its index,
    /// `Compacted` before the first entry, `Unavailable` after the last.
    pub fn term(&self, idx: u64) -> (r: Result<u64, RaftStorageError>)
        requires
            self.wf(),
        ensures
            idx == self.core.snapshot_metadata.index ==> r == Ok::<u64, RaftStorageError>(
                self.core.snapshot_metadata.term,
            ),
            idx != self.core.snapshot_metadata.index && idx < self.spec_first_index() ==> r == Err::<
                u64,
                RaftStorageError,
            >(RaftStorageError::Compacted),
            idx != self.core.snapshot_metadata.index && idx > self.spec_last_index() ==> r == Err::<
                u64,
                RaftStorageError,
            >(RaftStorageError::Unavailable),
            self.spec_first_index() <= idx <= self.spec_last_index() ==> r == Ok::<
                u64,
                RaftStorageError,
            >(self.log()[idx - self.spec_first_index()].term),
    {
        let core = self.read_lock();
        if idx == core.snapshot_metadata.index {
            return Ok(core.snapshot_metadata.term);
        }
        let first = self.first_index();
        if idx < first {
            return Err(RaftStorageError::Compacted);
        }
        if idx > self.last_index() {
            return Err(RaftStorageError::Unavailable);
        }
        let n = core.entries.len();
        let off: u64 = idx - first;
        proof {
            assert(off < n);
        }
        let pos = off as usize;
        proof {
            assert(self.log()[pos as int] == core.entries@[pos as int]@);
            assert(idx - self.spec_first_index() == pos);
        }
        Ok(core.entries[pos].term)
    }

    /// The entries with indexes in `[low, high)`, cut to `max_size` bytes of
    /// payload (but at least one entry). `Compacted` where `low` lies before
    /// the first entry kept; otherwise `high` may not pass one after the last
    /// entry.
    pub fn entries(&self, low: u64, high: u64, max_size: Option<u64>) -> (r: Result<Vec<Entry>, RaftStorageError>)
        requires
            self.wf(),
            low >= self.spec_first_index() ==> high <= self.spec_last_index() + 1,
        ensures
            low < self.spec_first_index() ==> r == Err::<Vec<Entry>, RaftStorageError>(RaftStorageError::Compacted),
            low >= self.spec_first_index() ==> r is Ok,
            r is Ok ==> entries_view(r->Ok_0@) == size_limited(
                if low >= high {
                    Seq::<EntryView>::empty()
                } else {
                    self.log().subrange(low - self.spec_first_index(), high - self.spec_first_index())
                },
                max_size,
            ),
    {
        let core = self.read_lock();
        let first = self.first_index();
        if low < first {
            return Err(RaftStorageError::Compacted);
        }
        let mut result: Vec<Entry> = Vec::new();
        if low >= high {
            proof {
                assert(entries_view(result@) =~= Seq::<EntryView>::empty());
            }
            return Ok(result);
        }
        let ghost range = self.log().subrange(low - self.spec_first_index(), high - self.spec_first_index());
        let n = core.entries.len();
        let lo_off: u64 = low - first;
        let hi_off: u64 = high - first;
        proof {
            assert(lo_off < hi_off <= n);
        }
        let lo = lo_off as usize;
        let hi = hi_off as usize;
        let mut i = lo;
        let mut total: u64 = 0;
        while i < hi
            invariant
                self.wf(),
                core == &self.core,
                lo <= i <= hi <= core.entries@.len(),
                range == self.log().subrange(lo as int, hi as int),
                range.len() == hi - lo,
                entries_view(result@) =~= range.take(i - lo),
                max_size is Some ==> total == total_size(range.take(i - lo)),
                max_size is Some && i > lo ==> limit_len(range, max_size->Some_0 as int, 1) == limit_len(range, max_size->Some_0 as int, i - lo),
                max_size is Some && i > lo ==> total <= max_size->Some_0 || i == lo + 1,
            ensures
                max_size is None ==> i == hi,
                i == hi || (max_size is Some && lo < i < hi && total_size(range.take(i - lo + 1)) > max_size->Some_0),
            decreases hi - i,
        {
            let e = &core.entries[i];
            let sz = e.data.len() as u64;
            proof {
                assert(range[i - lo] == self.log()[i as int]);
                assert(self.log()[i as int] == core.entries@[i as int]@);
                lemma_total_size_step(range, i - lo);
            }
            match max_size {
                Some(m) => {
                    if i > lo && (total > m || sz > m - total) {
                        proof {
                            assert(total_size(range.take(i - lo + 1)) > m);
                        }
                        break;
                    }
                    if i == lo {
                        total = sz;
                    } else {
                        total = total + sz;
                    }
                    proof {
                        if i > lo {
                            assert(total_size(range.take(i - lo + 1)) <= m);
                        }
                    }
                },
                None => {},
            }
            let ghost before = result@;
            result.push(e.duplicate());
            proof {
                assert(entries_view(result@) =~= entries_view(before).push(e@));
                assert(range.take(i - lo + 1) =~= range.take(i - lo).push(range[i - lo]));
                if i == lo {
                    assert(range.take(0) =~= Seq::<EntryView>::empty());
                }
            }
            i = i + 1;
        }
        proof {
            if max_size is None {
                assert(range.take(hi - lo) =~= range);
            } else {
                let m = max_size->Some_0 as int;
                if i == hi {
                    assert(limit_len(range, m, i - lo) == range.len());
                } else {
                    assert(limit_len(range, m, i - lo) == i - lo);
                }
            }
        }
        Ok(result)
    }

    /// Appends entries, replacing those at and after the first new index.
    pub fn append(&mut self, ents: &Vec<Entry>)
        requires
            old(self).wf(),
            ents@.len() > 0 ==> old(self).spec_first_index() <= ents@[0].index <= old(self).spec_last_index() + 1,
            ents@.len() > 0 ==> ents@[0].index - 1 + ents@.len() < u64::MAX,
            forall|i: int| 0 <= i < ents@.len() ==> #[trigger] ents@[i].index == ents@[0].index + i,
        ensures
            final(self).wf(),
            ents@.len() == 0 ==> final(self).log() == old(self).log(),
            ents@.len() > 0 ==> final(self).log() == old(self).log().take(ents@[0].index - old(self).spec_first_index()) + entries_view(ents@),
            final(self).core.snapshot_metadata == old(self).core.snapshot_metadata,
            final(self).core.hard_state == old(self).core.hard_state,
    {
        if ents.len() == 0 {
            return;
        }
        let first = self.first_index();
        let keep = (ents[0].index - first) as usize;
        let ghost kept = self.log().take(keep as int);
        let core = self.write_lock();
        core.entries.truncate(keep);
        proof {
            assert(entries_view(core.entries@) =~= kept);
        }
        let mut i: usize = 0;
        while i < ents.len()
            invariant
                i <= ents@.len(),
                keep == ents@[0].index - first,
                first == old(self).core.snapshot_metadata.index + 1,
                core.snapshot_metadata == old(self).core.snapshot_metadata,
                core.hard_state == old(self).core.hard_state,
                core.entries@.len() == keep + i,
                entries_view(core.entries@) =~= kept + entries_view(ents@).take(i as int),
                forall|j: int| 0 <= j < keep ==> #[trigger] core.entries@[j].index == first + j,
                forall|j: int| keep <= j < keep + i ==> #[trigger] core.entries@[j].index == first + j,
                forall|j: int| 0 <= j < ents@.len() ==> #[trigger] ents@[j].index == ents@[0].index + j,
                ents@[0].index - 1 + ents@.len() < u64::MAX,
            decreases ents@.len() - i,
        {
            let ghost before = entries_view(core.entries@);
            let e = ents[i].duplicate();
            core.entries.push(e);
            proof {
                assert(entries_view(core.entries@) =~= before.push(e@));
                assert(entries_view(ents@).take(i as int + 1) =~= entries_view(ents@).take(i as int).push(ents@[i as int]@));
                assert(core.entries@[keep + i].index == first + keep + i);
            }
            i = i + 1;
        }
        proof {
            assert(entries_view(ents@).take(ents@.len() as int) =~= entries_view(ents@));
            assert forall|j: int| 0 <= j < self.core.entries@.len() implies #[trigger] self.core.entries@[j].index
                == self.core.snapshot_metadata.index + 1 + j by {
                if j < keep {
                } else {
                }
            }
        }
    }

    /// Replaces the hard state.
    pub fn set_hard_state(&mut self, hs: &HardState)
        requires
            old(self).wf(),
        ensures
            final(self).wf(),
            final(self).core.hard_state == *hs,
            final(self).log() == old(self).log(),
            final(self).core.snapshot_metadata == old(self).core.snapshot_metadata,
    {
        self.write_lock().hard_state = *hs;
    }

    /// Sets the commit index of the hard state.
    pub fn set_hard_state_comit(&mut self, commit: u64)
        requires
            old(self).wf(),
        ensures
            final(self).wf(),
            final(self).core.hard_state == (HardState { commit, ..old(self).core.hard_state }),
            final(self).log() == old(self).log(),
            final(self).core.snapshot_metadata == old(self).core.snapshot_metadata,
    {
        self.write_lock().hard_state.commit = commit;
    }

    /// Installs a snapshot: the log restarts after it, the commit index moves
    /// to it and the term never goes back. A snapshot older than the first
    /// entry kept is refused.
    pub fn apply_snapshot(&mut self, meta: SnapshotMetadata) -> (r: Result<(), RaftStorageError>)
        requires
            old(self).wf(),
            meta.index < u64::MAX,
        ensures
            final(self).wf(),
            meta.index < old(self).spec_first_index() ==> r == Err::<(), RaftStorageError>(RaftStorageError::SnapshotOutOfDate)
                && final(self).core.entries@ == old(self).core.entries@
                && final(self).core.snapshot_metadata == old(self).core.snapshot_metadata
                && final(self).core.hard_state == old(self).core.hard_state,
            meta.index >= old(self).spec_first_index() ==> r is Ok
                && final(self).core.entries@.len() == 0
                && final(self).core.snapshot_metadata == meta
                && final(self).core.hard_state.commit == meta.index
                && final(self).core.hard_state.vote == old(self).core.hard_state.vote
                && final(self).core.hard_state.term == (if old(self).core.hard_state.term >= meta.term {
                    old(self).core.hard_state.term
                } else {
                    meta.term
                }),
    {
        if meta.index < self.first_index() {
            return Err(RaftStorageError::SnapshotOutOfDate);
        }
        let core = self.write_lock();
        core.entries.clear();
        core.snapshot_metadata = meta;
        core.hard_state.commit = meta.index;
        if core.hard_state.term < meta.term {
            core.hard_state.term = meta.term;
        }
        Ok(())
    }

    /// The current snapshot, at an index no lower than `request_index`. Fails
    /// once with a temporary error where the store was told to.
    pub fn snapshot(&mut self, request_index: u64) -> (r: Result<SnapshotMetadata, RaftStorageError>)
        requires
            old(self).wf(),
        ensures
            final(self).wf(),
            final(self).log() == old(self).log(),
            final(self).core.snapshot_metadata == old(self).core.snapshot_metadata,
            !final(self).core.trigger_snap_unavailable,
            old(self).core.trigger_snap_unavailable ==> r == Err::<SnapshotMetadata, RaftStorageError>(RaftStorageError::SnapshotTemporarilyUnavailable),
            !old(self).core.trigger_snap_unavailable ==> r == Ok::<SnapshotMetadata, RaftStorageError>(SnapshotMetadata {
                index: if old(self).core.snapshot_metadata.index < request_index {
                    request_index
                } else {
                    old(self).core.snapshot_metadata.index
                },
                term: old(self).core.snapshot_metadata.term,
            }),
    {
        let core = self.write_lock();
        if core.trigger_snap_unavailable {
            core.trigger_snap_unavailable = false;
            return Err(RaftStorageError::SnapshotTemporarilyUnavailable);
        }
        let mut snap = core.snapshot_metadata;
        if snap.index < request_index {
            snap.index = request_index;
        }
        Ok(snap)
    }
}

} // verus!
