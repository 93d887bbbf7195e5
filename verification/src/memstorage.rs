//! An in-memory storage provider.
//!
//! It keeps the live and the quarantined entries in two association lists
//! with pairwise distinct keys, and stamps every write with a logical clock
//! that the caller advances. The reclamation sweeps measure an entry's age
//! against that clock, with the retention windows of the `reclaim` module.

use vstd::prelude::*;

use crate::reclaim::{
    expired, is_expired, FORCE_FREE_RETENTION_SECONDS, FREE_RETENTION_SECONDS,
};
use crate::{GetData, SaveData, StorageProvider};

verus! {

/// One stored entry: its key, its bytes, and its last-modified stamp.
struct MemoryEntry {
    key: String,
    data: Vec<u8>,
    modified: u64,
}

/// Whether some entry of `s` carries the key `k`.
spec fn seq_has_key(s: Seq<MemoryEntry>, k: Seq<char>) -> bool {
    exists|i: int| 0 <= i < s.len() && s[i].key@ == k
}

/// The index of an entry of `s` carrying the key `k`; meaningful only when
/// one exists, and then unique under `unique_keys`.
spec fn seq_key_index(s: Seq<MemoryEntry>, k: Seq<char>) -> int {
    choose|i: int| 0 <= i < s.len() && s[i].key@ == k
}

/// The entries of `s` read as a map from key to bytes.
spec fn entries_map(s: Seq<MemoryEntry>) -> Map<Seq<char>, Seq<u8>> {
    Map::new(|k: Seq<char>| seq_has_key(s, k), |k: Seq<char>| s[seq_key_index(s, k)].data@)
}

/// The entries of `s` read as a map from key to last-modified stamp.
spec fn entries_modified(s: Seq<MemoryEntry>) -> Map<Seq<char>, u64> {
    Map::new(|k: Seq<char>| seq_has_key(s, k), |k: Seq<char>| s[seq_key_index(s, k)].modified)
}

/// Whether the keys of `s` are pairwise distinct.
spec fn unique_keys(s: Seq<MemoryEntry>) -> bool {
    forall|i: int, j: int| 0 <= i < j < s.len() ==> s[i].key@ != s[j].key@
}

/// Under distinct keys, the key of the entry at `i` is found at `i` and
/// nowhere else.
proof fn lemma_key_index(s: Seq<MemoryEntry>, i: int)
    requires
        unique_keys(s),
        0 <= i < s.len(),
    ensures
        seq_has_key(s, s[i].key@),
        seq_key_index(s, s[i].key@) == i,
{
    assert(seq_has_key(s, s[i].key@));
    let j = seq_key_index(s, s[i].key@);
    assert(0 <= j < s.len() && s[j].key@ == s[i].key@);
    if i < j {
        assert(s[i].key@ != s[j].key@);
    } else if j < i {
        assert(s[j].key@ != s[i].key@);
    }
}

/// Replacing the entry at `i` by one with the same key updates the maps at
/// that key alone.
proof fn lemma_update_entry(s: Seq<MemoryEntry>, i: int, e: MemoryEntry)
    requires
        unique_keys(s),
        0 <= i < s.len(),
        s[i].key@ == e.key@,
    ensures
        unique_keys(s.update(i, e)),
        entries_map(s.update(i, e)) == entries_map(s).insert(e.key@, e.data@),
        entries_modified(s.update(i, e)) == entries_modified(s).insert(e.key@, e.modified),
{
    let t = s.update(i, e);
    assert forall|a: int, b: int| 0 <= a < b < t.len() implies t[a].key@ != t[b].key@ by {
        assert(t[a].key@ == s[a].key@);
        assert(t[b].key@ == s[b].key@);
    }
    assert forall|k: Seq<char>| seq_has_key(t, k) implies seq_has_key(s, k) by {
        let w = choose|w: int| 0 <= w < t.len() && t[w].key@ == k;
        assert(s[w].key@ == k);
    }
    assert forall|k: Seq<char>| seq_has_key(s, k) implies seq_has_key(t, k) by {
        let w = choose|w: int| 0 <= w < s.len() && s[w].key@ == k;
        assert(t[w].key@ == k);
    }
    assert forall|k: Seq<char>| #[trigger] seq_has_key(t, k) implies entries_map(t)[k]
        == entries_map(s).insert(e.key@, e.data@)[k] && entries_modified(t)[k]
        == entries_modified(s).insert(e.key@, e.modified)[k] by {
        let w = seq_key_index(t, k);
        assert(0 <= w < t.len() && t[w].key@ == k);
        lemma_key_index(t, w);
        if k == e.key@ {
            lemma_key_index(t, i);
            assert(w == i);
        } else {
            assert(s[w].key@ == k);
            lemma_key_index(s, w);
        }
    }
    assert(entries_map(t) =~= entries_map(s).insert(e.key@, e.data@));
    assert(entries_modified(t) =~= entries_modified(s).insert(e.key@, e.modified));
}

/// Appending an entry with a fresh key extends the maps by that key.
proof fn lemma_push_entry(s: Seq<MemoryEntry>, e: MemoryEntry)
    requires
        unique_keys(s),
        !seq_has_key(s, e.key@),
    ensures
        unique_keys(s.push(e)),
        entries_map(s.push(e)) == entries_map(s).insert(e.key@, e.data@),
        entries_modified(s.push(e)) == entries_modified(s).insert(e.key@, e.modified),
{
    let t = s.push(e);
    assert forall|a: int, b: int| 0 <= a < b < t.len() implies t[a].key@ != t[b].key@ by {
        assert(t[a].key@ == s[a].key@);
        if b < s.len() {
            assert(t[b].key@ == s[b].key@);
        } else {
            assert(t[b] == e);
        }
    }
    assert forall|k: Seq<char>| seq_has_key(t, k) implies (seq_has_key(s, k) || k == e.key@) by {
        let w = choose|w: int| 0 <= w < t.len() && t[w].key@ == k;
        if w < s.len() {
            assert(s[w].key@ == k);
        }
    }
    assert forall|k: Seq<char>| seq_has_key(s, k) implies seq_has_key(t, k) by {
        let w = choose|w: int| 0 <= w < s.len() && s[w].key@ == k;
        assert(t[w].key@ == k);
    }
    assert(t[s.len() as int] == e);
    assert(seq_has_key(t, e.key@));
    assert forall|k: Seq<char>| #[trigger] seq_has_key(t, k) implies entries_map(t)[k]
        == entries_map(s).insert(e.key@, e.data@)[k] && entries_modified(t)[k]
        == entries_modified(s).insert(e.key@, e.modified)[k] by {
        let w = seq_key_index(t, k);
        assert(0 <= w < t.len() && t[w].key@ == k);
        lemma_key_index(t, w);
        if k == e.key@ {
            lemma_key_index(t, s.len() as int);
            assert(w == s.len());
        } else {
            assert(w < s.len());
            assert(s[w].key@ == k);
            lemma_key_index(s, w);
        }
    }
    assert(entries_map(t) =~= entries_map(s).insert(e.key@, e.data@));
    assert(entries_modified(t) =~= entries_modified(s).insert(e.key@, e.modified));
}

/// Taking out the entry at `i` removes exactly its key from the maps.
proof fn lemma_remove_entry(s: Seq<MemoryEntry>, i: int)
    requires
        unique_keys(s),
        0 <= i < s.len(),
    ensures
        unique_keys(s.remove(i)),
        entries_map(s.remove(i)) == entries_map(s).remove(s[i].key@),
        entries_modified(s.remove(i)) == entries_modified(s).remove(s[i].key@),
{
    let t = s.remove(i);
    assert forall|a: int, b: int| 0 <= a < b < t.len() implies t[a].key@ != t[b].key@ by {
        let a0 = if a < i { a } else { a + 1 };
        let b0 = if b < i { b } else { b + 1 };
        assert(t[a] == s[a0]);
        assert(t[b] == s[b0]);
    }
    assert forall|k: Seq<char>| seq_has_key(t, k) implies (seq_has_key(s, k) && k
        != s[i].key@) by {
        let w = choose|w: int| 0 <= w < t.len() && t[w].key@ == k;
        let w0 = if w < i { w } else { w + 1 };
        assert(t[w] == s[w0]);
        assert(s[w0].key@ == k);
        lemma_key_index(s, w0);
        lemma_key_index(s, i);
    }
    assert forall|k: Seq<char>| seq_has_key(s, k) && k != s[i].key@ implies seq_has_key(
        t,
        k,
    ) by {
        let w = choose|w: int| 0 <= w < s.len() && s[w].key@ == k;
        if w < i {
            assert(t[w] == s[w]);
            assert(t[w].key@ == k);
        } else {
            assert(w != i);
            assert(t[w - 1] == s[w]);
            assert(t[w - 1].key@ == k);
        }
    }
    assert forall|k: Seq<char>| #[trigger] seq_has_key(t, k) implies entries_map(t)[k]
        == entries_map(s)[k] && entries_modified(t)[k] == entries_modified(s)[k] by {
        let w = seq_key_index(t, k);
        assert(0 <= w < t.len() && t[w].key@ == k);
        let w0 = if w < i { w } else { w + 1 };
        assert(t[w] == s[w0]);
        lemma_key_index(s, w0);
    }
    assert(entries_map(t) =~= entries_map(s).remove(s[i].key@));
    assert(entries_modified(t) =~= entries_modified(s).remove(s[i].key@));
}

/// Find the index of the entry named `key`, if any.
fn find_index(entries: &Vec<MemoryEntry>, key: &str) -> (found: Option<usize>)
    ensures
        match found {
            Some(i) => i < entries@.len() && entries@[i as int].key@ == key@,
            None => !seq_has_key(entries@, key@),
        },
{
    let key_string: String = key.to_owned();
    let mut i: usize = 0;
    while i < entries.len()
        invariant
            i <= entries@.len(),
            key_string@ == key@,
            forall|j: int| 0 <= j < i ==> entries@[j].key@ != key@,
        decreases entries@.len() - i,
    {
        if entries[i].key == key_string {
            return Some(i);
        }
        i += 1;
    }
    None
}

/// Copy a byte vector.
fn copy_bytes(src: &Vec<u8>) -> (copy: Vec<u8>)
    ensures
        copy@ == src@,
{
    let mut copy: Vec<u8> = Vec::new();
    let mut i: usize = 0;
    while i < src.len()
        invariant
            i <= src@.len(),
            copy@ == src@.subrange(0, i as int),
        decreases src@.len() - i,
    {
        copy.push(src[i]);
        proof {
            assert(copy@ =~= src@.subrange(0, i as int + 1));
        }
        i += 1;
    }
    proof {
        assert(copy@ =~= src@);
    }
    copy
}

/// Take out every entry whose age at `now` exceeds `threshold` (every entry
/// when `threshold` is zero); keep the rest, bytes and stamps untouched.
fn sweep_entries(entries: &mut Vec<MemoryEntry>, now: u64, threshold: u64)
    requires
        unique_keys(old(entries)@),
    ensures
        unique_keys(final(entries)@),
        forall|k: Seq<char>| #[trigger]
            entries_map(final(entries)@).contains_key(k) <==> (entries_map(
                old(entries)@,
            ).contains_key(k) && !expired(now, entries_modified(old(entries)@)[k], threshold)),
        forall|k: Seq<char>| #[trigger]
            entries_map(final(entries)@).contains_key(k) ==> entries_map(final(entries)@)[k]
                == entries_map(old(entries)@)[k] && entries_modified(final(entries)@)[k]
                == entries_modified(old(entries)@)[k],
{
    let mut i: usize = 0;
    while i < entries.len()
        invariant
            unique_keys(entries@),
            i <= entries@.len(),
            forall|j: int| 0 <= j < i ==> !expired(now, entries@[j].modified, threshold),
            forall|k: Seq<char>| #[trigger]
                entries_map(entries@).contains_key(k) ==> entries_map(
                    old(entries)@,
                ).contains_key(k) && entries_map(entries@)[k] == entries_map(old(entries)@)[k]
                    && entries_modified(entries@)[k] == entries_modified(old(entries)@)[k],
            forall|k: Seq<char>| #[trigger]
                entries_map(old(entries)@).contains_key(k) && !entries_map(
                    entries@,
                ).contains_key(k) ==> expired(now, entries_modified(old(entries)@)[k], threshold),
        decreases entries@.len() - i,
    {
        if is_expired(now, entries[i].modified, threshold) {
            proof {
                lemma_key_index(entries@, i as int);
                lemma_remove_entry(entries@, i as int);
            }
            entries.remove(i);
        } else {
            i += 1;
        }
    }
    proof {
        assert forall|k: Seq<char>| #[trigger]
            entries_map(entries@).contains_key(k) implies !expired(
            now,
            entries_modified(entries@)[k],
            threshold,
        ) by {
            let w = seq_key_index(entries@, k);
            assert(0 <= w < entries@.len() && entries@[w].key@ == k);
        }
    }
}

/// An in-memory storage provider: the live and the quarantined entries are
/// held in memory, and a caller-driven logical clock stands in for the file
/// system's modification times.
pub struct MemoryStorageProvider {
    clock: u64,
    entries: Vec<MemoryEntry>,
    deleted: Vec<MemoryEntry>,
}

impl MemoryStorageProvider {
    /// The provider's logical clock, in seconds.
    pub closed spec fn spec_clock(&self) -> u64 {
        self.clock
    }

    /// The last-modified stamp of each live entry.
    pub closed spec fn active_modified(&self) -> Map<Seq<char>, u64> {
        entries_modified(self.entries@)
    }

    /// The last-modified stamp of each quarantined entry.
    pub closed spec fn quarantine_modified(&self) -> Map<Seq<char>, u64> {
        entries_modified(self.deleted@)
    }

    /// An empty provider with the clock at zero.
    pub fn new() -> (provider: Self)
        ensures
            provider.inv(),
            provider.active() == Map::<Seq<char>, Seq<u8>>::empty(),
            provider.quarantine() == Map::<Seq<char>, Seq<u8>>::empty(),
            provider.spec_clock() == 0,
    {
        let provider = Self { clock: 0, entries: Vec::new(), deleted: Vec::new() };
        proof {
            assert(entries_map(provider.entries@) =~= Map::<Seq<char>, Seq<u8>>::empty());
            assert(entries_map(provider.deleted@) =~= Map::<Seq<char>, Seq<u8>>::empty());
        }
        provider
    }

    /// Set the provider's clock: the stamp of later writes, and the time
    /// against which a sweep measures an entry's age.
    pub fn set_clock(&mut self, now: u64)
        ensures
            final(self).inv() == old(self).inv(),
            final(self).spec_clock() == now,
            final(self).active() == old(self).active(),
            final(self).quarantine() == old(self).quarantine(),
            final(self).active_modified() == old(self).active_modified(),
            final(self).quarantine_modified() == old(self).quarantine_modified(),
    {
        self.clock = now;
    }

    /// Whether the quarantine currently holds an entry named `key`.
    pub fn is_quarantined(&self, key: &str) -> (held: bool)
        ensures
            held == self.quarantine().contains_key(key@),
    {
        match find_index(&self.deleted, key) {
            Some(i) => {
                proof {
                    assert(seq_has_key(self.deleted@, key@));
                }
                true
            },
            None => false,
        }
    }

    /// Reclaim the quarantined entries whose age at the provider's clock
    /// exceeds `threshold_seconds`; a zero threshold reclaims everything.
    /// The kept entries, their bytes and their stamps stay as they are, and
    /// the live entries are never touched.
    pub fn reclaim_older_than(&mut self, threshold_seconds: u64)
        requires
            old(self).inv(),
        ensures
            final(self).inv(),
            final(self).spec_clock() == old(self).spec_clock(),
            final(self).active() == old(self).active(),
            final(self).active_modified() == old(self).active_modified(),
            forall|k: Seq<char>| #[trigger]
                final(self).quarantine().contains_key(k) <==> (old(self).quarantine().contains_key(k) && !expired(
                    old(self).spec_clock(),
                    old(self).quarantine_modified()[k],
                    threshold_seconds,
                )),
            forall|k: Seq<char>| #[trigger]
                final(self).quarantine().contains_key(k) ==> final(self).quarantine()[k] == old(self).quarantine()[k] && final(self).quarantine_modified()[k] == old(self).quarantine_modified()[k],
    {
        let now = self.clock;
        sweep_entries(&mut self.deleted, now, threshold_seconds);
    }
}

impl StorageProvider for MemoryStorageProvider {
    closed spec fn inv(&self) -> bool {
        unique_keys(self.entries@) && unique_keys(self.deleted@)
    }

    closed spec fn active(&self) -> Map<Seq<char>, Seq<u8>> {
        entries_map(self.entries@)
    }

    closed spec fn quarantine(&self) -> Map<Seq<char>, Seq<u8>> {
        entries_map(self.deleted@)
    }

    fn get(&self, key: &str) -> (r: Result<GetData, String>) {
        match find_index(&self.entries, key) {
            Some(i) => {
                proof {
                    lemma_key_index(self.entries@, i as int);
                }
                let data = copy_bytes(&self.entries[i].data);
                let size = data.len();
                Ok(GetData { key: key.to_owned(), size, data })
            },
            None => Err("Not found".to_owned()),
        }
    }

    fn save(&mut self, key: &str, raw: Vec<u8>) -> (r: Result<SaveData, String>)
        ensures
            r matches Ok(d) && d.key@ == key@ && d.size == raw@.len(),
            final(self).active_modified() == old(self).active_modified().insert(
                key@,
                old(self).spec_clock(),
            ),
            final(self).quarantine_modified() == old(self).quarantine_modified(),
            final(self).spec_clock() == old(self).spec_clock(),
    {
        let size = raw.len();
        let entry = MemoryEntry { key: key.to_owned(), data: raw, modified: self.clock };
        match find_index(&self.entries, key) {
            Some(i) => {
                proof {
                    lemma_update_entry(self.entries@, i as int, entry);
                }
                self.entries.set(i, entry);
            },
            None => {
                proof {
                    lemma_push_entry(self.entries@, entry);
                }
                self.entries.push(entry);
            },
        }
        Ok(SaveData { key: key.to_owned(), size })
    }

    fn delete(&mut self, key: &str)
        ensures
            final(self).active_modified() == old(self).active_modified().remove(key@),
            old(self).active().contains_key(key@) ==> final(self).quarantine_modified() == old(self).quarantine_modified().insert(key@, old(self).active_modified()[key@]),
            !old(self).active().contains_key(key@) ==> final(self).quarantine_modified() == old(self).quarantine_modified(),
            final(self).spec_clock() == old(self).spec_clock(),
    {
        match find_index(&self.entries, key) {
            Some(i) => {
                proof {
                    lemma_key_index(self.entries@, i as int);
                    lemma_remove_entry(self.entries@, i as int);
                }
                let entry = self.entries.remove(i);
                match find_index(&self.deleted, key) {
                    Some(j) => {
                        proof {
                            lemma_update_entry(self.deleted@, j as int, entry);
                        }
                        self.deleted.set(j, entry);
                    },
                    None => {
                        proof {
                            lemma_push_entry(self.deleted@, entry);
                        }
                        self.deleted.push(entry);
                    },
                }
            },
            None => {
                proof {
                    assert(entries_map(self.entries@).remove(key@) =~= entries_map(
                        self.entries@,
                    ));
                    assert(entries_modified(self.entries@).remove(key@) =~= entries_modified(
                        self.entries@,
                    ));
                }
            },
        }
    }

    fn free(&mut self)
        ensures
            final(self).active_modified() == old(self).active_modified(),
            final(self).spec_clock() == old(self).spec_clock(),
            forall|k: Seq<char>| #[trigger]
                final(self).quarantine().contains_key(k) <==> (old(self).quarantine().contains_key(k) && !expired(
                    old(self).spec_clock(),
                    old(self).quarantine_modified()[k],
                    FREE_RETENTION_SECONDS,
                )),
            forall|k: Seq<char>| #[trigger]
                final(self).quarantine().contains_key(k) ==> final(self).quarantine()[k] == old(self).quarantine()[k] && final(self).quarantine_modified()[k] == old(self).quarantine_modified()[k],
    {
        self.reclaim_older_than(FREE_RETENTION_SECONDS);
        proof {
            assert(self.quarantine().submap_of(old(self).quarantine()));
        }
    }

    fn force_free(&mut self, all: bool)
        ensures
            final(self).active_modified() == old(self).active_modified(),
            final(self).spec_clock() == old(self).spec_clock(),
            !all ==> forall|k: Seq<char>| #[trigger]
                final(self).quarantine().contains_key(k) <==> (old(self).quarantine().contains_key(k) && !expired(
                    old(self).spec_clock(),
                    old(self).quarantine_modified()[k],
                    FORCE_FREE_RETENTION_SECONDS,
                )),
            forall|k: Seq<char>| #[trigger]
                final(self).quarantine().contains_key(k) ==> final(self).quarantine()[k] == old(self).quarantine()[k] && final(self).quarantine_modified()[k] == old(self).quarantine_modified()[k],
    {
        if all {
            self.reclaim_older_than(0);
            proof {
                assert(self.quarantine() =~= Map::<Seq<char>, Seq<u8>>::empty());
                assert(self.quarantine().submap_of(old(self).quarantine()));
            }
        } else {
            self.reclaim_older_than(FORCE_FREE_RETENTION_SECONDS);
            proof {
                assert(self.quarantine().submap_of(old(self).quarantine()));
            }
        }
    }
}

} // verus!
