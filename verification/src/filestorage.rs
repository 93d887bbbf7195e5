//! The file-backed storage provider's verified core.
//!
//! The provider owns two sibling directories: the active store and the
//! quarantine ("delete") store, each holding one file per key, named exactly
//! as the key string. The file I/O itself (creating the directories,
//! reading, writing, renaming and listing files) cannot be verified and
//! lives with the surrounding service; what stands here is everything the
//! provider decides: the path a key maps to, and which quarantined files a
//! reclamation sweep removes.

use vstd::prelude::*;
use vstd::string::*;

use crate::reclaim::{expired, is_expired, FORCE_FREE_RETENTION_SECONDS, FREE_RETENTION_SECONDS};

verus! {

/// The directories of one file-backed provider instance.
///
/// Keys are used verbatim as file names, with no path-separator
/// sanitization: a key holding path-traversal sequences can escape the
/// intended directory. That hardening gap is deliberate and documented, not
/// silently fixed here.
pub struct DispnetFileStorageProvider {
    folder: String,
    delete: String,
}

/// One quarantined file as a directory listing reports it: its name (the
/// key of the soft-deleted entry) and its modification time, in seconds
/// since the epoch.
pub struct FileMeta {
    /// File name: the key of the soft-deleted entry.
    pub key: String,
    /// Modification time, in seconds since the epoch.
    pub modified: u64,
}

/// The names a sweep at time `now` with retention window `threshold`
/// removes from the quarantine listing `entries`: exactly the names of the
/// expired files, in listing order.
pub open spec fn sweep_plan_spec(entries: Seq<FileMeta>, now: u64, threshold: u64) -> Seq<
    Seq<char>,
>
    decreases entries.len(),
{
    if entries.len() == 0 {
        Seq::empty()
    } else {
        let rest = sweep_plan_spec(entries.drop_first(), now, threshold);
        if expired(now, entries.first().modified, threshold) {
            seq![entries.first().key@] + rest
        } else {
            rest
        }
    }
}

/// A name is planned for removal exactly when some listed file carries it
/// and is expired.
pub proof fn lemma_sweep_plan_membership(
    entries: Seq<FileMeta>,
    now: u64,
    threshold: u64,
    k: Seq<char>,
)
    ensures
        sweep_plan_spec(entries, now, threshold).contains(k) <==> exists|i: int|
            0 <= i < entries.len() && entries[i].key@ == k && expired(
                now,
                #[trigger] entries[i].modified,
                threshold,
            ),
    decreases entries.len(),
{
    if entries.len() == 0 {
    } else {
        let rest = entries.drop_first();
        lemma_sweep_plan_membership(rest, now, threshold, k);
        let planned = sweep_plan_spec(entries, now, threshold);
        let planned_rest = sweep_plan_spec(rest, now, threshold);
        if expired(now, entries.first().modified, threshold) {
            assert(planned == seq![entries.first().key@] + planned_rest);
            assert(planned[0] == entries.first().key@);
        }
        if planned.contains(k) {
            let w = choose|w: int| 0 <= w < planned.len() && planned[w] == k;
            if expired(now, entries.first().modified, threshold) {
                if w == 0 {
                    assert(entries[0].key@ == k && expired(now, entries[0].modified, threshold));
                } else {
                    assert(planned_rest[w - 1] == k);
                    assert(planned_rest.contains(k));
                    let v = choose|v: int|
                        0 <= v < rest.len() && rest[v].key@ == k && expired(
                            now,
                            rest[v].modified,
                            threshold,
                        );
                    assert(entries[v + 1].key@ == k && expired(
                        now,
                        entries[v + 1].modified,
                        threshold,
                    ));
                }
            } else {
                assert(planned_rest.contains(k));
                let v = choose|v: int|
                    0 <= v < rest.len() && rest[v].key@ == k && expired(
                        now,
                        rest[v].modified,
                        threshold,
                    );
                assert(entries[v + 1].key@ == k && expired(
                    now,
                    entries[v + 1].modified,
                    threshold,
                ));
            }
        }
        if exists|i: int|
            0 <= i < entries.len() && entries[i].key@ == k && expired(
                now,
                #[trigger] entries[i].modified,
                threshold,
            ) {
            let i = choose|i: int|
                0 <= i < entries.len() && entries[i].key@ == k && expired(
                    now,
                    #[trigger] entries[i].modified,
                    threshold,
                );
            if i == 0 {
                assert(planned[0] == k);
            } else {
                assert(rest[i - 1].key@ == k && expired(now, rest[i - 1].modified, threshold));
                assert(planned_rest.contains(k));
                let w = choose|w: int| 0 <= w < planned_rest.len() && planned_rest[w] == k;
                if expired(now, entries.first().modified, threshold) {
                    assert(planned[w + 1] == k);
                } else {
                    assert(planned[w] == k);
                }
            }
        }
    }
}

impl DispnetFileStorageProvider {
    /// The active store's directory path.
    pub closed spec fn spec_folder(&self) -> Seq<char> {
        self.folder@
    }

    /// The quarantine store's directory path.
    pub closed spec fn spec_delete(&self) -> Seq<char> {
        self.delete@
    }

    /// A provider over the two given directories. The surrounding service
    /// creates them, recursively and idempotently, before any file is
    /// touched.
    pub fn new(storage_folder: String, delete_folder: String) -> (provider: Self)
        ensures
            provider.spec_folder() == storage_folder@,
            provider.spec_delete() == delete_folder@,
    {
        Self { folder: storage_folder, delete: delete_folder }
    }

    /// The path of the live file for `key`.
    pub fn internal_file_path(&self, key: &str) -> (path: String)
        ensures
            path@ == self.spec_folder() + "/"@ + key@,
    {
        self.folder.clone().concat("/").concat(key)
    }

    /// The path of the quarantined file for `key`.
    pub fn internal_file_delete_path(&self, key: &str) -> (path: String)
        ensures
            path@ == self.spec_delete() + "/"@ + key@,
    {
        self.delete.clone().concat("/").concat(key)
    }

    /// The files a sweep at time `now` with retention window
    /// `threshold_seconds` removes from the quarantine listing `entries`:
    /// exactly the expired ones, in listing order.
    pub fn sweep_plan(&self, entries: &Vec<FileMeta>, now: u64, threshold_seconds: u64) -> (doomed:
        Vec<String>)
        ensures
            doomed@.map_values(|name: String| name@) == sweep_plan_spec(
                entries@,
                now,
                threshold_seconds,
            ),
    {
        let mut doomed: Vec<String> = Vec::new();
        let mut i: usize = 0;
        proof {
            assert(entries@.skip(0) =~= entries@);
            assert(doomed@.map_values(|name: String| name@) + sweep_plan_spec(
                entries@,
                now,
                threshold_seconds,
            ) =~= sweep_plan_spec(entries@, now, threshold_seconds));
        }
        while i < entries.len()
            invariant
                i <= entries@.len(),
                doomed@.map_values(|name: String| name@) + sweep_plan_spec(
                    entries@.skip(i as int),
                    now,
                    threshold_seconds,
                ) == sweep_plan_spec(entries@, now, threshold_seconds),
            decreases entries@.len() - i,
        {
            proof {
                assert(entries@.skip(i as int).first() == entries@[i as int]);
                assert(entries@.skip(i as int).drop_first() =~= entries@.skip(i as int + 1));
            }
            if is_expired(now, entries[i].modified, threshold_seconds) {
                doomed.push(entries[i].key.clone());
                proof {
                    assert(doomed@.map_values(|name: String| name@) =~= doomed@.drop_last()
                        .map_values(|name: String| name@).push(entries@[i as int].key@));
                }
            }
            i += 1;
        }
        proof {
            assert(sweep_plan_spec(entries@.skip(entries@.len() as int), now, threshold_seconds)
                =~= Seq::<Seq<char>>::empty());
            assert(doomed@.map_values(|name: String| name@) =~= sweep_plan_spec(
                entries@,
                now,
                threshold_seconds,
            ));
        }
        doomed
    }

    /// The regular sweep's plan: the quarantined files older than fifteen
    /// days at `now`.
    pub fn free_plan(&self, entries: &Vec<FileMeta>, now: u64) -> (doomed: Vec<String>)
        ensures
            doomed@.map_values(|name: String| name@) == sweep_plan_spec(
                entries@,
                now,
                FREE_RETENTION_SECONDS,
            ),
    {
        self.sweep_plan(entries, now, FREE_RETENTION_SECONDS)
    }

    /// The accelerated sweep's plan: every quarantined file when `all`
    /// holds, else those older than one day at `now`.
    pub fn force_free_plan(&self, entries: &Vec<FileMeta>, now: u64, all: bool) -> (doomed: Vec<
        String,
    >)
        ensures
            all ==> doomed@.map_values(|name: String| name@) == sweep_plan_spec(entries@, now, 0),
            !all ==> doomed@.map_values(|name: String| name@) == sweep_plan_spec(
                entries@,
                now,
                FORCE_FREE_RETENTION_SECONDS,
            ),
    {
        if all {
            self.sweep_plan(entries, now, 0)
        } else {
            self.sweep_plan(entries, now, FORCE_FREE_RETENTION_SECONDS)
        }
    }
}

} // verus!
