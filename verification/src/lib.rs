//! Core of a multi-tier storage backend: a policy engine that admits packages
//! and picks a storage tier, a manager that routes operations to named
//! storage providers, and the soft-delete / garbage-collection rules of the
//! file-backed provider.

use vstd::prelude::*;

pub mod filestorage;
pub mod memstorage;
pub mod package;
pub mod policy;
pub mod reclaim;
pub mod storage_manager;

verus! {

/// Successful result of a storage provider `get` call.
#[derive(Debug)]
pub struct GetData {
    /// Key of the entry.
    pub key: String,
    /// Byte size of the entry.
    pub size: usize,
    /// Raw data of the entry.
    pub data: Vec<u8>,
}

/// Successful result of a storage provider `save` call.
#[derive(Debug)]
pub struct SaveData {
    /// Key of the saved entry.
    pub key: String,
    /// Byte size of the entry.
    pub size: usize,
}

/// What a provider `get` may return, given the provider's live entries:
/// success exactly when the key is live, and then the stored bytes with
/// their length.
pub open spec fn get_obligation(
    active: Map<Seq<char>, Seq<u8>>,
    key: Seq<char>,
    r: Result<GetData, String>,
) -> bool {
    match r {
        Ok(d) => active.contains_key(key) && d.key@ == key && d.data@ == active[key] && d.size
            == active[key].len(),
        Err(_) => !active.contains_key(key),
    }
}

/// How a provider `save` may change the two stores: on success the live
/// entries gain exactly `raw` under `key`; on failure no other key is
/// touched. The quarantine is never touched by a save.
pub open spec fn save_obligation(
    pre_active: Map<Seq<char>, Seq<u8>>,
    pre_quarantine: Map<Seq<char>, Seq<u8>>,
    post_active: Map<Seq<char>, Seq<u8>>,
    post_quarantine: Map<Seq<char>, Seq<u8>>,
    key: Seq<char>,
    raw: Seq<u8>,
    r: Result<SaveData, String>,
) -> bool {
    post_quarantine == pre_quarantine && match r {
        Ok(d) => post_active == pre_active.insert(key, raw) && d.key@ == key && d.size == raw.len(),
        Err(_) => post_active.remove(key) == pre_active.remove(key),
    }
}

/// How a provider `delete` (a soft delete) may change the two stores: the
/// key leaves the live entries, and if it was live its bytes now sit in the
/// quarantine under the same key. Deleting an absent key changes nothing.
pub open spec fn delete_obligation(
    pre_active: Map<Seq<char>, Seq<u8>>,
    pre_quarantine: Map<Seq<char>, Seq<u8>>,
    post_active: Map<Seq<char>, Seq<u8>>,
    post_quarantine: Map<Seq<char>, Seq<u8>>,
    key: Seq<char>,
) -> bool {
    post_active == pre_active.remove(key) && if pre_active.contains_key(key) {
        post_quarantine == pre_quarantine.insert(key, pre_active[key])
    } else {
        post_quarantine == pre_quarantine
    }
}

/// How a reclamation sweep may change the two stores: live entries stay as
/// they are, and the quarantine can only lose entries, never gain or change
/// one.
pub open spec fn sweep_obligation(
    pre_active: Map<Seq<char>, Seq<u8>>,
    pre_quarantine: Map<Seq<char>, Seq<u8>>,
    post_active: Map<Seq<char>, Seq<u8>>,
    post_quarantine: Map<Seq<char>, Seq<u8>>,
) -> bool {
    post_active == pre_active && post_quarantine.submap_of(pre_quarantine)
}

/// What a value must offer to act as a storage backend.
///
/// A provider owns two stores keyed by opaque strings: the live entries
/// (`active`) and the soft-deleted entries pending reclamation
/// (`quarantine`).
pub trait StorageProvider: Sized {
    /// The provider's internal well-formedness. A provider that states
    /// none has nothing to maintain.
    open spec fn inv(&self) -> bool {
        true
    }

    /// The live entries: key to stored bytes. A provider outside the
    /// verified world leaves its stores unspecified.
    open spec fn active(&self) -> Map<Seq<char>, Seq<u8>> {
        arbitrary()
    }

    /// The soft-deleted entries pending reclamation: key to stored bytes.
    open spec fn quarantine(&self) -> Map<Seq<char>, Seq<u8>> {
        arbitrary()
    }

    /// Get the live entry stored under `key`.
    fn get(&self, key: &str) -> (r: Result<GetData, String>)
        requires
            self.inv(),
        ensures
            get_obligation(self.active(), key@, r),
    ;

    /// Create or overwrite the live entry `key` with exactly `raw`.
    fn save(&mut self, key: &str, raw: Vec<u8>) -> (r: Result<SaveData, String>)
        requires
            old(self).inv(),
        ensures
            final(self).inv(),
            save_obligation(
                old(self).active(),
                old(self).quarantine(),
                final(self).active(),
                final(self).quarantine(),
                key@,
                raw@,
                r,
            ),
    ;

    /// Soft-delete the live entry `key`: move it into the quarantine.
    /// Best-effort: deleting an absent key is a visible no-op.
    fn delete(&mut self, key: &str)
        requires
            old(self).inv(),
        ensures
            final(self).inv(),
            delete_obligation(
                old(self).active(),
                old(self).quarantine(),
                final(self).active(),
                final(self).quarantine(),
                key@,
            ),
    ;

    /// Reclaim quarantined entries past the provider's regular retention
    /// window.
    fn free(&mut self)
        requires
            old(self).inv(),
        ensures
            final(self).inv(),
            sweep_obligation(
                old(self).active(),
                old(self).quarantine(),
                final(self).active(),
                final(self).quarantine(),
            ),
    ;

    /// Reclaim quarantined entries eagerly: all of them when `all` holds,
    /// otherwise those past the provider's accelerated retention window.
    fn force_free(&mut self, all: bool)
        requires
            old(self).inv(),
        ensures
            final(self).inv(),
            sweep_obligation(
                old(self).active(),
                old(self).quarantine(),
                final(self).active(),
                final(self).quarantine(),
            ),
            all ==> final(self).quarantine() == Map::<Seq<char>, Seq<u8>>::empty(),
    ;
}

/// Round trip: a successful save of `raw` under `key`, followed by a get of
/// `key`, yields exactly `raw`, with the reported size its length.
pub proof fn lemma_save_then_get(
    pre_active: Map<Seq<char>, Seq<u8>>,
    pre_quarantine: Map<Seq<char>, Seq<u8>>,
    mid_active: Map<Seq<char>, Seq<u8>>,
    mid_quarantine: Map<Seq<char>, Seq<u8>>,
    key: Seq<char>,
    raw: Seq<u8>,
    d: SaveData,
    r: Result<GetData, String>,
)
    requires
        save_obligation(pre_active, pre_quarantine, mid_active, mid_quarantine, key, raw, Ok(d)),
        get_obligation(mid_active, key, r),
    ensures
        r matches Ok(g) && g.data@ == raw && g.size == raw.len() && g.key@ == key,
{
}

/// Soft delete: after a delete of a live `key`, a get of `key` fails, and
/// the quarantine holds the former bytes under `key`. (A key that was not
/// live is the one exception: deleting it leaves the quarantine as it was.)
pub proof fn lemma_delete_then_get(
    pre_active: Map<Seq<char>, Seq<u8>>,
    pre_quarantine: Map<Seq<char>, Seq<u8>>,
    mid_active: Map<Seq<char>, Seq<u8>>,
    mid_quarantine: Map<Seq<char>, Seq<u8>>,
    key: Seq<char>,
    r: Result<GetData, String>,
)
    requires
        pre_active.contains_key(key),
        delete_obligation(pre_active, pre_quarantine, mid_active, mid_quarantine, key),
        get_obligation(mid_active, key, r),
    ensures
        r matches Err(_),
        mid_quarantine.contains_key(key),
        mid_quarantine[key] == pre_active[key],
{
}

} // verus!
