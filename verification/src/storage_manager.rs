//! The storage-layer router: a registry of named storage providers.
//!
//! Every registered tier ("layer") is one provider instance, owned by the
//! manager. Operations name a layer and are dispatched to its provider;
//! broadcast operations reach every registered provider in registration
//! order, which is also the order in which `find` searches.

use vstd::prelude::*;
use vstd::string::*;

use crate::{
    delete_obligation, get_obligation, save_obligation, sweep_obligation, GetData, SaveData,
    StorageProvider,
};

verus! {

/// One registered tier: its layer key and the provider behind it.
pub struct LayerEntry<P> {
    /// The layer key under which the provider was registered.
    pub key: String,
    /// The provider serving this tier.
    pub provider: P,
}

/// Whether some entry of `s` is registered under `layer_key`.
pub open spec fn seq_has_layer<P>(s: Seq<LayerEntry<P>>, layer_key: Seq<char>) -> bool {
    exists|i: int| 0 <= i < s.len() && s[i].key@ == layer_key
}

/// The index of an entry registered under `layer_key`; meaningful only when
/// one exists, and then unique under `distinct_layer_keys`.
pub open spec fn seq_layer_index<P>(s: Seq<LayerEntry<P>>, layer_key: Seq<char>) -> int {
    choose|i: int| 0 <= i < s.len() && s[i].key@ == layer_key
}

/// Whether the layer keys of `s` are pairwise distinct.
pub open spec fn distinct_layer_keys<P>(s: Seq<LayerEntry<P>>) -> bool {
    forall|i: int, j: int| 0 <= i < j < s.len() ==> s[i].key@ != s[j].key@
}

/// Under distinct keys, the layer key of the entry at `i` is found at `i`
/// and nowhere else.
proof fn lemma_layer_index<P>(s: Seq<LayerEntry<P>>, i: int)
    requires
        distinct_layer_keys(s),
        0 <= i < s.len(),
    ensures
        seq_has_layer(s, s[i].key@),
        seq_layer_index(s, s[i].key@) == i,
{
    assert(seq_has_layer(s, s[i].key@));
    let j = seq_layer_index(s, s[i].key@);
    assert(0 <= j < s.len() && s[j].key@ == s[i].key@);
    if i < j {
        assert(s[i].key@ != s[j].key@);
    } else if j < i {
        assert(s[j].key@ != s[i].key@);
    }
}

/// Find the index of the entry registered under `layer_key`, if any.
fn find_layer<P>(entries: &Vec<LayerEntry<P>>, layer_key: &str) -> (found: Option<usize>)
    ensures
        match found {
            Some(i) => i < entries@.len() && entries@[i as int].key@ == layer_key@,
            None => !seq_has_layer(entries@, layer_key@),
        },
{
    let key_string: String = layer_key.to_owned();
    let mut i: usize = 0;
    while i < entries.len()
        invariant
            i <= entries@.len(),
            key_string@ == layer_key@,
            forall|j: int| 0 <= j < i ==> entries@[j].key@ != layer_key@,
        decreases entries@.len() - i,
    {
        if entries[i].key == key_string {
            return Some(i);
        }
        i += 1;
    }
    None
}

/// The storage manager: owns one provider per registered layer and routes
/// operations to them.
pub struct StorageManager<P: StorageProvider> {
    storage_providers: Vec<LayerEntry<P>>,
}

impl<P: StorageProvider> StorageManager<P> {
    /// The registered tiers, in registration order.
    pub closed spec fn providers(&self) -> Seq<LayerEntry<P>> {
        self.storage_providers@
    }

    /// Whether a tier named `layer_key` is registered.
    pub open spec fn has_layer(&self, layer_key: Seq<char>) -> bool {
        seq_has_layer(self.providers(), layer_key)
    }

    /// The position of the tier named `layer_key`; unique under `wf`.
    pub open spec fn layer_index(&self, layer_key: Seq<char>) -> int {
        seq_layer_index(self.providers(), layer_key)
    }

    /// The provider registered under `layer_key`.
    pub open spec fn provider_of(&self, layer_key: Seq<char>) -> P {
        self.providers()[self.layer_index(layer_key)].provider
    }

    /// Whether some registered provider holds a live entry named `key`.
    pub open spec fn found_in_some_layer(&self, key: Seq<char>) -> bool {
        exists|i: int|
            0 <= i < self.providers().len() && #[trigger] self.providers()[i].provider.active().contains_key(
                key,
            )
    }

    /// Well-formedness: pairwise distinct layer keys, every provider
    /// internally well-formed.
    pub open spec fn wf(&self) -> bool {
        distinct_layer_keys(self.providers()) && (forall|i: int|
            0 <= i < self.providers().len() ==> #[trigger] self.providers()[i].provider.inv())
    }

    /// How a save to the registered layer `layer_key` relates the manager
    /// before (`pre`) and after (`post`) the call: only that layer's
    /// provider changes, and it changes as a provider save does.
    pub open spec fn saved_at(
        pre: Self,
        post: Self,
        layer_key: Seq<char>,
        key: Seq<char>,
        raw: Seq<u8>,
        r: Result<SaveData, String>,
    ) -> bool {
        let i = pre.layer_index(layer_key);
        &&& post.providers().len() == pre.providers().len()
        &&& forall|j: int|
            0 <= j < pre.providers().len() && j != i ==> post.providers()[j] == pre.providers()[j]
        &&& post.providers()[i].key == pre.providers()[i].key
        &&& save_obligation(
            pre.providers()[i].provider.active(),
            pre.providers()[i].provider.quarantine(),
            post.providers()[i].provider.active(),
            post.providers()[i].provider.quarantine(),
            key,
            raw,
            r,
        )
    }

    /// How a delete on the registered layer `layer_key` relates the manager
    /// before and after the call.
    pub open spec fn deleted_at(
        pre: Self,
        post: Self,
        layer_key: Seq<char>,
        key: Seq<char>,
    ) -> bool {
        let i = pre.layer_index(layer_key);
        &&& post.providers().len() == pre.providers().len()
        &&& forall|j: int|
            0 <= j < pre.providers().len() && j != i ==> post.providers()[j] == pre.providers()[j]
        &&& post.providers()[i].key == pre.providers()[i].key
        &&& delete_obligation(
            pre.providers()[i].provider.active(),
            pre.providers()[i].provider.quarantine(),
            post.providers()[i].provider.active(),
            post.providers()[i].provider.quarantine(),
            key,
        )
    }

    /// An empty manager: no layer is registered.
    pub fn new() -> (manager: Self)
        ensures
            manager.wf(),
            manager.providers() == Seq::<LayerEntry<P>>::empty(),
    {
        Self { storage_providers: Vec::new() }
    }

    /// Register `provider` under `layer_key`, taking ownership; an existing
    /// registration under the same key is overwritten in place.
    pub fn add_storage_provider(&mut self, layer_key: String, provider: P)
        requires
            old(self).wf(),
            provider.inv(),
        ensures
            final(self).wf(),
            old(self).has_layer(layer_key@) ==> final(self).providers() == old(self).providers().update(
                old(self).layer_index(layer_key@),
                (LayerEntry { key: layer_key, provider }),
            ),
            !old(self).has_layer(layer_key@) ==> final(self).providers() == old(self).providers().push((LayerEntry { key: layer_key, provider })),
    {
        let found = find_layer(&self.storage_providers, layer_key.as_str());
        match found {
            Some(i) => {
                proof {
                    lemma_layer_index(self.providers(), i as int);
                }
                let ghost pre = self.storage_providers@;
                self.storage_providers.set(i, LayerEntry { key: layer_key, provider });
                proof {
                    assert forall|a: int, b: int|
                        0 <= a < b < self.storage_providers@.len() implies self.storage_providers@[a].key@
                        != self.storage_providers@[b].key@ by {
                        assert(self.storage_providers@[a].key@ == pre[a].key@);
                        assert(self.storage_providers@[b].key@ == pre[b].key@);
                    }
                }
            },
            None => {
                self.storage_providers.push(LayerEntry { key: layer_key, provider });
            },
        }
    }

    /// Drop the registration under `layer_key`, if there is one; the
    /// provider behind it is discarded.
    pub fn remove_storage_provider(&mut self, layer_key: &str)
        requires
            old(self).wf(),
        ensures
            final(self).wf(),
            old(self).has_layer(layer_key@) ==> final(self).providers() == old(self).providers().remove(old(self).layer_index(layer_key@)),
            !old(self).has_layer(layer_key@) ==> final(self).providers() == old(self).providers(),
    {
        let found = find_layer(&self.storage_providers, layer_key);
        match found {
            Some(i) => {
                proof {
                    lemma_layer_index(self.providers(), i as int);
                }
                let ghost pre = self.storage_providers@;
                self.storage_providers.remove(i);
                proof {
                    assert forall|a: int, b: int|
                        0 <= a < b < self.storage_providers@.len() implies self.storage_providers@[a].key@
                        != self.storage_providers@[b].key@ by {
                        let a0 = if a < i { a } else { a + 1 };
                        let b0 = if b < i { b } else { b + 1 };
                        assert(self.storage_providers@[a] == pre[a0]);
                        assert(self.storage_providers@[b] == pre[b0]);
                    }
                }
            },
            None => {},
        }
    }

    /// All registered layer keys, in registration order.
    pub fn get_storage_provider_layers(&self) -> (layers: Vec<String>)
        ensures
            layers@.len() == self.providers().len(),
            forall|i: int| 0 <= i < layers@.len() ==> layers@[i]@ == self.providers()[i].key@,
    {
        let mut keys: Vec<String> = Vec::new();
        let mut i: usize = 0;
        while i < self.storage_providers.len()
            invariant
                i <= self.providers().len(),
                keys@.len() == i,
                forall|j: int| 0 <= j < i ==> keys@[j]@ == self.providers()[j].key@,
            decreases self.providers().len() - i,
        {
            keys.push(self.storage_providers[i].key.clone());
            i += 1;
        }
        keys
    }

    /// Get the entry stored under `key` in the layer `layer_key`. Fails when
    /// no such layer is registered, or when its provider fails.
    pub fn get(&self, layer_key: &str, key: &str) -> (r: Result<GetData, String>)
        requires
            self.wf(),
        ensures
            self.has_layer(layer_key@) ==> get_obligation(
                self.provider_of(layer_key@).active(),
                key@,
                r,
            ),
            !self.has_layer(layer_key@) ==> (r matches Err(m) && m@
                == "Storage provider layer not found for `get` action"@),
    {
        let found = find_layer(&self.storage_providers, layer_key);
        match found {
            Some(i) => {
                proof {
                    lemma_layer_index(self.providers(), i as int);
                }
                self.storage_providers[i].provider.get(key)
            },
            None => Err("Storage provider layer not found for `get` action".to_owned()),
        }
    }

    /// Find the entry stored under `key` in the first registered layer, in
    /// registration order, whose provider holds it.
    pub fn find(&self, key: &str) -> (r: Result<GetData, String>)
        requires
            self.wf(),
        ensures
            self.found_in_some_layer(key@) ==> exists|i: int|
                #![auto]
                0 <= i < self.providers().len()
                    && self.providers()[i].provider.active().contains_key(key@) && (forall|j: int|
                    0 <= j < i ==> !self.providers()[j].provider.active().contains_key(key@))
                    && get_obligation(self.providers()[i].provider.active(), key@, r),
            !self.found_in_some_layer(key@) ==> (r matches Err(m) && m@ == "Requested key: `"@
                + key@ + "` not found in any storage provider."@),
    {
        let mut i: usize = 0;
        while i < self.storage_providers.len()
            invariant
                self.wf(),
                i <= self.providers().len(),
                forall|j: int|
                    0 <= j < i ==> !#[trigger] self.providers()[j].provider.active().contains_key(
                        key@,
                    ),
            decreases self.providers().len() - i,
        {
            let attempt = self.storage_providers[i].provider.get(key);
            match attempt {
                Ok(result) => {
                    return Ok(result);
                },
                Err(_) => {},
            }
            i += 1;
        }
        let msg = String::from_str("Requested key: `").concat(key).concat(
            "` not found in any storage provider.",
        );
        Err(msg)
    }

    /// Save `raw` under `key` in the layer `layer_key`. Fails when no such
    /// layer is registered, or when its provider fails.
    pub fn save(&mut self, layer_key: &str, key: &str, raw: Vec<u8>) -> (r: Result<
        SaveData,
        String,
    >)
        requires
            old(self).wf(),
        ensures
            final(self).wf(),
            old(self).has_layer(layer_key@) ==> Self::saved_at(
                *old(self),
                *final(self),
                layer_key@,
                key@,
                raw@,
                r,
            ),
            !old(self).has_layer(layer_key@) ==> final(self).providers() == old(self).providers()
                && (r matches Err(m) && m@
                == "Storage provider layer not found for `save` action"@),
    {
        let found = find_layer(&self.storage_providers, layer_key);
        match found {
            Some(i) => {
                proof {
                    lemma_layer_index(self.providers(), i as int);
                }
                let ghost pre = self.storage_providers@;
                let entry = &mut self.storage_providers[i];
                let r = entry.provider.save(key, raw);
                proof {
                    assert forall|a: int, b: int|
                        0 <= a < b < self.storage_providers@.len() implies self.storage_providers@[a].key@
                        != self.storage_providers@[b].key@ by {
                        assert(self.storage_providers@[a].key@ == pre[a].key@);
                        assert(self.storage_providers@[b].key@ == pre[b].key@);
                    }
                }
                r
            },
            None => Err("Storage provider layer not found for `save` action".to_owned()),
        }
    }

    /// Soft-delete the entry under `key` in the layer `layer_key`. Unlike
    /// `get` and `save`, an unknown layer is silently ignored.
    pub fn delete(&mut self, layer_key: &str, key: &str)
        requires
            old(self).wf(),
        ensures
            final(self).wf(),
            old(self).has_layer(layer_key@) ==> Self::deleted_at(
                *old(self),
                *final(self),
                layer_key@,
                key@,
            ),
            !old(self).has_layer(layer_key@) ==> final(self).providers() == old(self).providers(),
    {
        let found = find_layer(&self.storage_providers, layer_key);
        match found {
            Some(i) => {
                proof {
                    lemma_layer_index(self.providers(), i as int);
                }
                let ghost pre = self.storage_providers@;
                let entry = &mut self.storage_providers[i];
                entry.provider.delete(key);
                proof {
                    assert forall|a: int, b: int|
                        0 <= a < b < self.storage_providers@.len() implies self.storage_providers@[a].key@
                        != self.storage_providers@[b].key@ by {
                        assert(self.storage_providers@[a].key@ == pre[a].key@);
                        assert(self.storage_providers@[b].key@ == pre[b].key@);
                    }
                }
            },
            None => {},
        }
    }

    /// Soft-delete the entry under `key` in every registered layer, whether
    /// or not the layer holds it.
    pub fn delete_all(&mut self, key: &str)
        requires
            old(self).wf(),
        ensures
            final(self).wf(),
            final(self).providers().len() == old(self).providers().len(),
            forall|i: int|
                0 <= i < old(self).providers().len() ==> #[trigger] final(self).providers()[i].key
                    == old(self).providers()[i].key && delete_obligation(
                    old(self).providers()[i].provider.active(),
                    old(self).providers()[i].provider.quarantine(),
                    final(self).providers()[i].provider.active(),
                    final(self).providers()[i].provider.quarantine(),
                    key@,
                ),
    {
        let mut i: usize = 0;
        while i < self.storage_providers.len()
            invariant
                i <= self.storage_providers@.len(),
                self.storage_providers@.len() == old(self).providers().len(),
                forall|j: int|
                    i <= j < old(self).providers().len() ==> self.storage_providers@[j] == old(self).providers()[j],
                forall|j: int|
                    0 <= j < i ==> #[trigger] self.storage_providers@[j].key == old(self).providers()[j].key && self.storage_providers@[j].provider.inv()
                        && delete_obligation(
                        old(self).providers()[j].provider.active(),
                        old(self).providers()[j].provider.quarantine(),
                        self.storage_providers@[j].provider.active(),
                        self.storage_providers@[j].provider.quarantine(),
                        key@,
                    ),
                distinct_layer_keys(old(self).providers()),
                forall|j: int|
                    0 <= j < old(self).providers().len() ==> #[trigger] old(self).providers()[j].provider.inv(),
            decreases self.storage_providers@.len() - i,
        {
            proof {
                assert(self.storage_providers@[i as int] == old(self).providers()[i as int]);
                assert(old(self).providers()[i as int].provider.inv());
            }
            let entry = &mut self.storage_providers[i];
            entry.provider.delete(key);
            proof {
                assert(self.storage_providers@[i as int].key == old(self).providers()[i as int].key);
                assert(self.storage_providers@[i as int].provider.inv());
                assert(delete_obligation(
                    old(self).providers()[i as int].provider.active(),
                    old(self).providers()[i as int].provider.quarantine(),
                    self.storage_providers@[i as int].provider.active(),
                    self.storage_providers@[i as int].provider.quarantine(),
                    key@,
                ));
            }
            i += 1;
        }
        proof {
            assert forall|a: int, b: int|
                0 <= a < b < self.storage_providers@.len() implies self.storage_providers@[a].key@
                != self.storage_providers@[b].key@ by {
                assert(self.storage_providers@[a].key == old(self).providers()[a].key);
                assert(self.storage_providers@[b].key == old(self).providers()[b].key);
            }
            assert forall|a: int|
                0 <= a < self.storage_providers@.len() implies self.storage_providers@[a].provider.inv() by {
                assert(self.storage_providers@[a].key == old(self).providers()[a].key);
            }
        }
    }

    /// Run the regular reclamation sweep on every registered layer.
    pub fn free(&mut self)
        requires
            old(self).wf(),
        ensures
            final(self).wf(),
            final(self).providers().len() == old(self).providers().len(),
            forall|i: int|
                0 <= i < old(self).providers().len() ==> #[trigger] final(self).providers()[i].key
                    == old(self).providers()[i].key && sweep_obligation(
                    old(self).providers()[i].provider.active(),
                    old(self).providers()[i].provider.quarantine(),
                    final(self).providers()[i].provider.active(),
                    final(self).providers()[i].provider.quarantine(),
                ),
    {
        let mut i: usize = 0;
        while i < self.storage_providers.len()
            invariant
                i <= self.storage_providers@.len(),
                self.storage_providers@.len() == old(self).providers().len(),
                forall|j: int|
                    i <= j < old(self).providers().len() ==> self.storage_providers@[j] == old(self).providers()[j],
                forall|j: int|
                    0 <= j < i ==> #[trigger] self.storage_providers@[j].key == old(self).providers()[j].key && self.storage_providers@[j].provider.inv()
                        && sweep_obligation(
                        old(self).providers()[j].provider.active(),
                        old(self).providers()[j].provider.quarantine(),
                        self.storage_providers@[j].provider.active(),
                        self.storage_providers@[j].provider.quarantine(),
                    ),
                distinct_layer_keys(old(self).providers()),
                forall|j: int|
                    0 <= j < old(self).providers().len() ==> #[trigger] old(self).providers()[j].provider.inv(),
            decreases self.storage_providers@.len() - i,
        {
            proof {
                assert(self.storage_providers@[i as int] == old(self).providers()[i as int]);
                assert(old(self).providers()[i as int].provider.inv());
            }
            let entry = &mut self.storage_providers[i];
            entry.provider.free();
            proof {
                assert(self.storage_providers@[i as int].key == old(self).providers()[i as int].key);
                assert(self.storage_providers@[i as int].provider.inv());
                assert(sweep_obligation(
                    old(self).providers()[i as int].provider.active(),
                    old(self).providers()[i as int].provider.quarantine(),
                    self.storage_providers@[i as int].provider.active(),
                    self.storage_providers@[i as int].provider.quarantine(),
                ));
            }
            i += 1;
        }
        proof {
            assert forall|a: int, b: int|
                0 <= a < b < self.storage_providers@.len() implies self.storage_providers@[a].key@
                != self.storage_providers@[b].key@ by {
                assert(self.storage_providers@[a].key == old(self).providers()[a].key);
                assert(self.storage_providers@[b].key == old(self).providers()[b].key);
            }
            assert forall|a: int|
                0 <= a < self.storage_providers@.len() implies self.storage_providers@[a].provider.inv() by {
                assert(self.storage_providers@[a].key == old(self).providers()[a].key);
            }
        }
    }

    /// Run the accelerated reclamation sweep on every registered layer: an
    /// unconditional one when `all` holds.
    pub fn force_free(&mut self, all: bool)
        requires
            old(self).wf(),
        ensures
            final(self).wf(),
            final(self).providers().len() == old(self).providers().len(),
            forall|i: int|
                0 <= i < old(self).providers().len() ==> #[trigger] final(self).providers()[i].key
                    == old(self).providers()[i].key && sweep_obligation(
                    old(self).providers()[i].provider.active(),
                    old(self).providers()[i].provider.quarantine(),
                    final(self).providers()[i].provider.active(),
                    final(self).providers()[i].provider.quarantine(),
                ),
            all ==> forall|i: int|
                0 <= i < final(self).providers().len() ==> #[trigger] final(self).providers()[i].provider.quarantine() == Map::<Seq<char>, Seq<u8>>::empty(),
    {
        let mut i: usize = 0;
        while i < self.storage_providers.len()
            invariant
                i <= self.storage_providers@.len(),
                self.storage_providers@.len() == old(self).providers().len(),
                forall|j: int|
                    i <= j < old(self).providers().len() ==> self.storage_providers@[j] == old(self).providers()[j],
                forall|j: int|
                    0 <= j < i ==> #[trigger] self.storage_providers@[j].key == old(self).providers()[j].key && self.storage_providers@[j].provider.inv()
                        && sweep_obligation(
                        old(self).providers()[j].provider.active(),
                        old(self).providers()[j].provider.quarantine(),
                        self.storage_providers@[j].provider.active(),
                        self.storage_providers@[j].provider.quarantine(),
                    ),
                all ==> forall|j: int|
                    0 <= j < i ==> #[trigger] self.storage_providers@[j].provider.quarantine()
                        == Map::<Seq<char>, Seq<u8>>::empty(),
                distinct_layer_keys(old(self).providers()),
                forall|j: int|
                    0 <= j < old(self).providers().len() ==> #[trigger] old(self).providers()[j].provider.inv(),
            decreases self.storage_providers@.len() - i,
        {
            proof {
                assert(self.storage_providers@[i as int] == old(self).providers()[i as int]);
                assert(old(self).providers()[i as int].provider.inv());
            }
            let ghost pre_iter = self.storage_providers@;
            let entry = &mut self.storage_providers[i];
            entry.provider.force_free(all);
            proof {
                assert(self.storage_providers@[i as int].key == old(self).providers()[i as int].key);
                assert(self.storage_providers@[i as int].provider.inv());
                assert(sweep_obligation(
                    old(self).providers()[i as int].provider.active(),
                    old(self).providers()[i as int].provider.quarantine(),
                    self.storage_providers@[i as int].provider.active(),
                    self.storage_providers@[i as int].provider.quarantine(),
                ));
                assert forall|j: int| 0 <= j < i as int implies #[trigger] self.storage_providers@[j].key
                    == old(self).providers()[j].key && self.storage_providers@[j].provider.inv()
                    && sweep_obligation(
                    old(self).providers()[j].provider.active(),
                    old(self).providers()[j].provider.quarantine(),
                    self.storage_providers@[j].provider.active(),
                    self.storage_providers@[j].provider.quarantine(),
                ) by {
                    assert(self.storage_providers@[j] == pre_iter[j]);
                    assert(pre_iter[j].key == old(self).providers()[j].key);
                }
            }
            i += 1;
        }
        proof {
            assert forall|a: int, b: int|
                0 <= a < b < self.storage_providers@.len() implies self.storage_providers@[a].key@
                != self.storage_providers@[b].key@ by {
                assert(self.storage_providers@[a].key == old(self).providers()[a].key);
                assert(self.storage_providers@[b].key == old(self).providers()[b].key);
            }
            assert forall|a: int|
                0 <= a < self.storage_providers@.len() implies self.storage_providers@[a].provider.inv() by {
                assert(self.storage_providers@[a].key == old(self).providers()[a].key);
            }
        }
    }
}

/// Round trip through the manager: after a successful save of `raw` under
/// `key` to the registered layer `layer_key`, a get of the same layer and
/// key returns exactly `raw`, with the reported size its length.
pub proof fn lemma_manager_save_then_get<P: StorageProvider>(
    pre: StorageManager<P>,
    mid: StorageManager<P>,
    layer_key: Seq<char>,
    key: Seq<char>,
    raw: Seq<u8>,
    d: SaveData,
    r: Result<GetData, String>,
)
    requires
        pre.wf(),
        pre.has_layer(layer_key),
        StorageManager::saved_at(pre, mid, layer_key, key, raw, Ok(d)),
        get_obligation(mid.provider_of(layer_key).active(), key, r),
    ensures
        r matches Ok(g) && g.data@ == raw && g.size == raw.len() && g.key@ == key,
{
    let i = pre.layer_index(layer_key);
    assert(0 <= i < pre.providers().len() && pre.providers()[i].key@ == layer_key);
    assert forall|a: int, b: int|
        0 <= a < b < mid.providers().len() implies mid.providers()[a].key@
        != mid.providers()[b].key@ by {
        if a != i {
            assert(mid.providers()[a] == pre.providers()[a]);
        }
        if b != i {
            assert(mid.providers()[b] == pre.providers()[b]);
        }
        assert(mid.providers()[i].key == pre.providers()[i].key);
    }
    assert(mid.providers()[i].key@ == layer_key);
    lemma_layer_index(mid.providers(), i);
    assert(mid.provider_of(layer_key).active() == pre.providers()[i].provider.active().insert(
        key,
        raw,
    ));
}

/// Soft delete through the manager: after a delete of a live `key` on the
/// registered layer `layer_key`, a get of that layer and key fails, and the
/// layer's quarantine holds the former bytes under `key`. (A key that was
/// not live is the one exception: deleting it leaves the quarantine as it
/// was.)
pub proof fn lemma_manager_delete_then_get<P: StorageProvider>(
    pre: StorageManager<P>,
    mid: StorageManager<P>,
    layer_key: Seq<char>,
    key: Seq<char>,
    r: Result<GetData, String>,
)
    requires
        pre.wf(),
        pre.has_layer(layer_key),
        pre.provider_of(layer_key).active().contains_key(key),
        StorageManager::deleted_at(pre, mid, layer_key, key),
        get_obligation(mid.provider_of(layer_key).active(), key, r),
    ensures
        r matches Err(_),
        mid.provider_of(layer_key).quarantine().contains_key(key),
        mid.provider_of(layer_key).quarantine()[key] == pre.provider_of(layer_key).active()[key],
{
    let i = pre.layer_index(layer_key);
    assert(0 <= i < pre.providers().len() && pre.providers()[i].key@ == layer_key);
    assert forall|a: int, b: int|
        0 <= a < b < mid.providers().len() implies mid.providers()[a].key@
        != mid.providers()[b].key@ by {
        if a != i {
            assert(mid.providers()[a] == pre.providers()[a]);
        }
        if b != i {
            assert(mid.providers()[b] == pre.providers()[b]);
        }
        assert(mid.providers()[i].key == pre.providers()[i].key);
    }
    assert(mid.providers()[i].key@ == layer_key);
    lemma_layer_index(mid.providers(), i);
    assert(mid.provider_of(layer_key).active() == pre.providers()[i].provider.active().remove(
        key,
    ));
}

} // verus!
