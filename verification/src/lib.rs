//! An in-process, multi-tiered object cache: values are routed by their
//! measured byte size into one of several independently capacity-bounded
//! tiers, each evicting its least-recently-used entries under pressure. A
//! key index maps every cached key to the tier holding it, statistics
//! aggregate per-tier occupancy, and an optional bounded broadcast channel
//! fans update notifications out to subscribers.

use vstd::prelude::*;

pub mod config;
pub mod entry;
pub mod index;
pub mod notify;
pub mod stats;
pub mod tier;
pub mod weight;

pub use config::CacheConfig;
pub use config::TierConfig;
pub use stats::CacheStats;
pub use stats::TierStats;
pub use weight::HeapSize;

use crate::config::spec_route;
use crate::config::capacity_sum;
use crate::config::lemma_capacity_sum_bounds;
use crate::config::lemma_capacity_take_step;
use crate::config::lemma_capacity_sum_split;
use crate::config::lemma_route_of_covered;
use crate::entry::CacheEntry;
use crate::index::index_view;
use crate::index::index_new;
use crate::index::index_insert;
use crate::index::index_get;
use crate::index::index_remove;
use crate::index::index_clear;
use crate::notify::notify_channel;
use crate::notify::notify_send;
use crate::notify::notify_subscribe;
use crate::stats::items_total;
use crate::stats::sizes_total;
use crate::stats::lemma_totals_take_step;
use crate::stats::lemma_totals_split;
use crate::stats::lemma_totals_nonneg;
use crate::stats::lemma_sizes_le_capacity_sum;
use crate::tier::Tier;
use crate::tier::has_key;
use crate::tier::value_view_at;
use crate::tier::key_at;
use crate::tier::size_at;
use crate::tier::without_key;
use crate::tier::lru_insert_shape;
use std::sync::Arc;

verus! {

/// Estimated bytes of cache budget per key-index slot, used to pre-size the
/// key index from the summed tier capacities.
pub const INDEX_SLOT_ESTIMATE: usize = 32;

/// A multi-tiered cache: an ordered list of capacity-bounded tiers, a key
/// index recording which tier holds each key, the immutable configuration,
/// and an optional update-notification publisher.
pub struct TieredCache<V> {
    tiers: Vec<Tier<V>>,
    key_to_tier: dashmap::DashMap<String, usize>,
    config: CacheConfig,
    update_tx: Option<tokio::sync::broadcast::Sender<String>>,
}

impl<V: HeapSize> TieredCache<V> {
    /// The contents of the key index, as a map from key views to tier
    /// indices.
    pub closed spec fn index(self) -> Map<Seq<char>, usize> {
        index_view(self.key_to_tier)
    }

    /// The tier list, for specifications.
    pub closed spec fn tiers_view(self) -> Seq<Tier<V>> {
        self.tiers@
    }

    /// The configuration, for specifications.
    pub closed spec fn config_view(self) -> CacheConfig {
        self.config
    }

    /// Whether notifications were configured at construction.
    pub closed spec fn notifications_enabled(self) -> bool {
        self.update_tx is Some
    }

    /// The cache invariant: the configuration is well formed, the tier list
    /// mirrors it (same length, each tier well formed with the configured
    /// capacity and range), and the key index points only at existing tiers.
    pub closed spec fn wf(self) -> bool {
        &&& self.config.wf()
        &&& self.tiers@.len() == self.config.tiers@.len()
        &&& forall|t: int|
            0 <= t < self.tiers@.len() ==> {
                &&& (#[trigger] self.tiers@[t]).wf()
                &&& self.tiers@[t].capacity == self.config.tiers@[t].total_capacity
                &&& self.tiers@[t].min_size == self.config.tiers@[t].min_size()
                &&& self.tiers@[t].max_size == self.config.tiers@[t].max_size()
            }
        &&& forall|k: Seq<char>|
            self.index().dom().contains(k) ==> 0 <= #[trigger] self.index()[k]
                < self.tiers@.len()
    }

    /// What a lookup of `k` observes: the value stored for `k` in the tier
    /// the key index points at, if the index knows the key and that tier
    /// holds it.
    pub closed spec fn lookup(self, k: Seq<char>) -> Option<V::V> {
        if self.index().dom().contains(k) {
            let t = self.index()[k];
            if has_key(self.tiers@[t as int].entries@, k) {
                Some(value_view_at(self.tiers@[t as int].entries@, k))
            } else {
                None
            }
        } else {
            None
        }
    }

    /// Creates a cache with one empty tier per configured tier, an empty key
    /// index pre-sized from the summed capacities, and, when a notification
    /// queue depth is configured, a bounded update publisher.
    pub fn new(config: CacheConfig) -> (c: TieredCache<V>)
        requires
            config.wf(),
            config.update_channel_size matches Some(depth) ==> 1 <= depth <= usize::MAX / 2,
        ensures
            c.wf(),
            c.config_view() == config,
            c.index() == crate::index::empty_index(),
            c.tiers_view().len() == config.tiers@.len(),
            forall|t: int|
                0 <= t < c.tiers_view().len() ==> (#[trigger] c.tiers_view()[t]).entries@.len()
                    == 0 && c.tiers_view()[t].used == 0,
            forall|k: Seq<char>| c.lookup(k) is None,
            c.notifications_enabled() == (config.update_channel_size is Some),
    {
        let n = config.tiers.len();
        let mut tiers: Vec<Tier<V>> = Vec::new();
        let mut total: usize = 0;
        let mut u: usize = 0;
        proof {
            assert(config.tiers@.take(0) =~= Seq::<TierConfig>::empty());
        }
        while u < n
            invariant
                0 <= u <= n,
                n == config.tiers@.len(),
                config.wf(),
                tiers@.len() == u,
                forall|m: int|
                    0 <= m < u ==> {
                        &&& (#[trigger] tiers@[m]).wf()
                        &&& tiers@[m].capacity == config.tiers@[m].total_capacity
                        &&& tiers@[m].min_size == config.tiers@[m].min_size()
                        &&& tiers@[m].max_size == config.tiers@[m].max_size()
                        &&& tiers@[m].entries@.len() == 0
                        &&& tiers@[m].used == 0
                    },
                total == capacity_sum(config.tiers@.take(u as int)),
            decreases n - u,
        {
            proof {
                lemma_capacity_take_step(config.tiers@, u as int);
                lemma_capacity_sum_split(config.tiers@, u + 1);
                lemma_capacity_sum_bounds(config.tiers@.skip(u + 1));
            }
            let cap = config.tiers[u].total_capacity;
            let range = config.tiers[u].size_range;
            tiers.push(Tier::new(cap, range));
            total = total + cap;
            u = u + 1;
        }
        let key_to_tier = index_new(total / INDEX_SLOT_ESTIMATE);
        let update_tx = match config.update_channel_size {
            Some(depth) => Some(notify_channel(depth)),
            None => None,
        };
        TieredCache { tiers, key_to_tier, config, update_tx }
    }

    /// The routing rule (see `spec_route`): tier 0 for anything below the
    /// first tier's upper bound, otherwise the tier whose range contains the
    /// size.
    fn find_tier_for_size(&self, size: usize) -> (r: Option<usize>)
        requires
            self.config.wf(),
        ensures
            (r is Some) == (spec_route(self.config.tiers@, size) is Some),
            r matches Some(t) ==> spec_route(self.config.tiers@, size) == Some(t as int) && t
                < self.config.tiers@.len(),
    {
        let n = self.config.tiers.len();
        // Fast path for the common case of small items.
        if n > 0 && size < self.config.tiers[0].size_range.1 {
            return Some(0);
        }
        let mut i: usize = 0;
        while i < n
            invariant
                0 <= i <= n,
                n == self.config.tiers@.len(),
                self.config.wf(),
                forall|m: int| 0 <= m < i ==> !(#[trigger] self.config.tiers@[m]).covers(size),
                !(n > 0 && size < self.config.tiers@[0].max_size()),
            decreases n - i,
        {
            if self.config.tiers[i].size_range.0 <= size && size < self.config.tiers[i].size_range.1
             {
                proof {
                    lemma_route_of_covered(self.config, size, i as int);
                }
                return Some(i);
            }
            i = i + 1;
        }
        None
    }

    /// Law (`put` followed by `get`): for a value whose measured size falls
    /// inside a configured tier's range, routing always succeeds and lands
    /// on exactly that tier. When the size also fits the tier's capacity,
    /// `put`'s contract is therefore in its cached branch, whose
    /// postcondition makes the key observable (`lookup` of the key is the
    /// value's view); `get` returns precisely `lookup`, so a `put` of such a
    /// value followed by a `get` of its key returns the value.
    pub proof fn lemma_covered_value_is_routed(c: TieredCache<V>, value: V, t: int)
        requires
            c.wf(),
            0 <= t < c.config_view().tiers@.len(),
            c.config_view().tiers@[t].covers(value.spec_heap_size()),
        ensures
            spec_route(c.config_view().tiers@, value.spec_heap_size()) == Some(t),
    {
        lemma_route_of_covered(c.config_view(), value.spec_heap_size(), t);
    }

    /// Measures the value, routes it by size, records the key in the key
    /// index, and inserts the entry into the owning tier, evicting that
    /// tier's least-recently-used entries as needed. A value no tier covers,
    /// or whose size exceeds its tier's whole capacity, is silently not
    /// cached, indistinguishable from "no previous value". Returns the value
    /// the key previously had in that same tier, if any.
    pub fn put(&mut self, key: String, value: V) -> (r: Option<V>)
        requires
            old(self).wf(),
        ensures
            final(self).wf(),
            final(self).config_view() == old(self).config_view(),
            final(self).notifications_enabled() == old(self).notifications_enabled(),
            ({
                let size = value.spec_heap_size();
                match spec_route(old(self).config_view().tiers@, size) {
                    None => *final(self) == *old(self) && r is None,
                    Some(t) => {
                        if size > old(self).config_view().tiers@[t].total_capacity {
                            *final(self) == *old(self) && r is None
                        } else {
                            &&& final(self).index() == old(self).index().insert(key@, t as usize)
                            &&& final(self).lookup(key@) == Some(value@)
                            &&& final(self).tiers_view().len() == old(self).tiers_view().len()
                            &&& (forall|u: int|
                                0 <= u < old(self).tiers_view().len() && u != t
                                    ==> final(self).tiers_view()[u] == old(self).tiers_view()[u])
                            &&& (r is Some) == has_key(
                                old(self).tiers_view()[t].entries@,
                                key@,
                            )
                            &&& (r matches Some(pv) ==> has_key(
                                old(self).tiers_view()[t].entries@,
                                key@,
                            ) && pv@ == value_view_at(old(self).tiers_view()[t].entries@, key@))
                            &&& lru_insert_shape(
                                old(self).tiers_view()[t].entries@,
                                key@,
                                (key, (CacheEntry { value, size })),
                                old(self).config_view().tiers@[t].total_capacity as int,
                                final(self).tiers_view()[t].entries@,
                            )
                        }
                    },
                }
            }),
    {
        let size = value.heap_size();
        let routed = self.find_tier_for_size(size);
        match routed {
            None => None,
            Some(t) => {
                let cap = self.tiers[t].capacity;
                if size > cap {
                    // Oversized for its whole tier: documented policy is to
                    // reject rather than hold an over-budget tier.
                    return None;
                }
                let entry = CacheEntry::new(value, size);
                let _ = index_insert(&mut self.key_to_tier, key.clone(), t);
                let prev = {
                    let tier_ref = &mut self.tiers[t];
                    tier_ref.put(key, entry)
                };
                proof {
                    let fidx = final(self).index();
                    let ntiers = final(self).tiers@.len() as int;
                    assert forall|k: Seq<char>|
                        fidx.dom().contains(k) implies 0 <= #[trigger] fidx[k] < ntiers by {
                        if k != key@ {
                            assert(old(self).index().dom().contains(k));
                        }
                    }
                }
                prev
            },
        }
    }

    /// Looks the key up in the key index and delegates to the owning tier,
    /// marking the entry most recently used; a key the index does not know
    /// is a miss, with no scanning of other tiers. Never changes what any
    /// lookup observes.
    pub fn get(&mut self, key: &String) -> (r: Option<Arc<V>>)
        requires
            old(self).wf(),
        ensures
            final(self).wf(),
            final(self).config_view() == old(self).config_view(),
            final(self).notifications_enabled() == old(self).notifications_enabled(),
            final(self).index() == old(self).index(),
            match r {
                Some(a) => old(self).lookup(key@) == Some(a@),
                None => old(self).lookup(key@) is None,
            },
            forall|k: Seq<char>| final(self).lookup(k) == old(self).lookup(k),
            final(self).tiers_view().len() == old(self).tiers_view().len(),
            forall|u: int|
                0 <= u < old(self).tiers_view().len() ==> ((#[trigger] final(self).tiers_view()[u]).used
                    == old(self).tiers_view()[u].used && final(self).tiers_view()[u].entries@.len()
                    == old(self).tiers_view()[u].entries@.len()),
            ({
                if old(self).index().dom().contains(key@) {
                    let t = old(self).index()[key@] as int;
                    let prior = old(self).tiers_view()[t].entries@;
                    &&& (forall|u: int|
                        0 <= u < old(self).tiers_view().len() && u != t
                            ==> final(self).tiers_view()[u] == old(self).tiers_view()[u])
                    &&& (has_key(prior, key@) ==> final(self).tiers_view()[t].entries@
                        == prior.remove(key_at(prior, key@)).push(prior[key_at(prior, key@)]))
                    &&& (!has_key(prior, key@) ==> final(self).tiers_view()[t].entries@ == prior)
                } else {
                    *final(self) == *old(self)
                }
            }),
    {
        let found = index_get(&self.key_to_tier, key);
        match found {
            None => None,
            Some(t) => {
                let r = {
                    let tier_ref = &mut self.tiers[t];
                    tier_ref.get(key)
                };
                proof {
                    assert forall|k: Seq<char>|
                        final(self).lookup(k) == old(self).lookup(k) by {
                        if old(self).index().dom().contains(k) {
                            let u = old(self).index()[k] as int;
                            if u != t {
                                assert(final(self).tiers@[u] == old(self).tiers@[u]);
                            }
                        }
                    }
                }
                r
            },
        }
    }

    /// Pops the key from the key index and delegates removal to the tier it
    /// pointed at, returning the prior value and refunding the entry's bytes
    /// to that tier; no other tier is affected. A key the index does not
    /// know leaves the cache untouched; afterwards a lookup of the key
    /// observes absence either way.
    pub fn remove(&mut self, key: &String) -> (r: Option<V>)
        requires
            old(self).wf(),
        ensures
            final(self).wf(),
            final(self).config_view() == old(self).config_view(),
            final(self).notifications_enabled() == old(self).notifications_enabled(),
            final(self).index() == old(self).index().remove(key@),
            final(self).lookup(key@) is None,
            (r is Some) == (old(self).lookup(key@) is Some),
            r matches Some(v) ==> old(self).lookup(key@) == Some(v@),
            forall|k: Seq<char>| k != key@ ==> final(self).lookup(k) == old(self).lookup(k),
            final(self).tiers_view().len() == old(self).tiers_view().len(),
            ({
                if old(self).index().dom().contains(key@) {
                    let t = old(self).index()[key@] as int;
                    let prior = old(self).tiers_view()[t].entries@;
                    &&& (forall|u: int|
                        0 <= u < old(self).tiers_view().len() && u != t
                            ==> final(self).tiers_view()[u] == old(self).tiers_view()[u])
                    &&& final(self).tiers_view()[t].entries@ == without_key(prior, key@)
                    &&& (has_key(prior, key@) ==> final(self).tiers_view()[t].used == old(
                        self,
                    ).tiers_view()[t].used - size_at(prior, key@))
                    &&& (!has_key(prior, key@) ==> final(self).tiers_view()[t] == old(
                        self,
                    ).tiers_view()[t])
                } else {
                    *final(self) == *old(self)
                }
            }),
    {
        let present = index_get(&self.key_to_tier, key);
        match present {
            None => {
                proof {
                    assert(old(self).index().remove(key@) =~= old(self).index());
                }
                None
            },
            Some(t) => {
                let _ = index_remove(&mut self.key_to_tier, key);
                let r = {
                    let tier_ref = &mut self.tiers[t];
                    tier_ref.remove(key)
                };
                proof {
                    assert forall|k: Seq<char>|
                        k != key@ implies final(self).lookup(k) == old(self).lookup(k) by {
                        if old(self).index().dom().contains(k) {
                            let u = old(self).index()[k] as int;
                            if u != t {
                                assert(final(self).tiers@[u] == old(self).tiers@[u]);
                            }
                        }
                    }
                }
                r
            },
        }
    }

    /// Clears every tier, then the key index. Not atomic across tiers; a
    /// lookup of any key afterwards observes absence.
    pub fn clear(&mut self)
        requires
            old(self).wf(),
        ensures
            final(self).wf(),
            final(self).config_view() == old(self).config_view(),
            final(self).notifications_enabled() == old(self).notifications_enabled(),
            final(self).index() == crate::index::empty_index(),
            final(self).tiers_view().len() == old(self).tiers_view().len(),
            forall|t: int|
                0 <= t < final(self).tiers_view().len()
                    ==> ((#[trigger] final(self).tiers_view()[t]).entries@.len() == 0
                    && final(self).tiers_view()[t].used == 0),
            forall|k: Seq<char>| final(self).lookup(k) is None,
    {
        let n = self.tiers.len();
        let mut u: usize = 0;
        while u < n
            invariant
                0 <= u <= n,
                n == self.tiers@.len(),
                self.tiers@.len() == old(self).tiers@.len(),
                self.config == old(self).config,
                self.key_to_tier == old(self).key_to_tier,
                self.update_tx == old(self).update_tx,
                old(self).wf(),
                forall|m: int|
                    0 <= m < u ==> {
                        &&& (#[trigger] self.tiers@[m]).wf()
                        &&& self.tiers@[m].capacity == old(self).tiers@[m].capacity
                        &&& self.tiers@[m].min_size == old(self).tiers@[m].min_size
                        &&& self.tiers@[m].max_size == old(self).tiers@[m].max_size
                        &&& self.tiers@[m].entries@.len() == 0
                        &&& self.tiers@[m].used == 0
                    },
                forall|m: int|
                    u <= m < n ==> #[trigger] self.tiers@[m] == old(self).tiers@[m],
            decreases n - u,
        {
            let tier_ref = &mut self.tiers[u];
            tier_ref.clear();
            u = u + 1;
        }
        index_clear(&mut self.key_to_tier);
    }

    /// Aggregates every tier's `{items, size}` into per-tier snapshots and
    /// cache-wide totals; purely a read. The item total fitting the machine
    /// word is a machine limit: every counted entry is a live allocation.
    pub fn stats(&self) -> (r: CacheStats)
        requires
            self.wf(),
            items_total(self.tiers_view()) <= usize::MAX,
        ensures
            r.tier_stats@.len() == self.tiers_view().len(),
            forall|t: int|
                0 <= t < self.tiers_view().len() ==> (#[trigger] r.tier_stats@[t]).items == self
                    .tiers_view()[t].entries@.len() && r.tier_stats@[t].size == self.tiers_view(
                )[t].used,
            r.total_items == items_total(self.tiers_view()),
            r.total_size == sizes_total(self.tiers_view()),
    {
        let n = self.tiers.len();
        let mut tier_stats: Vec<TierStats> = Vec::new();
        let mut total_items: usize = 0;
        let mut total_size: usize = 0;
        let mut u: usize = 0;
        proof {
            assert(self.tiers@.take(0) =~= Seq::<Tier<V>>::empty());
        }
        while u < n
            invariant
                0 <= u <= n,
                n == self.tiers@.len(),
                self.wf(),
                items_total(self.tiers@) <= usize::MAX,
                tier_stats@.len() == u,
                forall|t: int|
                    0 <= t < u ==> (#[trigger] tier_stats@[t]).items == self.tiers@[t].entries@.len()
                        && tier_stats@[t].size == self.tiers@[t].used,
                total_items == items_total(self.tiers@.take(u as int)),
                total_size == sizes_total(self.tiers@.take(u as int)),
            decreases n - u,
        {
            proof {
                lemma_totals_take_step(self.tiers@, u as int);
                lemma_totals_split(self.tiers@, u + 1);
                lemma_totals_nonneg(self.tiers@.skip(u + 1));
                lemma_sizes_le_capacity_sum(self.tiers@, self.config.tiers@);
                lemma_capacity_sum_bounds(self.config.tiers@);
            }
            let items = self.tiers[u].entries.len();
            let size = self.tiers[u].used;
            tier_stats.push(TierStats { items, size });
            total_items = total_items + items;
            total_size = total_size + size;
            u = u + 1;
        }
        proof {
            assert(self.tiers@.take(n as int) =~= self.tiers@);
        }
        CacheStats { tier_stats, total_items, total_size }
    }

    /// Creates a new notification receiver when notifications are enabled;
    /// the receiver only observes notifications published after this call.
    pub fn subscribe_updates(&self) -> (r: Option<tokio::sync::broadcast::Receiver<String>>)
        ensures
            (r is Some) == self.notifications_enabled(),
    {
        match &self.update_tx {
            Some(tx) => Some(notify_subscribe(tx)),
            None => None,
        }
    }

    /// Publishes the key on the notification channel, when one is
    /// configured. Publishing never blocks; a lagging subscriber loses old
    /// notifications instead.
    fn notify_update(&self, key: String) {
        match &self.update_tx {
            Some(tx) => {
                let _ = notify_send(tx, key);
            },
            None => {},
        }
    }

    /// The caching step of the read-through path, applied to what the
    /// caller's computation produced: a produced value is stored under the
    /// key (by the same routing and eviction rules as `put`), a notification
    /// is published for the key, and the value is returned behind a shared
    /// handle; an absent result caches nothing and reports absence.
    pub fn update_value(&mut self, key: String, computed: Option<V>) -> (r: Option<Arc<V>>)
        requires
            old(self).wf(),
        ensures
            final(self).wf(),
            final(self).config_view() == old(self).config_view(),
            final(self).notifications_enabled() == old(self).notifications_enabled(),
            computed is None ==> *final(self) == *old(self) && r is None,
            computed matches Some(v) ==> r matches Some(a) && a@ == v@,
            ({
                match computed {
                    None => true,
                    Some(v) => {
                        let size = v.spec_heap_size();
                        match spec_route(old(self).config_view().tiers@, size) {
                            None => *final(self) == *old(self),
                            Some(t) => {
                                if size > old(self).config_view().tiers@[t].total_capacity {
                                    *final(self) == *old(self)
                                } else {
                                    &&& final(self).lookup(key@) == Some(v@)
                                    &&& final(self).index() == old(self).index().insert(
                                        key@,
                                        t as usize,
                                    )
                                    &&& final(self).tiers_view().len() == old(
                                        self,
                                    ).tiers_view().len()
                                    &&& (forall|u: int|
                                        0 <= u < old(self).tiers_view().len() && u != t
                                            ==> final(self).tiers_view()[u] == old(
                                            self,
                                        ).tiers_view()[u])
                                    &&& (exists|e: CacheEntry<V>|
                                        {
                                            &&& e.value@ == v@
                                            &&& e.size == size
                                            &&& #[trigger] lru_insert_shape(
                                                old(self).tiers_view()[t].entries@,
                                                key@,
                                                (key, e),
                                                old(
                                                    self,
                                                ).config_view().tiers@[t].total_capacity as int,
                                                final(self).tiers_view()[t].entries@,
                                            )
                                        })
                                }
                            },
                        }
                    },
                }
            }),
    {
        match computed {
            None => None,
            Some(v) => {
                let stored = v.duplicate();
                let kc = key.clone();
                let _ = self.put(kc, stored);
                proof {
                    let size = v.spec_heap_size();
                    match spec_route(old(self).config_view().tiers@, size) {
                        Some(t) => {
                            if size <= old(self).config_view().tiers@[t].total_capacity {
                                let e = CacheEntry { value: stored, size: size };
                                assert(kc == key);
                                assert(lru_insert_shape(
                                    old(self).tiers_view()[t].entries@,
                                    key@,
                                    (key, e),
                                    old(self).config_view().tiers@[t].total_capacity as int,
                                    self.tiers@[t].entries@,
                                ));
                            }
                        },
                        None => {},
                    }
                }
                self.notify_update(key);
                Some(Arc::new(v))
            },
        }
    }
}

} // verus!
