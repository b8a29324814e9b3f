//! A capacity-bounded store of keyed entries with least-recently-used
//! eviction. Entries are kept in recency order: the entry at index 0 is the
//! least recently accessed one, the last entry is the most recently accessed.
//! The running total of occupied bytes never exceeds the configured capacity
//! after a completed mutation.
//!
//! Policy for oversized entries: an entry whose own size exceeds the tier's
//! capacity is never inserted; `put` requires the entry to fit an empty tier,
//! and the cache treats an oversized value as unroutable (a silent no-op).

use vstd::prelude::*;

use crate::entry::CacheEntry;
use crate::weight::HeapSize;
use std::sync::Arc;

verus! {

/// Whether some entry of `s` bears the key `k`.
pub open spec fn has_key<V>(s: Seq<(String, CacheEntry<V>)>, k: Seq<char>) -> bool {
    exists|i: int| 0 <= i < s.len() && (#[trigger] s[i]).0@ == k
}

/// The index of the entry bearing key `k` (meaningful when `has_key` holds
/// and keys are distinct).
pub open spec fn key_at<V>(s: Seq<(String, CacheEntry<V>)>, k: Seq<char>) -> int {
    choose|i: int| 0 <= i < s.len() && (#[trigger] s[i]).0@ == k
}

/// The view of the value stored under key `k`.
pub open spec fn value_view_at<V: View>(s: Seq<(String, CacheEntry<V>)>, k: Seq<char>) -> V::V {
    s[key_at(s, k)].1.value@
}

/// The measured size of the entry stored under key `k`.
pub open spec fn size_at<V>(s: Seq<(String, CacheEntry<V>)>, k: Seq<char>) -> usize {
    s[key_at(s, k)].1.size
}

/// `s` with the entry bearing key `k` removed, when present.
pub open spec fn without_key<V>(s: Seq<(String, CacheEntry<V>)>, k: Seq<char>) -> Seq<
    (String, CacheEntry<V>),
> {
    if has_key(s, k) {
        s.remove(key_at(s, k))
    } else {
        s
    }
}

/// The exact shape of a least-recently-used insertion: starting from the
/// prior entries with any old entry for the key taken out (`without_key`),
/// the result keeps a suffix of them in recency order and appends the new
/// entry at the most-recently-used end; an older entry is dropped only when
/// the entries from it onward, together with the new entry, would still
/// overflow the capacity.
pub open spec fn lru_insert_shape<V>(
    prior: Seq<(String, CacheEntry<V>)>,
    k: Seq<char>,
    pushed: (String, CacheEntry<V>),
    cap: int,
    result: Seq<(String, CacheEntry<V>)>,
) -> bool {
    let mid = without_key(prior, k);
    exists|j: int|
        {
            &&& 0 <= j <= mid.len()
            &&& result == (#[trigger] mid.skip(j)).push(pushed)
            &&& (j > 0 ==> sum_sizes(mid.skip(j - 1)) + pushed.1.size > cap)
        }
}

/// No two entries of `s` bear the same key.
pub open spec fn keys_distinct<V>(s: Seq<(String, CacheEntry<V>)>) -> bool {
    forall|i: int, j: int|
        0 <= i < j < s.len() ==> (#[trigger] s[i]).0@ != (#[trigger] s[j]).0@
}

/// The total of the measured sizes of the entries of `s`, in bytes.
pub open spec fn sum_sizes<V>(s: Seq<(String, CacheEntry<V>)>) -> int
    decreases s.len(),
{
    if s.len() == 0 {
        0
    } else {
        s[0].1.size + sum_sizes(s.drop_first())
    }
}

/// A size total is never negative.
pub proof fn lemma_sum_nonneg<V>(s: Seq<(String, CacheEntry<V>)>)
    ensures
        sum_sizes(s) >= 0,
    decreases s.len(),
{
    if s.len() > 0 {
        lemma_sum_nonneg(s.drop_first());
    }
}

/// Splitting a suffix at its first element splits its size total.
pub proof fn lemma_sum_skip_step<V>(s: Seq<(String, CacheEntry<V>)>, j: int)
    requires
        0 <= j < s.len(),
    ensures
        sum_sizes(s.skip(j)) == s[j].1.size + sum_sizes(s.skip(j + 1)),
{
    assert(s.skip(j)[0] == s[j]);
    assert(s.skip(j).drop_first() =~= s.skip(j + 1));
}

/// Removing the entry at index `i` subtracts exactly its size from the total.
pub proof fn lemma_sum_remove<V>(s: Seq<(String, CacheEntry<V>)>, i: int)
    requires
        0 <= i < s.len(),
    ensures
        sum_sizes(s.remove(i)) == sum_sizes(s) - s[i].1.size,
    decreases s.len(),
{
    if i == 0 {
        assert(s.remove(0) =~= s.drop_first());
    } else {
        assert(s.remove(i)[0] == s[0]);
        assert(s.remove(i).drop_first() =~= s.drop_first().remove(i - 1));
        lemma_sum_remove(s.drop_first(), i - 1);
    }
}

/// Appending an entry adds exactly its size to the total.
pub proof fn lemma_sum_push<V>(s: Seq<(String, CacheEntry<V>)>, e: (String, CacheEntry<V>))
    ensures
        sum_sizes(s.push(e)) == sum_sizes(s) + e.1.size,
    decreases s.len(),
{
    let t = s.push(e);
    assert(t.len() == s.len() + 1);
    assert(sum_sizes(t) == t[0].1.size + sum_sizes(t.drop_first()));
    if s.len() == 0 {
        assert(t[0] == e);
        assert(t.drop_first() =~= Seq::<(String, CacheEntry<V>)>::empty());
        assert(sum_sizes(t.drop_first()) == 0);
    } else {
        assert(t[0] == s[0]);
        assert(t.drop_first() =~= s.drop_first().push(e));
        lemma_sum_push(s.drop_first(), e);
        assert(sum_sizes(t.drop_first()) == sum_sizes(s.drop_first()) + e.1.size);
        assert(sum_sizes(s) == s[0].1.size + sum_sizes(s.drop_first()));
    }
}

/// The size total splits at any index into the totals of the prefix and of
/// the suffix.
pub proof fn lemma_sum_split<V>(s: Seq<(String, CacheEntry<V>)>, j: int)
    requires
        0 <= j <= s.len(),
    ensures
        sum_sizes(s) == sum_sizes(s.take(j)) + sum_sizes(s.skip(j)),
    decreases j,
{
    if j == 0 {
        assert(s.take(0) =~= Seq::<(String, CacheEntry<V>)>::empty());
        assert(s.skip(0) =~= s);
    } else {
        assert(s.take(j)[0] == s[0]);
        assert(s.take(j).drop_first() =~= s.drop_first().take(j - 1));
        assert(s.skip(j) =~= s.drop_first().skip(j - 1));
        lemma_sum_split(s.drop_first(), j - 1);
    }
}

/// Law complement: without capacity pressure nothing is evicted. When the
/// entries surviving the replacement step fit the capacity together with the
/// new entry, an insertion of the least-recently-used shape keeps every one
/// of them: the result is exactly those entries with the new entry appended.
pub proof fn lemma_no_eviction_when_fits<V>(
    prior: Seq<(String, CacheEntry<V>)>,
    k: Seq<char>,
    pushed: (String, CacheEntry<V>),
    cap: int,
    result: Seq<(String, CacheEntry<V>)>,
)
    requires
        lru_insert_shape(prior, k, pushed, cap, result),
        sum_sizes(without_key(prior, k)) + pushed.1.size <= cap,
    ensures
        result == without_key(prior, k).push(pushed),
{
    let mid = without_key(prior, k);
    let j = choose|j: int|
        {
            &&& 0 <= j <= mid.len()
            &&& result == (#[trigger] mid.skip(j)).push(pushed)
            &&& (j > 0 ==> sum_sizes(mid.skip(j - 1)) + pushed.1.size > cap)
        };
    if j > 0 {
        lemma_sum_split(mid, j - 1);
        lemma_sum_nonneg(mid.take(j - 1));
        assert(sum_sizes(mid.skip(j - 1)) <= sum_sizes(mid));
        assert(false);
    }
    assert(mid.skip(0) =~= mid);
}

/// Under distinct keys the index of a present key is unique and `key_at`
/// denotes it.
pub proof fn lemma_key_at_unique<V>(s: Seq<(String, CacheEntry<V>)>, k: Seq<char>)
    requires
        keys_distinct(s),
        has_key(s, k),
    ensures
        0 <= key_at(s, k) < s.len(),
        s[key_at(s, k)].0@ == k,
        forall|m: int| 0 <= m < s.len() && (#[trigger] s[m]).0@ == k ==> m == key_at(s, k),
{
    let n = key_at(s, k);
    assert(0 <= n < s.len() && s[n].0@ == k);
    assert forall|m: int| 0 <= m < s.len() && (#[trigger] s[m]).0@ == k implies m == n by {
        if m < n {
            assert(s[m].0@ != s[n].0@);
        } else if n < m {
            assert(s[n].0@ != s[m].0@);
        }
    }
}

/// Dropping a prefix keeps keys distinct, and every key of the suffix was a
/// key of the whole.
pub proof fn lemma_skip_keys<V>(s: Seq<(String, CacheEntry<V>)>, j: int)
    requires
        keys_distinct(s),
        0 <= j <= s.len(),
    ensures
        keys_distinct(s.skip(j)),
        forall|k: Seq<char>| has_key(s.skip(j), k) ==> has_key(s, k),
{
    let t = s.skip(j);
    assert forall|a: int, b: int| 0 <= a < b < t.len() implies t[a].0@ != t[b].0@ by {
        assert(t[a] == s[j + a]);
        assert(t[b] == s[j + b]);
    }
    assert forall|k: Seq<char>| has_key(t, k) implies has_key(s, k) by {
        let m = choose|m: int| 0 <= m < t.len() && (#[trigger] t[m]).0@ == k;
        assert(s[j + m].0@ == k);
    }
}

/// Removing the entry at index `i` keeps keys distinct, removes `s[i]`'s key,
/// and leaves every other key with its value and size unchanged.
pub proof fn lemma_remove_at<V: View>(s: Seq<(String, CacheEntry<V>)>, i: int)
    requires
        keys_distinct(s),
        0 <= i < s.len(),
    ensures
        keys_distinct(s.remove(i)),
        !has_key(s.remove(i), s[i].0@),
        forall|k: Seq<char>| k != s[i].0@ ==> has_key(s.remove(i), k) == has_key(s, k),
        forall|k: Seq<char>|
            k != s[i].0@ && has_key(s, k) ==> value_view_at(s.remove(i), k) == value_view_at(s, k)
                && size_at(s.remove(i), k) == size_at(s, k),
{
    let t = s.remove(i);
    assert forall|m: int| 0 <= m < t.len() implies t[m] == (if m < i {
        s[m]
    } else {
        s[m + 1]
    }) by {
        s.remove_ensures(i);
    }
    assert forall|a: int, b: int| 0 <= a < b < t.len() implies t[a].0@ != t[b].0@ by {}
    assert forall|m: int| 0 <= m < t.len() implies t[m].0@ != s[i].0@ by {
        if m < i {
            assert(s[m].0@ != s[i].0@);
        } else {
            assert(s[i].0@ != s[m + 1].0@);
        }
    }
    assert(!has_key(t, s[i].0@));
    assert forall|k: Seq<char>| k != s[i].0@ implies has_key(t, k) == has_key(s, k) by {
        if has_key(t, k) {
            let m = choose|m: int| 0 <= m < t.len() && (#[trigger] t[m]).0@ == k;
            if m < i {
                assert(s[m].0@ == k);
            } else {
                assert(s[m + 1].0@ == k);
            }
            assert(has_key(s, k));
        }
        if has_key(s, k) {
            let n = choose|n: int| 0 <= n < s.len() && (#[trigger] s[n]).0@ == k;
            if n < i {
                assert(t[n].0@ == k);
            } else {
                assert(n > i);
                assert(t[n - 1].0@ == k);
            }
            assert(has_key(t, k));
        }
    }
    assert forall|k: Seq<char>| k != s[i].0@ && has_key(s, k) implies value_view_at(t, k)
        == value_view_at(s, k) && size_at(t, k) == size_at(s, k) by {
        lemma_key_at_unique(s, k);
        lemma_key_at_unique(t, k);
        let n = key_at(s, k);
        let m = key_at(t, k);
        if m < i {
            assert(s[m].0@ == k);
            assert(m == n);
        } else {
            assert(s[m + 1].0@ == k);
            assert(m + 1 == n);
        }
        assert(t[m] == s[n]);
    }
}

/// Appending an entry with a fresh key keeps keys distinct and gives that key
/// the appended entry; other keys keep their value and size.
pub proof fn lemma_push_fresh<V: View>(
    s: Seq<(String, CacheEntry<V>)>,
    e: (String, CacheEntry<V>),
)
    requires
        keys_distinct(s),
        !has_key(s, e.0@),
    ensures
        keys_distinct(s.push(e)),
        has_key(s.push(e), e.0@),
        value_view_at(s.push(e), e.0@) == e.1.value@,
        size_at(s.push(e), e.0@) == e.1.size,
        forall|k: Seq<char>| k != e.0@ ==> has_key(s.push(e), k) == has_key(s, k),
        forall|k: Seq<char>|
            k != e.0@ && has_key(s, k) ==> value_view_at(s.push(e), k) == value_view_at(s, k)
                && size_at(s.push(e), k) == size_at(s, k),
{
    let t = s.push(e);
    assert(t[s.len() as int] == e);
    assert forall|a: int, b: int| 0 <= a < b < t.len() implies t[a].0@ != t[b].0@ by {
        if b < s.len() {
            assert(s[a].0@ != s[b].0@);
        } else {
            assert(t[a] == s[a]);
            assert(!has_key(s, e.0@));
            if t[a].0@ == e.0@ {
                assert(has_key(s, e.0@));
            }
        }
    }
    assert(has_key(t, e.0@));
    lemma_key_at_unique(t, e.0@);
    assert(key_at(t, e.0@) == s.len());
    assert forall|k: Seq<char>| k != e.0@ implies has_key(t, k) == has_key(s, k) by {
        if has_key(t, k) {
            let m = choose|m: int| 0 <= m < t.len() && (#[trigger] t[m]).0@ == k;
            assert(m < s.len());
            assert(s[m].0@ == k);
            assert(has_key(s, k));
        }
        if has_key(s, k) {
            let n = choose|n: int| 0 <= n < s.len() && (#[trigger] s[n]).0@ == k;
            assert(t[n].0@ == k);
            assert(has_key(t, k));
        }
    }
    assert forall|k: Seq<char>| k != e.0@ && has_key(s, k) implies value_view_at(t, k)
        == value_view_at(s, k) && size_at(t, k) == size_at(s, k) by {
        lemma_key_at_unique(s, k);
        lemma_key_at_unique(t, k);
        let n = key_at(s, k);
        let m = key_at(t, k);
        assert(m < s.len());
        assert(s[m].0@ == k);
        assert(m == n);
        assert(t[m] == s[n]);
    }
}

/// Moving the entry at index `i` to the back is a permutation: keys stay
/// distinct, every key keeps its value and size, and the size total is
/// unchanged.
pub proof fn lemma_move_to_back<V: View>(s: Seq<(String, CacheEntry<V>)>, i: int)
    requires
        keys_distinct(s),
        0 <= i < s.len(),
    ensures
        keys_distinct(s.remove(i).push(s[i])),
        sum_sizes(s.remove(i).push(s[i])) == sum_sizes(s),
        forall|k: Seq<char>| has_key(s.remove(i).push(s[i]), k) == has_key(s, k),
        forall|k: Seq<char>|
            has_key(s, k) ==> value_view_at(s.remove(i).push(s[i]), k) == value_view_at(s, k)
                && size_at(s.remove(i).push(s[i]), k) == size_at(s, k),
{
    let t = s.remove(i).push(s[i]);
    lemma_remove_at(s, i);
    lemma_push_fresh(s.remove(i), s[i]);
    lemma_sum_remove(s, i);
    lemma_sum_push(s.remove(i), s[i]);
    lemma_key_at_unique(s, s[i].0@);
    assert(key_at(s, s[i].0@) == i);
    assert(value_view_at(s, s[i].0@) == s[i].1.value@);
    assert forall|k: Seq<char>| has_key(t, k) == has_key(s, k) by {
        if k == s[i].0@ {
            assert(has_key(t, k));
            assert(has_key(s, k));
        }
    }
    assert forall|k: Seq<char>| has_key(s, k) implies value_view_at(t, k) == value_view_at(s, k)
        && size_at(t, k) == size_at(s, k) by {
        if k != s[i].0@ {
            assert(value_view_at(s.remove(i), k) == value_view_at(s, k));
        }
    }
}

/// One storage pool: a bounded store of entries whose measured sizes fall in
/// the configured range, evicting in ascending recency order under pressure.
pub struct Tier<V> {
    /// Capacity of the tier in bytes.
    pub capacity: usize,
    /// Inclusive lower bound of the sizes this tier accepts.
    pub min_size: usize,
    /// Exclusive upper bound of the sizes this tier accepts.
    pub max_size: usize,
    /// Stored entries in recency order: index 0 is least recently accessed.
    pub entries: Vec<(String, CacheEntry<V>)>,
    /// Running total of the measured sizes of the stored entries, in bytes.
    pub used: usize,
}

impl<V: HeapSize> Tier<V> {
    /// Internal invariant: keys are unique, the byte counter equals the sum
    /// of the stored sizes, and occupied bytes never exceed the capacity.
    pub open spec fn wf(self) -> bool {
        &&& keys_distinct(self.entries@)
        &&& self.used == sum_sizes(self.entries@)
        &&& self.used <= self.capacity
    }

    /// Creates an empty tier with the given capacity and size range.
    pub fn new(total_capacity: usize, size_range: (usize, usize)) -> (t: Tier<V>)
        ensures
            t.wf(),
            t.capacity == total_capacity,
            t.min_size == size_range.0,
            t.max_size == size_range.1,
            t.entries@.len() == 0,
            t.used == 0,
    {
        Tier {
            capacity: total_capacity,
            min_size: size_range.0,
            max_size: size_range.1,
            entries: Vec::new(),
            used: 0,
        }
    }

    /// The index of the entry bearing `key`, if any.
    fn index_of_key(&self, key: &String) -> (r: Option<usize>)
        ensures
            match r {
                Some(i) => i < self.entries@.len() && self.entries@[i as int].0@ == key@,
                None => !has_key(self.entries@, key@),
            },
    {
        let n = self.entries.len();
        let mut i: usize = 0;
        while i < n
            invariant
                n == self.entries@.len(),
                0 <= i <= n,
                forall|m: int| 0 <= m < i ==> (#[trigger] self.entries@[m]).0@ != key@,
            decreases n - i,
        {
            if self.entries[i].0 == *key {
                return Some(i);
            }
            i = i + 1;
        }
        None
    }

    /// Returns the stored value for `key` behind a shared handle and marks the
    /// key as most recently used; reports absence otherwise. The stored
    /// contents are unchanged for every key.
    pub fn get(&mut self, key: &String) -> (r: Option<Arc<V>>)
        requires
            old(self).wf(),
        ensures
            final(self).wf(),
            final(self).capacity == old(self).capacity,
            final(self).min_size == old(self).min_size,
            final(self).max_size == old(self).max_size,
            final(self).used == old(self).used,
            final(self).entries@.len() == old(self).entries@.len(),
            match r {
                Some(a) => has_key(old(self).entries@, key@) && a@ == value_view_at(
                    old(self).entries@,
                    key@,
                ),
                None => !has_key(old(self).entries@, key@),
            },
            forall|k: Seq<char>|
                has_key(final(self).entries@, k) == has_key(old(self).entries@, k),
            forall|k: Seq<char>|
                has_key(old(self).entries@, k) ==> value_view_at(final(self).entries@, k)
                    == value_view_at(old(self).entries@, k) && size_at(final(self).entries@, k)
                    == size_at(old(self).entries@, k),
            has_key(old(self).entries@, key@) ==> final(self).entries@ == old(
                self,
            ).entries@.remove(key_at(old(self).entries@, key@)).push(
                old(self).entries@[key_at(old(self).entries@, key@)],
            ),
            !has_key(old(self).entries@, key@) ==> final(self).entries@ == old(self).entries@,
    {
        let found = self.index_of_key(key);
        match found {
            Some(i) => {
                proof {
                    lemma_key_at_unique(old(self).entries@, key@);
                    lemma_move_to_back(old(self).entries@, i as int);
                }
                let pair = self.entries.remove(i);
                let shared = Arc::new(pair.1.value.duplicate());
                self.entries.push(pair);
                Some(shared)
            },
            None => None,
        }
    }

    /// Inserts or replaces the entry for `key`, charging its size to the byte
    /// counter (after refunding any replaced entry's size), and evicts
    /// least-recently-used entries until the new total fits the capacity.
    /// Returns the value previously stored under `key`, if any.
    ///
    /// The ensures describe eviction exactly: the surviving entries are a
    /// suffix (in recency order) of the prior entries with `key`'s old entry
    /// taken out, and an entry is evicted only when the remaining older
    /// entries together with the new entry still overflow the capacity.
    pub fn put(&mut self, key: String, entry: CacheEntry<V>) -> (r: Option<V>)
        requires
            old(self).wf(),
            entry.size <= old(self).capacity,
        ensures
            final(self).wf(),
            final(self).capacity == old(self).capacity,
            final(self).min_size == old(self).min_size,
            final(self).max_size == old(self).max_size,
            (r is Some) == has_key(old(self).entries@, key@),
            r matches Some(v) ==> v == old(self).entries@[key_at(old(self).entries@, key@)].1.value,
            has_key(final(self).entries@, key@),
            value_view_at(final(self).entries@, key@) == entry.value@,
            size_at(final(self).entries@, key@) == entry.size,
            final(self).entries@.len() > 0 && final(self).entries@.last() == (key, entry),
            ({
                lru_insert_shape(
                    old(self).entries@,
                    key@,
                    (key, entry),
                    old(self).capacity as int,
                    final(self).entries@,
                )
            }),
    {
        let ghost s0 = self.entries@;
        // Replace: take out any previous entry for this key and refund its size.
        let found = self.index_of_key(&key);
        let prev: Option<V> = match found {
            Some(i) => {
                proof {
                    lemma_key_at_unique(s0, key@);
                    lemma_remove_at(s0, i as int);
                    lemma_sum_remove(s0, i as int);
                    lemma_sum_nonneg(s0.remove(i as int));
                }
                let pair = self.entries.remove(i);
                self.used = self.used - pair.1.size;
                Some(pair.1.value)
            },
            None => None,
        };
        let ghost mid = self.entries@;
        proof {
            assert(mid == without_key(s0, key@));
            assert(!has_key(mid, key@));
            assert(keys_distinct(mid));
            assert(mid.skip(0) =~= mid);
        }
        // Evict in ascending recency order until the new entry fits.
        let ghost mut j: int = 0;
        while self.entries.len() > 0 && entry.size > self.capacity - self.used
            invariant
                keys_distinct(mid),
                0 <= j <= mid.len(),
                self.entries@ == mid.skip(j),
                self.used == sum_sizes(self.entries@),
                self.used <= self.capacity,
                self.capacity == old(self).capacity,
                self.min_size == old(self).min_size,
                self.max_size == old(self).max_size,
                entry.size <= self.capacity,
                j > 0 ==> sum_sizes(mid.skip(j - 1)) + entry.size > self.capacity,
            decreases self.entries@.len(),
        {
            proof {
                lemma_sum_skip_step(mid, j);
                lemma_sum_nonneg(mid.skip(j + 1));
                assert(mid.skip(j)[0] == mid[j]);
            }
            let victim = self.entries.remove(0);
            proof {
                assert(self.entries@ =~= mid.skip(j + 1));
            }
            self.used = self.used - victim.1.size;
            proof {
                j = j + 1;
            }
        }
        proof {
            if self.entries@.len() == 0 {
                assert(self.used == 0);
            }
            assert(self.used + entry.size <= self.capacity);
            lemma_skip_keys(mid, j);
            if has_key(mid.skip(j), key@) {
                assert(has_key(mid, key@));
            }
            lemma_sum_push(mid.skip(j), (key, entry));
            lemma_push_fresh(mid.skip(j), (key, entry));
        }
        self.used = self.used + entry.size;
        self.entries.push((key, entry));
        proof {
            assert(self.entries@ == mid.skip(j).push((key, entry)));
            assert(lru_insert_shape(s0, key@, (key, entry), old(self).capacity as int, self.entries@));
        }
        prev
    }

    /// Deletes the entry for `key`, refunding its size, and returns its
    /// value; reports absence otherwise. Every other key keeps its entry.
    pub fn remove(&mut self, key: &String) -> (r: Option<V>)
        requires
            old(self).wf(),
        ensures
            final(self).wf(),
            final(self).capacity == old(self).capacity,
            final(self).min_size == old(self).min_size,
            final(self).max_size == old(self).max_size,
            (r is Some) == has_key(old(self).entries@, key@),
            r matches Some(v) ==> v == old(self).entries@[key_at(old(self).entries@, key@)].1.value
                && final(self).used == old(self).used - size_at(old(self).entries@, key@),
            r is None ==> *final(self) == *old(self),
            final(self).entries@ == without_key(old(self).entries@, key@),
            !has_key(final(self).entries@, key@),
            forall|k: Seq<char>|
                k != key@ ==> has_key(final(self).entries@, k) == has_key(old(self).entries@, k),
            forall|k: Seq<char>|
                k != key@ && has_key(old(self).entries@, k) ==> value_view_at(
                    final(self).entries@,
                    k,
                ) == value_view_at(old(self).entries@, k) && size_at(final(self).entries@, k)
                    == size_at(old(self).entries@, k),
    {
        let found = self.index_of_key(key);
        match found {
            Some(i) => {
                proof {
                    lemma_key_at_unique(old(self).entries@, key@);
                    lemma_remove_at(old(self).entries@, i as int);
                    lemma_sum_remove(old(self).entries@, i as int);
                    lemma_sum_nonneg(old(self).entries@.remove(i as int));
                }
                let pair = self.entries.remove(i);
                self.used = self.used - pair.1.size;
                Some(pair.1.value)
            },
            None => None,
        }
    }

    /// Drops every entry and resets the byte counter to zero.
    pub fn clear(&mut self)
        ensures
            final(self).wf(),
            final(self).capacity == old(self).capacity,
            final(self).min_size == old(self).min_size,
            final(self).max_size == old(self).max_size,
            final(self).entries@.len() == 0,
            final(self).used == 0,
            forall|k: Seq<char>| !has_key(final(self).entries@, k),
    {
        self.entries = Vec::new();
        self.used = 0;
    }
}

} // verus!
