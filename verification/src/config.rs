//! Immutable cache topology: an ordered list of tiers, each with a byte
//! capacity and a half-open `[min, max)` size range, plus an optional
//! notification-queue depth.

use vstd::prelude::*;

verus! {

/// Configuration of a single tier: a total byte capacity and the half-open
/// byte-size range `[min, max)` of the values it accepts.
pub struct TierConfig {
    /// Capacity of the tier in bytes: the sum of the measured sizes of the
    /// entries it holds never exceeds this after a completed mutation.
    pub total_capacity: usize,
    /// Half-open size range `[min, max)` of values routed to this tier.
    pub size_range: (usize, usize),
}

impl TierConfig {
    /// The lower bound of the tier's size range (inclusive).
    pub open spec fn min_size(self) -> usize {
        self.size_range.0
    }

    /// The upper bound of the tier's size range (exclusive).
    pub open spec fn max_size(self) -> usize {
        self.size_range.1
    }

    /// Whether a measured size falls inside this tier's range.
    pub open spec fn covers(self, size: usize) -> bool {
        self.min_size() <= size < self.max_size()
    }
}

/// Configuration of the whole cache: the ordered tier list and the optional
/// capacity of the update-notification queue.
pub struct CacheConfig {
    /// Tier configurations, ordered ascending by the lower bound of their
    /// size ranges; ranges must be non-overlapping and contiguous.
    pub tiers: Vec<TierConfig>,
    /// Queue depth for update notifications; `None` disables notifications.
    pub update_channel_size: Option<usize>,
}

impl CacheConfig {
    /// Well-formedness of the topology: each range is non-empty, consecutive
    /// ranges are contiguous (so the list is sorted ascending by lower bound
    /// and ranges never overlap), and the capacities sum to a representable
    /// byte count. Routing is only defined for well-formed configurations.
    pub open spec fn wf(self) -> bool {
        &&& forall|i: int|
            0 <= i < self.tiers@.len() ==> (#[trigger] self.tiers@[i]).min_size()
                < self.tiers@[i].max_size()
        &&& forall|i: int|
            0 <= i < self.tiers@.len() - 1 ==> (#[trigger] self.tiers@[i]).max_size()
                == self.tiers@[i + 1].min_size()
        &&& capacity_sum(self.tiers@) <= usize::MAX
    }
}

/// The sum of the tier capacities of a tier-configuration list, in bytes.
pub open spec fn capacity_sum(tiers: Seq<TierConfig>) -> int
    decreases tiers.len(),
{
    if tiers.len() == 0 {
        0
    } else {
        tiers[0].total_capacity + capacity_sum(tiers.drop_first())
    }
}

/// Every partial capacity sum of a suffix is at most the sum of the whole
/// list, and every sum is non-negative.
pub proof fn lemma_capacity_sum_bounds(tiers: Seq<TierConfig>)
    ensures
        capacity_sum(tiers) >= 0,
        forall|i: int|
            0 <= i < tiers.len() ==> #[trigger] tiers[i].total_capacity <= capacity_sum(tiers),
    decreases tiers.len(),
{
    if tiers.len() > 0 {
        lemma_capacity_sum_bounds(tiers.drop_first());
        assert forall|i: int|
            0 <= i < tiers.len() implies #[trigger] tiers[i].total_capacity <= capacity_sum(
            tiers,
        ) by {
            if i > 0 {
                assert(tiers.drop_first()[i - 1] == tiers[i]);
            }
        }
    }
}

/// The capacity sum over the first `j + 1` tiers is the sum over the first
/// `j` plus tier `j`'s own capacity.
pub proof fn lemma_capacity_take_step(tiers: Seq<TierConfig>, j: int)
    requires
        0 <= j < tiers.len(),
    ensures
        capacity_sum(tiers.take(j + 1)) == capacity_sum(tiers.take(j)) + tiers[j].total_capacity,
    decreases j,
{
    if j == 0 {
        assert(tiers.take(0) =~= Seq::<TierConfig>::empty());
        assert(tiers.take(1)[0] == tiers[0]);
        assert(tiers.take(1).drop_first() =~= Seq::<TierConfig>::empty());
    } else {
        assert(tiers.take(j + 1)[0] == tiers[0]);
        assert(tiers.take(j)[0] == tiers[0]);
        assert(tiers.take(j + 1).drop_first() =~= tiers.drop_first().take(j));
        assert(tiers.take(j).drop_first() =~= tiers.drop_first().take(j - 1));
        assert(tiers.drop_first()[j - 1] == tiers[j]);
        lemma_capacity_take_step(tiers.drop_first(), j - 1);
    }
}

/// The capacity sum splits at any index into the sums of the prefix and of
/// the suffix.
pub proof fn lemma_capacity_sum_split(tiers: Seq<TierConfig>, j: int)
    requires
        0 <= j <= tiers.len(),
    ensures
        capacity_sum(tiers) == capacity_sum(tiers.take(j)) + capacity_sum(tiers.skip(j)),
    decreases j,
{
    if j == 0 {
        assert(tiers.take(0) =~= Seq::<TierConfig>::empty());
        assert(tiers.skip(0) =~= tiers);
    } else {
        assert(tiers.take(j)[0] == tiers[0]);
        assert(tiers.take(j).drop_first() =~= tiers.drop_first().take(j - 1));
        assert(tiers.skip(j) =~= tiers.drop_first().skip(j - 1));
        lemma_capacity_sum_split(tiers.drop_first(), j - 1);
    }
}

/// The routing rule: the tier that owns a value of the given measured size.
///
/// Fast path: if at least one tier exists and the size is below the first
/// tier's upper bound, the value is routed to tier 0, even when the size is
/// below tier 0's configured lower bound. Otherwise the value is routed to
/// the tier whose half-open range contains the size (true range containment),
/// and to no tier when no range contains it.
pub open spec fn spec_route(tiers: Seq<TierConfig>, size: usize) -> Option<int> {
    if tiers.len() > 0 && size < tiers[0].max_size() {
        Some(0)
    } else if exists|i: int| 0 <= i < tiers.len() && (#[trigger] tiers[i]).covers(size) {
        Some(choose|i: int| 0 <= i < tiers.len() && (#[trigger] tiers[i]).covers(size))
    } else {
        None
    }
}

/// In a well-formed configuration the upper bound of an earlier tier never
/// exceeds the lower bound of a later one.
pub proof fn lemma_ranges_ordered(c: CacheConfig, i: int, j: int)
    requires
        c.wf(),
        0 <= i < j < c.tiers@.len(),
    ensures
        c.tiers@[i].max_size() <= c.tiers@[j].min_size(),
    decreases j - i,
{
    if i + 1 < j {
        lemma_ranges_ordered(c, i + 1, j);
    }
}

/// In a well-formed configuration at most one tier's range contains a given
/// size.
pub proof fn lemma_cover_unique(c: CacheConfig, size: usize, i: int, j: int)
    requires
        c.wf(),
        0 <= i < c.tiers@.len(),
        0 <= j < c.tiers@.len(),
        c.tiers@[i].covers(size),
        c.tiers@[j].covers(size),
    ensures
        i == j,
{
    if i < j {
        lemma_ranges_ordered(c, i, j);
    } else if j < i {
        lemma_ranges_ordered(c, j, i);
    }
}

/// Two sizes falling inside the same tier's configured range are always
/// routed to the same tier (the tier-0 fast path included): routing is a
/// function of the owning range alone.
pub proof fn lemma_same_range_same_route(c: CacheConfig, s1: usize, s2: usize, t: int)
    requires
        c.wf(),
        0 <= t < c.tiers@.len(),
        c.tiers@[t].covers(s1),
        c.tiers@[t].covers(s2),
    ensures
        spec_route(c.tiers@, s1) == Some(t),
        spec_route(c.tiers@, s2) == Some(t),
{
    lemma_route_of_covered(c, s1, t);
    lemma_route_of_covered(c, s2, t);
}

/// A size contained in some tier's range is routed to exactly that tier.
pub proof fn lemma_route_of_covered(c: CacheConfig, size: usize, t: int)
    requires
        c.wf(),
        0 <= t < c.tiers@.len(),
        c.tiers@[t].covers(size),
    ensures
        spec_route(c.tiers@, size) == Some(t),
{
    if size < c.tiers@[0].max_size() {
        if t > 0 {
            lemma_ranges_ordered(c, 0, t);
        }
        assert(t == 0);
    } else {
        assert(c.tiers@[t].covers(size));
        let w = choose|i: int| 0 <= i < c.tiers@.len() && (#[trigger] c.tiers@[i]).covers(size);
        lemma_cover_unique(c, size, w, t);
    }
}

} // verus!
