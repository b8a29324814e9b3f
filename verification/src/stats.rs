//! Read-only snapshots of the cache's occupancy: item count and occupied
//! bytes, per tier and aggregated.

use vstd::prelude::*;

use crate::config::capacity_sum;
use crate::config::TierConfig;
use crate::tier::Tier;

verus! {

/// Snapshot of one tier: how many entries it holds and how many bytes they
/// occupy.
pub struct TierStats {
    /// Number of entries currently stored in the tier.
    pub items: usize,
    /// Occupied bytes: the total of the stored entries' measured sizes.
    pub size: usize,
}

/// Snapshot of the whole cache: one entry per tier plus aggregate totals.
pub struct CacheStats {
    /// Per-tier snapshots, in tier order.
    pub tier_stats: Vec<TierStats>,
    /// Sum of all tiers' item counts.
    pub total_items: usize,
    /// Sum of all tiers' occupied bytes.
    pub total_size: usize,
}

/// The total number of entries held by a list of tiers.
pub open spec fn items_total<V>(tiers: Seq<Tier<V>>) -> int
    decreases tiers.len(),
{
    if tiers.len() == 0 {
        0
    } else {
        tiers[0].entries@.len() + items_total(tiers.drop_first())
    }
}

/// The total number of occupied bytes held by a list of tiers.
pub open spec fn sizes_total<V>(tiers: Seq<Tier<V>>) -> int
    decreases tiers.len(),
{
    if tiers.len() == 0 {
        0
    } else {
        tiers[0].used + sizes_total(tiers.drop_first())
    }
}

/// Both totals split at any index: the total over the first `j + 1` tiers is
/// the total over the first `j` plus tier `j`'s own contribution.
pub proof fn lemma_totals_take_step<V>(tiers: Seq<Tier<V>>, j: int)
    requires
        0 <= j < tiers.len(),
    ensures
        items_total(tiers.take(j + 1)) == items_total(tiers.take(j)) + tiers[j].entries@.len(),
        sizes_total(tiers.take(j + 1)) == sizes_total(tiers.take(j)) + tiers[j].used,
    decreases j,
{
    if j == 0 {
        assert(tiers.take(0) =~= Seq::<Tier<V>>::empty());
        assert(tiers.take(1)[0] == tiers[0]);
        assert(tiers.take(1).drop_first() =~= Seq::<Tier<V>>::empty());
    } else {
        assert(tiers.take(j + 1)[0] == tiers[0]);
        assert(tiers.take(j)[0] == tiers[0]);
        assert(tiers.take(j + 1).drop_first() =~= tiers.drop_first().take(j));
        assert(tiers.take(j).drop_first() =~= tiers.drop_first().take(j - 1));
        assert(tiers.drop_first()[j - 1] == tiers[j]);
        lemma_totals_take_step(tiers.drop_first(), j - 1);
    }
}

/// Totals are non-negative.
pub proof fn lemma_totals_nonneg<V>(tiers: Seq<Tier<V>>)
    ensures
        items_total(tiers) >= 0,
        sizes_total(tiers) >= 0,
    decreases tiers.len(),
{
    if tiers.len() > 0 {
        lemma_totals_nonneg(tiers.drop_first());
    }
}

/// Both totals split at any index into the totals of the prefix and of the
/// suffix.
pub proof fn lemma_totals_split<V>(tiers: Seq<Tier<V>>, j: int)
    requires
        0 <= j <= tiers.len(),
    ensures
        items_total(tiers) == items_total(tiers.take(j)) + items_total(tiers.skip(j)),
        sizes_total(tiers) == sizes_total(tiers.take(j)) + sizes_total(tiers.skip(j)),
    decreases j,
{
    if j == 0 {
        assert(tiers.take(0) =~= Seq::<Tier<V>>::empty());
        assert(tiers.skip(0) =~= tiers);
    } else {
        assert(tiers.take(j)[0] == tiers[0]);
        assert(tiers.take(j).drop_first() =~= tiers.drop_first().take(j - 1));
        assert(tiers.skip(j) =~= tiers.drop_first().skip(j - 1));
        lemma_totals_split(tiers.drop_first(), j - 1);
    }
}

/// When every tier's occupied bytes respect its configured capacity, the
/// byte total over all tiers respects the configured capacity sum.
pub proof fn lemma_sizes_le_capacity_sum<V>(tiers: Seq<Tier<V>>, cfgs: Seq<TierConfig>)
    requires
        tiers.len() == cfgs.len(),
        forall|i: int|
            0 <= i < tiers.len() ==> (#[trigger] tiers[i]).used <= cfgs[i].total_capacity,
    ensures
        sizes_total(tiers) <= capacity_sum(cfgs),
    decreases tiers.len(),
{
    if tiers.len() > 0 {
        assert forall|i: int|
            0 <= i < tiers.drop_first().len() implies (#[trigger] tiers.drop_first()[i]).used
            <= cfgs.drop_first()[i].total_capacity by {
            assert(tiers.drop_first()[i] == tiers[i + 1]);
            assert(cfgs.drop_first()[i] == cfgs[i + 1]);
        }
        lemma_sizes_le_capacity_sum(tiers.drop_first(), cfgs.drop_first());
        assert(tiers[0].used <= cfgs[0].total_capacity);
    }
}

} // verus!
