//! Cache bookkeeping: tiers, priorities, statistics counters and the
//! decisions of adaptive sizing and eviction.
use vstd::prelude::*;
use crate::node::strs;

verus! {

/// Memory pressure levels for adaptive cache sizing.
///
/// `Low` grows the budget by 10%, `Medium` holds it, `High` shrinks it by
/// 10% and `Critical` halves it; it never drops below [`MIN_CACHE_SIZE`].
#[derive(Debug, Clone, Copy, PartialEq, Eq)]
pub enum MemoryPressure {
    Low,
    Medium,
    High,
    Critical,
}

/// Hot/Warm/Cold classification for tiered caching, hottest first.
#[derive(Debug, Clone, Copy, PartialEq, Eq, PartialOrd, Ord)]
pub enum CacheTier {
    /// Frequently accessed, highest eviction resistance
    Hot,
    /// Moderately accessed
    Warm,
    /// Rarely accessed, lowest eviction resistance
    Cold,
}

/// Priority levels for cache entries; higher ones are harder to evict.
#[derive(Debug, Clone, Copy, PartialEq, Eq, PartialOrd, Ord)]
pub enum CachePriority {
    Low,
    Normal,
    High,
    Critical,
}

/// Rank of a tier: `Hot` is 0, `Cold` is 2.
pub open spec fn tier_rank(t: CacheTier) -> int {
    match t {
        CacheTier::Hot => 0,
        CacheTier::Warm => 1,
        CacheTier::Cold => 2,
    }
}

/// Whether moving from tier `from` to tier `to` is a promotion (towards `Hot`).
pub fn is_promotion(from: CacheTier, to: CacheTier) -> (r: bool)
    ensures
        r == (tier_rank(to) < tier_rank(from)),
{
    match (from, to) {
        (CacheTier::Warm, CacheTier::Hot) => true,
        (CacheTier::Cold, CacheTier::Hot) => true,
        (CacheTier::Cold, CacheTier::Warm) => true,
        _ => false,
    }
}

/// A `u64` counter advanced by `b`, wrapping around at 2^64.
pub open spec fn counter_add(a: u64, b: u64) -> u64 {
    ((a + b) % 0x1_0000_0000_0000_0000int) as u64
}

fn bump(a: u64, b: u64) -> (r: u64)
    ensures
        r == counter_add(a, b),
{
    a.wrapping_add(b)
}

/// Counters of cache operations.
#[derive(Debug)]
pub struct CacheStatistics {
    pub total_hits: u64,
    pub total_misses: u64,
    pub total_evictions: u64,
    pub bytes_saved: u64,
    pub time_saved_ms: u64,
    pub tier_promotions: u64,
    pub tier_demotions: u64,
}

impl CacheStatistics {
    /// All counters at zero.
    pub fn new() -> (r: CacheStatistics)
        ensures
            r.total_hits == 0,
            r.total_misses == 0,
            r.total_evictions == 0,
            r.bytes_saved == 0,
            r.time_saved_ms == 0,
            r.tier_promotions == 0,
            r.tier_demotions == 0,
    {
        CacheStatistics {
            total_hits: 0,
            total_misses: 0,
            total_evictions: 0,
            bytes_saved: 0,
            time_saved_ms: 0,
            tier_promotions: 0,
            tier_demotions: 0,
        }
    }

    /// A hit, which saved `time_saved_ms` of computation.
    pub fn record_hit(&mut self, time_saved_ms: u64)
        ensures
            final(self).total_hits == counter_add(old(self).total_hits, 1),
            final(self).time_saved_ms == counter_add(old(self).time_saved_ms, time_saved_ms),
            final(self).total_misses == old(self).total_misses,
            final(self).total_evictions == old(self).total_evictions,
            final(self).bytes_saved == old(self).bytes_saved,
            final(self).tier_promotions == old(self).tier_promotions,
            final(self).tier_demotions == old(self).tier_demotions,
    {
        self.total_hits = bump(self.total_hits, 1);
        self.time_saved_ms = bump(self.time_saved_ms, time_saved_ms);
    }

    pub fn record_miss(&mut self)
        ensures
            final(self).total_misses == counter_add(old(self).total_misses, 1),
            final(self).total_hits == old(self).total_hits,
            final(self).total_evictions == old(self).total_evictions,
            final(self).bytes_saved == old(self).bytes_saved,
            final(self).time_saved_ms == old(self).time_saved_ms,
            final(self).tier_promotions == old(self).tier_promotions,
            final(self).tier_demotions == old(self).tier_demotions,
    {
        self.total_misses = bump(self.total_misses, 1);
    }

    pub fn record_eviction(&mut self)
        ensures
            final(self).total_evictions == counter_add(old(self).total_evictions, 1),
            final(self).total_hits == old(self).total_hits,
            final(self).total_misses == old(self).total_misses,
            final(self).bytes_saved == old(self).bytes_saved,
            final(self).time_saved_ms == old(self).time_saved_ms,
            final(self).tier_promotions == old(self).tier_promotions,
            final(self).tier_demotions == old(self).tier_demotions,
    {
        self.total_evictions = bump(self.total_evictions, 1);
    }

    /// `n` evictions at once.
    pub fn record_evictions(&mut self, n: u64)
        ensures
            final(self).total_evictions == counter_add(old(self).total_evictions, n),
            final(self).total_hits == old(self).total_hits,
            final(self).total_misses == old(self).total_misses,
            final(self).bytes_saved == old(self).bytes_saved,
            final(self).time_saved_ms == old(self).time_saved_ms,
            final(self).tier_promotions == old(self).tier_promotions,
            final(self).tier_demotions == old(self).tier_demotions,
    {
        self.total_evictions = bump(self.total_evictions, n);
    }

    pub fn record_promotion(&mut self)
        ensures
            final(self).tier_promotions == counter_add(old(self).tier_promotions, 1),
            final(self).total_hits == old(self).total_hits,
            final(self).total_misses == old(self).total_misses,
            final(self).total_evictions == old(self).total_evictions,
            final(self).bytes_saved == old(self).bytes_saved,
            final(self).time_saved_ms == old(self).time_saved_ms,
            final(self).tier_demotions == old(self).tier_demotions,
    {
        self.tier_promotions = bump(self.tier_promotions, 1);
    }

    pub fn record_demotion(&mut self)
        ensures
            final(self).tier_demotions == counter_add(old(self).tier_demotions, 1),
            final(self).total_hits == old(self).total_hits,
            final(self).total_misses == old(self).total_misses,
            final(self).total_evictions == old(self).total_evictions,
            final(self).bytes_saved == old(self).bytes_saved,
            final(self).time_saved_ms == old(self).time_saved_ms,
            final(self).tier_promotions == old(self).tier_promotions,
    {
        self.tier_demotions = bump(self.tier_demotions, 1);
    }
}

impl Default for CacheStatistics {
    fn default() -> (r: CacheStatistics)
        ensures
            r.total_hits == 0,
            r.total_misses == 0,
            r.total_evictions == 0,
            r.bytes_saved == 0,
            r.time_saved_ms == 0,
            r.tier_promotions == 0,
            r.tier_demotions == 0,
    {
        CacheStatistics::new()
    }
}

/// Maximum number of entries (hard bound regardless of byte budget).
pub const MAX_CACHE_ENTRIES: u32 = 10_000;

/// Minimum cache size in bytes (1 MB).
pub const MIN_CACHE_SIZE: u64 = 1_048_576;

/// The byte budget of a cache of `mb` megabytes.
pub fn budget_bytes(mb: u32) -> (r: u64)
    ensures
        r == mb * 1_048_576,
{
    assert(mb * 1_048_576 <= u64::MAX) by (nonlinear_arith)
        requires
            mb <= u32::MAX,
    ;
    mb as u64 * 1024 * 1024
}

pub open spec fn sat_add(a: u64, b: u64) -> u64 {
    if a + b > u64::MAX {
        u64::MAX
    } else {
        (a + b) as u64
    }
}

pub open spec fn at_least_min(a: int) -> u64 {
    if a < MIN_CACHE_SIZE {
        MIN_CACHE_SIZE
    } else {
        a as u64
    }
}

/// The byte budget after memory pressure `p` acts on budget `current`.
pub open spec fn adapted(current: u64, p: MemoryPressure) -> u64 {
    match p {
        MemoryPressure::Low => sat_add(current, current / 10),
        MemoryPressure::Medium => current,
        MemoryPressure::High => at_least_min(current - current / 10),
        MemoryPressure::Critical => at_least_min((current / 2) as int),
    }
}

/// The new byte budget under memory pressure `pressure`, or `current` when no
/// pressure reading is available.
pub fn adapt_max_size(current: u64, pressure: Option<MemoryPressure>) -> (r: u64)
    ensures
        r == match pressure {
            Some(p) => adapted(current, p),
            None => current,
        },
{
    let p = match pressure {
        Some(p) => p,
        None => return current,
    };
    match p {
        MemoryPressure::Low => current.saturating_add(current / 10),
        MemoryPressure::Medium => current,
        MemoryPressure::High => {
            let v = current.saturating_sub(current / 10);
            if v < MIN_CACHE_SIZE {
                MIN_CACHE_SIZE
            } else {
                v
            }
        },
        MemoryPressure::Critical => {
            let v = current / 2;
            if v < MIN_CACHE_SIZE {
                MIN_CACHE_SIZE
            } else {
                v
            }
        },
    }
}

/// Pressure moves the budget the documented way: low pressure never shrinks
/// it, medium keeps it, high and critical shrink a budget above the minimum
/// and never take it below the minimum.
pub proof fn law_pressure_bounds(current: u64)
    ensures
        adapted(current, MemoryPressure::Low) >= current,
        adapted(current, MemoryPressure::Medium) == current,
        adapted(current, MemoryPressure::High) >= MIN_CACHE_SIZE,
        adapted(current, MemoryPressure::Critical) >= MIN_CACHE_SIZE,
        current >= MIN_CACHE_SIZE ==> adapted(current, MemoryPressure::High) <= current,
        current >= MIN_CACHE_SIZE ==> adapted(current, MemoryPressure::Critical) <= current,
{
}


// ---------------------------------------------------------------------------
// Eviction
// ---------------------------------------------------------------------------

/// The sum of the first `k` sizes.
pub open spec fn prefix_sum(s: Seq<u64>, k: int) -> nat
    decreases k,
{
    if k <= 0 || k > s.len() {
        0
    } else {
        prefix_sum(s, k - 1) + (s[k - 1] as nat)
    }
}

/// The bytes an eviction pass aims to free: what is needed plus a tenth of
/// the budget.
pub open spec fn eviction_target(needed: u64, max_size: u64) -> nat {
    (needed + max_size / 10) as nat
}

/// How many candidates (in eviction order) an eviction pass removes, and
/// whether that freed enough.
#[derive(Debug, Clone, Copy, PartialEq, Eq)]
pub struct EvictionPlan {
    /// Number of leading candidates to evict
    pub evicted: usize,
    /// Bytes they free
    pub freed: u64,
    /// Whether at least the needed bytes are freed
    pub enough: bool,
}

/// Plan the eviction that makes room for `needed` more bytes, given the
/// sizes of the evictable entries from the first to evict to the last:
/// nothing when the budget holds them; otherwise candidates are taken in
/// order until the target (needed plus a tenth of the budget) is freed or
/// none are left.
pub fn plan_eviction(sizes: &Vec<u64>, needed: u64, current: u64, max_size: u64) -> (r: EvictionPlan)
    requires
        current + needed <= u64::MAX,
        needed + max_size / 10 <= u64::MAX,
        prefix_sum(sizes@, sizes@.len() as int) <= u64::MAX,
    ensures
        current + needed <= max_size ==> r == (EvictionPlan { evicted: 0, freed: 0, enough: true }),
        current + needed > max_size ==> {
            &&& r.evicted <= sizes@.len()
            &&& r.freed == prefix_sum(sizes@, r.evicted as int)
            &&& forall|k: int| 0 <= k < r.evicted ==> #[trigger] prefix_sum(sizes@, k) < eviction_target(needed, max_size)
            &&& r.evicted < sizes@.len() ==> r.freed >= eviction_target(needed, max_size)
            &&& r.enough == (r.freed >= needed)
        },
{
    if current + needed <= max_size {
        return EvictionPlan { evicted: 0, freed: 0, enough: true };
    }
    let target = needed + max_size / 10;
    let mut freed: u64 = 0;
    let mut i: usize = 0;
    while i < sizes.len()
        invariant_except_break
            i <= sizes@.len(),
            freed == prefix_sum(sizes@, i as int),
            forall|k: int| 0 <= k < i ==> #[trigger] prefix_sum(sizes@, k) < target,
            prefix_sum(sizes@, sizes@.len() as int) <= u64::MAX,
            target == eviction_target(needed, max_size),
        ensures
            i <= sizes@.len(),
            freed == prefix_sum(sizes@, i as int),
            forall|k: int| 0 <= k < i ==> #[trigger] prefix_sum(sizes@, k) < target,
            i < sizes@.len() ==> freed >= target,
        decreases sizes@.len() - i,
    {
        if freed >= target {
            break;
        }
        proof {
            lemma_prefix_sum_monotone(sizes@, i + 1, sizes@.len() as int);
        }
        freed = freed + sizes[i];
        i = i + 1;
    }
    EvictionPlan { evicted: i, freed, enough: freed >= needed }
}

/// The sizes of the candidates, in order.
pub open spec fn candidate_sizes(c: Seq<(String, u64)>) -> Seq<u64> {
    c.map_values(|e: (String, u64)| e.1)
}

/// The keys of the first `n` candidates.
pub open spec fn candidate_keys(c: Seq<(String, u64)>, n: int) -> Seq<Seq<char>> {
    c.subrange(0, n).map_values(|e: (String, u64)| e.0@)
}

/// What an eviction pass removes and frees.
pub struct Eviction {
    /// Keys of the entries to remove, in eviction order
    pub keys: Vec<String>,
    /// Bytes they free
    pub freed: u64,
    /// Whether at least the needed bytes are freed
    pub enough: bool,
}

/// Run the eviction planned by `plan_eviction` over the candidates (keys and
/// sizes, first to evict first): the keys of the evicted candidates are
/// returned for removal, their bytes leave the current size, and each counts
/// as an eviction.
pub fn evict_candidates(
    candidates: &Vec<(String, u64)>,
    needed: u64,
    current: &mut u64,
    max_size: u64,
    stats: &mut CacheStatistics,
) -> (r: Eviction)
    requires
        *old(current) + needed <= u64::MAX,
        needed + max_size / 10 <= u64::MAX,
        prefix_sum(candidate_sizes(candidates@), candidates@.len() as int) <= *old(current),
    ensures
        ({
            let sizes = candidate_sizes(candidates@);
            let n = r.keys@.len() as int;
            &&& *old(current) + needed <= max_size ==> n == 0 && r.freed == 0 && r.enough
            &&& *old(current) + needed > max_size ==> {
                &&& n <= sizes.len()
                &&& r.freed == prefix_sum(sizes, n)
                &&& forall|k: int| 0 <= k < n ==> #[trigger] prefix_sum(sizes, k) < eviction_target(needed, max_size)
                &&& n < sizes.len() ==> r.freed >= eviction_target(needed, max_size)
                &&& r.enough == (r.freed >= needed)
            }
            &&& strs(r.keys@) == candidate_keys(candidates@, n)
            &&& *final(current) == *old(current) - r.freed
            &&& final(stats).total_evictions == counter_add(old(stats).total_evictions, n as u64)
            &&& final(stats).total_hits == old(stats).total_hits
            &&& final(stats).total_misses == old(stats).total_misses
            &&& final(stats).bytes_saved == old(stats).bytes_saved
            &&& final(stats).time_saved_ms == old(stats).time_saved_ms
            &&& final(stats).tier_promotions == old(stats).tier_promotions
            &&& final(stats).tier_demotions == old(stats).tier_demotions
        }),
{
    let mut sizes: Vec<u64> = Vec::new();
    let mut i: usize = 0;
    while i < candidates.len()
        invariant
            i <= candidates@.len(),
            sizes@ == candidate_sizes(candidates@).subrange(0, i as int),
        decreases candidates@.len() - i,
    {
        sizes.push(candidates[i].1);
        assert(sizes@ =~= candidate_sizes(candidates@).subrange(0, i + 1));
        i = i + 1;
    }
    assert(sizes@ =~= candidate_sizes(candidates@));
    let plan = plan_eviction(&sizes, needed, *current, max_size);
    let mut keys: Vec<String> = Vec::new();
    let mut j: usize = 0;
    while j < plan.evicted
        invariant
            j <= plan.evicted <= candidates@.len(),
            strs(keys@) == candidate_keys(candidates@, j as int),
        decreases plan.evicted - j,
    {
        let k = candidates[j].0.clone();
        proof {
            assert(strs(keys@.push(k)) =~= strs(keys@).push(k@));
        }
        keys.push(k);
        assert(candidate_keys(candidates@, j + 1) =~= candidate_keys(candidates@, j as int).push(candidates@[j as int].0@));
        j = j + 1;
    }
    proof {
        lemma_prefix_sum_monotone(sizes@, plan.evicted as int, sizes@.len() as int);
    }
    *current = *current - plan.freed;
    stats.record_evictions(plan.evicted as u64);
    Eviction { keys, freed: plan.freed, enough: plan.enough }
}

/// Prefix sums do not decrease.
pub proof fn lemma_prefix_sum_monotone(s: Seq<u64>, a: int, b: int)
    requires
        0 <= a <= b <= s.len(),
    ensures
        prefix_sum(s, a) <= prefix_sum(s, b),
    decreases b - a,
{
    if a < b {
        lemma_prefix_sum_monotone(s, a, b - 1);
    }
}

} // verus!
