//! Markov chain access predictor for cache warming.
//!
//! Learns how often one key follows another (A then B seen 8 times, A then C
//! seen 2 times) and ranks the keys likely to follow a given key. The
//! confidence of a prediction is its count over the total count of the
//! transitions from that key; the threshold is in thousandths.
//!
//! The predictor is bounded: at most `MAX_PREDICTOR_PATTERNS` source keys
//! and `MAX_TRANSITIONS_PER_KEY` transitions per key. When full, new
//! patterns are dropped.
use vstd::prelude::*;

verus! {

broadcast use vstd::string::group_string_axioms;

/// Maximum number of unique source keys tracked.
pub const MAX_PREDICTOR_PATTERNS: u32 = 1000;

/// Maximum number of transitions stored per source key.
pub const MAX_TRANSITIONS_PER_KEY: u32 = 100;

/// Transitions from one key: each following key with its count.
pub type TransModel = Seq<(Seq<char>, u32)>;

/// Source keys with their transitions, in the order first seen.
pub type PatternModel = Seq<(Seq<char>, TransModel)>;

pub open spec fn trans_view(v: Seq<(String, u32)>) -> TransModel {
    v.map_values(|e: (String, u32)| (e.0@, e.1))
}

pub open spec fn pattern_views(v: Seq<(String, Vec<(String, u32)>)>) -> PatternModel {
    v.map_values(|e: (String, Vec<(String, u32)>)| (e.0@, trans_view(e.1@)))
}

pub open spec fn trans_keys(t: TransModel) -> Seq<Seq<char>> {
    t.map_values(|e: (Seq<char>, u32)| e.0)
}

pub open spec fn pattern_keys(p: PatternModel) -> Seq<Seq<char>> {
    p.map_values(|e: (Seq<char>, TransModel)| e.0)
}

/// A count increased by one, saturating.
pub open spec fn bump(c: u32) -> u32 {
    if c == u32::MAX {
        c
    } else {
        (c + 1) as u32
    }
}

/// `record_access`: count one more transition from `from` to `to`.
pub open spec fn record_spec(p: PatternModel, from: Option<Seq<char>>, to: Seq<char>) -> PatternModel {
    match from {
        None => p,
        Some(f) => match pattern_keys(p).index_of_first(f) {
            None => if p.len() >= MAX_PREDICTOR_PATTERNS {
                p
            } else {
                p.push((f, seq![(to, 1u32)]))
            },
            Some(i) => {
                let ts = p[i].1;
                match trans_keys(ts).index_of_first(to) {
                    None => if ts.len() >= MAX_TRANSITIONS_PER_KEY {
                        p
                    } else {
                        p.update(i, (f, ts.push((to, 1u32))))
                    },
                    Some(j) => p.update(i, (f, ts.update(j, (to, bump(ts[j].1))))),
                }
            },
        },
    }
}

/// The transitions recorded from a key.
pub open spec fn transitions_of(p: PatternModel, key: Seq<char>) -> TransModel {
    match pattern_keys(p).index_of_first(key) {
        Some(i) => p[i].1,
        None => Seq::empty(),
    }
}

/// The sum of the counts.
pub open spec fn total_count(t: TransModel) -> nat
    decreases t.len(),
{
    if t.len() == 0 {
        0
    } else {
        total_count(t.drop_last()) + (t.last().1 as nat)
    }
}

/// Whether a transition's confidence `count / total` reaches the threshold
/// (in thousandths).
pub open spec fn confident(count: u32, total: nat, threshold: u32) -> bool {
    count * 1000 >= threshold * total
}

/// The transitions that a ranking keeps.
pub open spec fn kept(t: TransModel, filter: bool, threshold: u32) -> TransModel {
    if total_count(t) == 0 {
        Seq::empty()
    } else {
        t.filter(|e: (Seq<char>, u32)| !filter || confident(e.1, total_count(t), threshold))
    }
}

/// Counts in non-increasing order.
pub open spec fn by_count_desc(t: TransModel) -> bool {
    forall|a: int, b: int| 0 <= a < b < t.len() ==> t[a].1 >= t[b].1
}

/// Markov chain access predictor.
pub struct AccessPredictor {
    /// Source key with each following key and its count
    patterns: Vec<(String, Vec<(String, u32)>)>,
    /// Minimum confidence, in thousandths (0..=1000)
    confidence_threshold: u32,
}

/// The abstract state of a predictor.
pub ghost struct PredictorModel {
    pub patterns: PatternModel,
    pub threshold: u32,
}

impl View for AccessPredictor {
    type V = PredictorModel;

    closed spec fn view(&self) -> PredictorModel {
        PredictorModel { patterns: pattern_views(self.patterns@), threshold: self.confidence_threshold }
    }
}

/// Position of the first entry keyed `k`.
fn position_in<V>(v: &Vec<(String, V)>, k: &String) -> (r: Option<usize>)
    ensures
        match r {
            Some(i) => i < v@.len() && v@.map_values(|e: (String, V)| e.0@).index_of_first(k@) == Some(i as int),
            None => v@.map_values(|e: (String, V)| e.0@).index_of_first(k@) is None,
        },
{
    let ghost ks = v@.map_values(|e: (String, V)| e.0@);
    let mut i: usize = 0;
    while i < v.len()
        invariant
            i <= v@.len(),
            ks == v@.map_values(|e: (String, V)| e.0@),
            forall|j: int| 0 <= j < i ==> ks[j] != k@,
        decreases v@.len() - i,
    {
        assert(ks[i as int] == v@[i as int].0@);
        if v[i].0 == *k {
            proof {
                ks.index_of_first_ensures(k@);
            }
            return Some(i);
        }
        i = i + 1;
    }
    proof {
        ks.index_of_first_ensures(k@);
    }
    None
}

impl AccessPredictor {
    /// A predictor with the default threshold of 700 thousandths.
    pub fn new() -> (r: AccessPredictor)
        ensures
            r@.patterns.len() == 0,
            r@.threshold == 700,
    {
        AccessPredictor { patterns: Vec::new(), confidence_threshold: 700 }
    }

    /// A predictor with the given threshold in thousandths, clamped to 1000.
    pub fn with_confidence_threshold(threshold: u32) -> (r: AccessPredictor)
        ensures
            r@.patterns.len() == 0,
            r@.threshold == if threshold > 1000 { 1000 } else { threshold },
    {
        let t = if threshold > 1000 {
            1000
        } else {
            threshold
        };
        AccessPredictor { patterns: Vec::new(), confidence_threshold: t }
    }

    /// The confidence threshold, in thousandths.
    pub fn confidence_threshold(&self) -> (r: u32)
        ensures
            r == self@.threshold,
    {
        self.confidence_threshold
    }

    /// Record a transition from `from` to `to`; nothing is recorded without
    /// `from`, nor once the bounds are reached.
    pub fn record_access(&mut self, from: Option<&str>, to: &str)
        ensures
            final(self)@ == (PredictorModel {
                patterns: record_spec(
                    old(self)@.patterns,
                    match from {
                        Some(f) => Some(f@),
                        None => None,
                    },
                    to@,
                ),
                ..old(self)@
            }),
    {
        let from_key = match from {
            Some(f) => f.to_string(),
            None => {
                return;
            },
        };
        let to_key = to.to_string();
        let ghost p0 = self@.patterns;
        let ghost fopt = match from {
            Some(f) => Some(f@),
            None => None::<Seq<char>>,
        };
        assert(fopt == Some(from_key@));
        proof {
            assert(pattern_keys(p0) =~= self.patterns@.map_values(|e: (String, Vec<(String, u32)>)| e.0@));
        }
        match position_in(&self.patterns, &from_key) {
            None => {
                if self.patterns.len() >= MAX_PREDICTOR_PATTERNS as usize {
                    return;
                }
                let mut ts: Vec<(String, u32)> = Vec::new();
                let ghost tv = to_key@;
                ts.push((to_key, 1));
                assert(trans_view(ts@) =~= seq![(tv, 1u32)]);
                let ghost fv = from_key@;
                self.patterns.push((from_key, ts));
                assert(self@.patterns =~= p0.push((fv, seq![(tv, 1u32)])));
            },
            Some(i) => {
                let (k, mut ts) = self.patterns.remove(i);
                let ghost t0 = trans_view(ts@);
                proof {
                    assert(p0[i as int] == (k@, t0));
                    assert(trans_keys(t0) =~= ts@.map_values(|e: (String, u32)| e.0@));
                    pattern_keys(p0).index_of_first_ensures(from_key@);
                    trans_keys(t0).index_of_first_ensures(to_key@);
                    assert(pattern_keys(p0)[i as int] == k@);
                }
                let ghost kv = k@;
                match position_in(&ts, &to_key) {
                    None => {
                        if ts.len() >= MAX_TRANSITIONS_PER_KEY as usize {
                            self.patterns.insert(i, (k, ts));
                            assert(self@.patterns =~= p0);
                            return;
                        }
                        let ghost tv = to_key@;
                        ts.push((to_key, 1));
                        assert(trans_view(ts@) =~= t0.push((tv, 1u32)));
                    },
                    Some(j) => {
                        let (tk, c) = ts.remove(j);
                        let ghost tkv = tk@;
                        let c2 = if c == u32::MAX {
                            c
                        } else {
                            c + 1
                        };
                        ts.insert(j, (tk, c2));
                        assert(t0[j as int] == (tkv, c));
                        assert(trans_view(ts@) =~= t0.update(j as int, (tkv, bump(c))));
                    },
                }
                let ghost t1 = trans_view(ts@);
                self.patterns.insert(i, (k, ts));
                assert(self@.patterns =~= p0.update(i as int, (kv, t1)));
                assert(kv == from_key@);
                assert(self@.patterns == record_spec(p0, fopt, to@));
            },
        }
    }

    /// Forget all transitions.
    pub fn clear(&mut self)
        ensures
            final(self)@.patterns.len() == 0,
            final(self)@.threshold == old(self)@.threshold,
    {
        self.patterns = Vec::new();
    }

    /// Number of source keys tracked.
    pub fn pattern_count(&self) -> (r: usize)
        ensures
            r == self@.patterns.len(),
    {
        self.patterns.len()
    }

    /// The transitions from `current` that reach the threshold (all of them,
    /// without `filter`), by count from high to low, and the total count of
    /// the transitions from `current`; none when nothing follows `current`.
    pub fn ranked_transitions(&self, current: &str, filter: bool) -> (r: (Vec<(String, u32)>, u128))
        ensures
            r.1 == total_count(transitions_of(self@.patterns, current@)),
            by_count_desc(trans_view(r.0@)),
            trans_view(r.0@).to_multiset() == kept(transitions_of(self@.patterns, current@), filter, self@.threshold).to_multiset(),
    {
        let key = current.to_string();
        let ghost p = self@.patterns;
        proof {
            assert(pattern_keys(p) =~= self.patterns@.map_values(|e: (String, Vec<(String, u32)>)| e.0@));
        }
        let ts = match position_in(&self.patterns, &key) {
            Some(i) => {
                assert(p[i as int].1 == trans_view(self.patterns@[i as int].1@));
                &self.patterns[i].1
            },
            None => {
                let out: Vec<(String, u32)> = Vec::new();
                proof {
                    reveal(Seq::filter);
                    assert(trans_view(out@) =~= Seq::<(Seq<char>, u32)>::empty());
                    broadcast use vstd::seq_lib::group_to_multiset_ensures;
                    assert(trans_view(out@).to_multiset().len() == 0);
                    assert(kept(Seq::<(Seq<char>, u32)>::empty(), filter, self@.threshold) =~= Seq::<(Seq<char>, u32)>::empty());
                }
                return (out, 0);
            },
        };
        let ghost t = trans_view(ts@);
        assert(t == transitions_of(p, current@));
        let n = ts.len();
        assert(t.len() == n);
        let total = sum_counts(ts);
        proof {
            lemma_total_bound(t);
        }
        if total == 0 {
            let out: Vec<(String, u32)> = Vec::new();
            proof {
                assert(trans_view(out@) =~= Seq::<(Seq<char>, u32)>::empty());
                assert(kept(t, filter, self@.threshold) =~= Seq::<(Seq<char>, u32)>::empty());
            }
            return (out, 0);
        }
        let threshold: u128 = if filter {
            self.confidence_threshold as u128
        } else {
            0
        };
        let ghost f = |e: (Seq<char>, u32)| !filter || confident(e.1, total_count(t), self@.threshold);
        let mut out: Vec<(String, u32)> = Vec::new();
        let mut i: usize = 0;
        proof {
            reveal(Seq::filter);
            assert(t.subrange(0, 0).filter(f) =~= Seq::<(Seq<char>, u32)>::empty());
            assert(trans_view(out@) =~= Seq::<(Seq<char>, u32)>::empty());
        }
        while i < ts.len()
            invariant
                i <= ts@.len(),
                t == trans_view(ts@),
                total == total_count(t),
                total < 0x1_0000_0000_0000_0000_0000_0000,
                threshold == (if filter { self@.threshold as u128 } else { 0u128 }),
                f == (|e: (Seq<char>, u32)| !filter || confident(e.1, total_count(t), self@.threshold)),
                by_count_desc(trans_view(out@)),
                trans_view(out@).to_multiset() == t.subrange(0, i as int).filter(f).to_multiset(),
            decreases ts@.len() - i,
        {
            let c = ts[i].1;
            assert(t[i as int] == (ts@[i as int].0@, c));
            proof {
                reveal(Seq::filter);
                assert(t.subrange(0, i + 1).drop_last() =~= t.subrange(0, i as int));
            }
            assert((threshold as int) * (total as int) < 0x1_0000_0000 * 0x1_0000_0000_0000_0000_0000_0000) by (nonlinear_arith)
                requires
                    threshold < 0x1_0000_0000,
                    total < 0x1_0000_0000_0000_0000_0000_0000,
            ;
            let pass = (c as u128) * 1000 >= threshold * total;
            proof {
                if filter {
                    assert(pass == confident(c, total_count(t), self@.threshold));
                } else {
                    assert(threshold == 0);
                }
            }
            let ghost before = trans_view(out@);
            proof {
                assert(f(t[i as int]) == pass);
                let prev = t.subrange(0, i as int).filter(f);
                if pass {
                    assert(t.subrange(0, i + 1).filter(f) == prev.push(t[i as int]));
                } else {
                    assert(t.subrange(0, i + 1).filter(f) == prev);
                }
            }
            if pass {
                let k = ts[i].0.clone();
                assert(k@ == ts@[i as int].0@);
                insert_by_count(&mut out, k, c);
                proof {
                    broadcast use vstd::seq_lib::group_to_multiset_ensures;
                    let prev = t.subrange(0, i as int).filter(f);
                    assert(prev.push(t[i as int]).to_multiset() =~= prev.to_multiset().insert(t[i as int]));
                }
            }
            i = i + 1;
        }
        proof {
            assert(t.subrange(0, i as int) =~= t);
        }
        (out, total)
    }
}

impl Default for AccessPredictor {
    fn default() -> (r: AccessPredictor)
        ensures
            r@.patterns.len() == 0,
            r@.threshold == 700,
    {
        AccessPredictor::new()
    }
}

proof fn lemma_total_bound(t: TransModel)
    ensures
        total_count(t) <= t.len() * 0x1_0000_0000,
    decreases t.len(),
{
    if t.len() > 0 {
        lemma_total_bound(t.drop_last());
    }
}

/// The total count of a list of transitions.
fn sum_counts(ts: &Vec<(String, u32)>) -> (r: u128)
    ensures
        r == total_count(trans_view(ts@)),
{
    let ghost t = trans_view(ts@);
    let mut total: u128 = 0;
    let mut i: usize = 0;
    assert(t.subrange(0, 0) =~= Seq::<(Seq<char>, u32)>::empty());
    while i < ts.len()
        invariant
            i <= ts@.len(),
            t == trans_view(ts@),
            total == total_count(t.subrange(0, i as int)),
            total <= i * 0x1_0000_0000,
        decreases ts@.len() - i,
    {
        assert(t.subrange(0, i + 1).drop_last() =~= t.subrange(0, i as int));
        assert(t[i as int].1 == ts@[i as int].1);
        total = total + ts[i].1 as u128;
        i = i + 1;
    }
    assert(t.subrange(0, i as int) =~= t);
    total
}

/// Inserting before the first smaller count keeps the counts in order.
proof fn lemma_insert_keeps_order(o: TransModel, j: int, x: (Seq<char>, u32))
    requires
        by_count_desc(o),
        0 <= j <= o.len(),
        forall|a: int| 0 <= a < j ==> o[a].1 >= x.1,
        j < o.len() ==> o[j].1 < x.1,
    ensures
        by_count_desc(o.insert(j, x)),
{
    let n = o.insert(j, x);
    assert forall|a: int, b: int| 0 <= a < b < n.len() implies n[a].1 >= n[b].1 by {
        if b < j {
            assert(n[a] == o[a] && n[b] == o[b]);
        } else if b == j {
            assert(n[a] == o[a]);
        } else if a < j {
            assert(n[a] == o[a] && n[b] == o[b - 1]);
            assert(o[j].1 >= o[b - 1].1);
        } else if a == j {
            assert(n[b] == o[b - 1]);
            assert(o[j].1 >= o[b - 1].1);
        } else {
            assert(n[a] == o[a - 1] && n[b] == o[b - 1]);
        }
    }
}

/// Inserting an element adds it to the multiset of elements.
proof fn lemma_insert_multiset(o: TransModel, j: int, x: (Seq<char>, u32))
    requires
        0 <= j <= o.len(),
    ensures
        o.insert(j, x).to_multiset() == o.to_multiset().insert(x),
{
    broadcast use vstd::seq_lib::group_to_multiset_ensures;
    let n = o.insert(j, x);
    assert(n.remove(j) =~= o);
    assert(n[j] == x);
    assert(n.remove(j).to_multiset() =~= n.to_multiset().remove(x));
    assert(n.contains(x));
    assert(n.to_multiset().count(x) > 0);
    assert(n.to_multiset() =~= o.to_multiset().insert(x));
}

/// Insert `(key, count)` before the first entry with a smaller count.
fn insert_by_count(out: &mut Vec<(String, u32)>, key: String, count: u32)
    requires
        by_count_desc(trans_view(old(out)@)),
    ensures
        by_count_desc(trans_view(final(out)@)),
        trans_view(final(out)@).to_multiset() == trans_view(old(out)@).to_multiset().insert((key@, count)),
{
    let ghost o = trans_view(out@);
    let mut j: usize = 0;
    while j < out.len() && out[j].1 >= count
        invariant
            j <= out@.len(),
            o == trans_view(out@),
            forall|a: int| 0 <= a < j ==> o[a].1 >= count,
        decreases out@.len() - j,
    {
        j = j + 1;
    }
    let ghost kv = key@;
    proof {
        lemma_insert_keeps_order(o, j as int, (kv, count));
        lemma_insert_multiset(o, j as int, (kv, count));
    }
    out.insert(j, (key, count));
    assert(trans_view(out@) =~= o.insert(j as int, (kv, count)));
}


/// Whether a pattern table is within the predictor's bounds.
pub open spec fn within_bounds(p: PatternModel) -> bool {
    &&& p.len() <= MAX_PREDICTOR_PATTERNS
    &&& forall|i: int| 0 <= i < p.len() ==> (#[trigger] p[i]).1.len() <= MAX_TRANSITIONS_PER_KEY
}

/// Recording a transition never takes the predictor past its bounds.
pub proof fn law_record_bounded(p: PatternModel, from: Option<Seq<char>>, to: Seq<char>)
    requires
        within_bounds(p),
    ensures
        within_bounds(record_spec(p, from, to)),
{
    let r = record_spec(p, from, to);
    if let Some(f) = from {
        if let Some(i) = pattern_keys(p).index_of_first(f) {
            pattern_keys(p).index_of_first_ensures(f);
            assert forall|k: int| 0 <= k < r.len() implies (#[trigger] r[k]).1.len() <= MAX_TRANSITIONS_PER_KEY by {
                if k != i {
                    assert(r[k] == p[k]);
                } else {
                    let ts = p[i].1;
                    assert(ts.len() <= MAX_TRANSITIONS_PER_KEY);
                    trans_keys(ts).index_of_first_ensures(to);
                    match trans_keys(ts).index_of_first(to) {
                        None => {
                            if ts.len() < MAX_TRANSITIONS_PER_KEY {
                                assert(r[k].1 == ts.push((to, 1u32)));
                            } else {
                                assert(r == p);
                            }
                        },
                        Some(j) => {
                            assert(r[k].1 == ts.update(j, (to, bump(ts[j].1))));
                        },
                    }
                }
            }
        } else {
            assert forall|k: int| 0 <= k < r.len() implies (#[trigger] r[k]).1.len() <= MAX_TRANSITIONS_PER_KEY by {
                if k < p.len() {
                    assert(r[k] == p[k]);
                } else {
                    assert(r == p.push((f, seq![(to, 1u32)])));
                    assert(r[k].1 == seq![(to, 1u32)]);
                }
            }
        }
    }
}

} // verus!
