use vstd::prelude::*;

verus! {

/// The map held by an association list of string keys: the first entry of a key wins.
pub open spec fn assoc_map<V: View>(s: Seq<(String, V)>) -> Map<Seq<char>, V::V>
    decreases s.len(),
{
    if s.len() == 0 {
        Map::empty()
    } else {
        let m = assoc_map(s.drop_last());
        if m.contains_key(s.last().0@) {
            m
        } else {
            m.insert(s.last().0@, s.last().1@)
        }
    }
}

/// The keys of an association list, in order.
pub open spec fn assoc_keys<V>(s: Seq<(String, V)>) -> Seq<Seq<char>> {
    s.map_values(|e: (String, V)| e.0@)
}

/// Index of the first entry whose key is `k`.
pub open spec fn is_first_key<V>(s: Seq<(String, V)>, k: Seq<char>, i: int) -> bool {
    &&& 0 <= i < s.len()
    &&& s[i].0@ == k
    &&& forall|j: int| 0 <= j < i ==> s[j].0@ != k
}

pub proof fn lemma_assoc_map<V: View>(s: Seq<(String, V)>)
    ensures
        forall|k: Seq<char>|
            #[trigger] assoc_map(s).contains_key(k) <==> exists|i: int|
                0 <= i < s.len() && s[i].0@ == k,
        forall|k: Seq<char>, i: int| #[trigger]
            is_first_key(s, k, i) ==> assoc_map(s)[k] == s[i].1@,
    decreases s.len(),
{
    if s.len() > 0 {
        let t = s.drop_last();
        let last = s.last();
        lemma_assoc_map(t);
        assert(assoc_map(s) == if assoc_map(t).contains_key(last.0@) {
            assoc_map(t)
        } else {
            assoc_map(t).insert(last.0@, last.1@)
        });
        assert forall|k: Seq<char>|
            #[trigger] assoc_map(s).contains_key(k) <==> exists|i: int|
                0 <= i < s.len() && s[i].0@ == k by {
            if assoc_map(s).contains_key(k) {
                if assoc_map(t).contains_key(k) {
                    let i = choose|i: int| 0 <= i < t.len() && t[i].0@ == k;
                    assert(0 <= i < s.len() && s[i] == t[i]);
                } else {
                    assert(k == last.0@);
                    assert(s[s.len() - 1].0@ == k);
                }
            }
            if exists|i: int| 0 <= i < s.len() && s[i].0@ == k {
                let i = choose|i: int| 0 <= i < s.len() && s[i].0@ == k;
                if i < s.len() - 1 {
                    assert(t[i] == s[i]);
                    assert(assoc_map(t).contains_key(k));
                }
            }
        }
        assert forall|k: Seq<char>, i: int| #[trigger]
            is_first_key(s, k, i) implies assoc_map(s)[k] == s[i].1@ by {
            if i < s.len() - 1 {
                assert forall|j: int| 0 <= j < i implies t[j].0@ != k by {
                    assert(t[j] == s[j]);
                }
                assert(t[i] == s[i]);
                assert(is_first_key(t, k, i));
            } else {
                if assoc_map(t).contains_key(k) {
                    let j = choose|j: int| 0 <= j < t.len() && t[j].0@ == k;
                    assert(s[j] == t[j]);
                }
            }
        }
    }
}

/// Index of the first entry with key `k`.
pub fn assoc_index<V: View>(v: &Vec<(String, V)>, k: &String) -> (r: Option<usize>)
    ensures
        match r {
            Some(i) => is_first_key(v@, k@, i as int),
            None => forall|j: int| 0 <= j < v@.len() ==> v@[j].0@ != k@,
        },
{
    let mut i: usize = 0;
    while i < v.len()
        invariant
            i <= v@.len(),
            forall|j: int| 0 <= j < i ==> v@[j].0@ != k@,
        decreases v@.len() - i,
    {
        if v[i].0 == *k {
            return Some(i);
        }
        i = i + 1;
    }
    None
}

/// Look up the value of key `k`.
pub fn assoc_get<'a, V: View>(v: &'a Vec<(String, V)>, k: &String) -> (r: Option<&'a V>)
    ensures
        match r {
            Some(x) => assoc_map(v@).contains_key(k@) && assoc_map(v@)[k@] == x@,
            None => !assoc_map(v@).contains_key(k@),
        },
{
    proof {
        lemma_assoc_map(v@);
    }
    match assoc_index(v, k) {
        Some(i) => {
            assert(is_first_key(v@, k@, i as int));
            Some(&v[i].1)
        },
        None => None,
    }
}

/// Bind key `k` to `x`, replacing an earlier binding.
pub fn assoc_insert<V: View>(v: &mut Vec<(String, V)>, k: String, x: V)
    ensures
        assoc_map(final(v)@) == assoc_map(old(v)@).insert(k@, x@),
        assoc_keys(final(v)@) == if assoc_keys(old(v)@).contains(k@) {
            assoc_keys(old(v)@)
        } else {
            assoc_keys(old(v)@).push(k@)
        },
{
    let ghost s = v@;
    proof {
        lemma_assoc_map(s);
    }
    match assoc_index(v, &k) {
        Some(i) => {
            let ghost kv = k@;
            let ghost xv = x@;
            v.set(i, (k, x));
            let ghost t = v@;
            assert(assoc_keys(s)[i as int] == kv);
            assert(assoc_keys(t) =~= assoc_keys(s));
            proof {
                lemma_assoc_map(t);
                assert forall|key: Seq<char>|
                    #[trigger] assoc_map(t).contains_key(key) == assoc_map(s).insert(kv, xv).contains_key(key) by {
                    if exists|j: int| 0 <= j < s.len() && s[j].0@ == key {
                        let j = choose|j: int| 0 <= j < s.len() && s[j].0@ == key;
                        if j == i {
                            assert(t[j].0@ == key);
                        } else {
                            assert(t[j] == s[j]);
                        }
                    }
                    if exists|j: int| 0 <= j < t.len() && t[j].0@ == key {
                        let j = choose|j: int| 0 <= j < t.len() && t[j].0@ == key;
                        if j != i {
                            assert(t[j] == s[j]);
                        }
                    }
                }
                assert forall|key: Seq<char>| #[trigger] assoc_map(t).contains_key(key) implies
                    assoc_map(t)[key] == assoc_map(s).insert(kv, xv)[key] by {
                    let j = choose|j: int| 0 <= j < t.len() && t[j].0@ == key;
                    let f = first_index_of_key(t, key, j);
                    assert(is_first_key(t, key, f));
                    if key == kv {
                        assert(f == i) by {
                            if f < i {
                                assert(t[f] == s[f]);
                            } else if f > i {
                                assert(t[i as int].0@ == kv);
                            }
                        }
                    } else {
                        assert(f != i);
                        assert(is_first_key(s, key, f)) by {
                            assert(t[f] == s[f]);
                            assert forall|m: int| 0 <= m < f implies s[m].0@ != key by {
                                if m != i {
                                    assert(t[m] == s[m]);
                                }
                            }
                        }
                    }
                }
                assert(assoc_map(t) =~= assoc_map(s).insert(kv, xv));
            }
        },
        None => {
            let ghost kv = k@;
            let ghost xv = x@;
            v.push((k, x));
            proof {
                assert(v@.drop_last() =~= s);
                assert(!assoc_map(s).contains_key(kv));
                assert(assoc_keys(v@) =~= assoc_keys(s).push(kv));
                assert(!assoc_keys(s).contains(kv)) by {
                    if assoc_keys(s).contains(kv) {
                        let j = choose|j: int| 0 <= j < assoc_keys(s).len() && assoc_keys(s)[j] == kv;
                        assert(s[j].0@ == kv);
                    }
                }
            }
        },
    }
}

/// The first index of key `k`, given some index where it occurs.
pub proof fn first_index_of_key<V>(s: Seq<(String, V)>, k: Seq<char>, j: int) -> (f: int)
    requires
        0 <= j < s.len(),
        s[j].0@ == k,
    ensures
        is_first_key(s, k, f),
        f <= j,
    decreases j,
{
    if exists|m: int| 0 <= m < j && s[m].0@ == k {
        let m = choose|m: int| 0 <= m < j && s[m].0@ == k;
        first_index_of_key(s, k, m)
    } else {
        j
    }
}

/// Drop every binding of key `k`.
pub fn assoc_remove<V: View>(v: &mut Vec<(String, V)>, k: &String)
    ensures
        assoc_map(final(v)@) == assoc_map(old(v)@).remove(k@),
{
    let ghost s = v@;
    assert(s.len() == v.len());
    let mut kept: Vec<(String, V)> = Vec::new();
    let mut rest: Vec<(String, V)> = Vec::new();
    std::mem::swap(&mut rest, v);
    let ghost orig = rest@;
    let mut i: usize = 0;
    let ghost mut idx: Seq<int> = Seq::empty();
    while rest.len() > 0
        invariant
            orig == s,
            orig.len() <= usize::MAX,
            i + rest@.len() == orig.len(),
            rest@ == orig.subrange(i as int, orig.len() as int),
            kept@.len() == idx.len(),
            forall|a: int| 0 <= a < idx.len() ==> 0 <= #[trigger] idx[a] < i,
            forall|a: int, b: int| 0 <= a < b < idx.len() ==> #[trigger] idx[a] < #[trigger] idx[b],
            forall|a: int| 0 <= a < idx.len() ==> #[trigger] kept@[a] == orig[idx[a]],
            forall|a: int| 0 <= a < kept@.len() ==> #[trigger] kept@[a].0@ != k@,
            forall|j: int| 0 <= j < i && orig[j].0@ != k@ ==> exists|a: int| 0 <= a < idx.len() && #[trigger] idx[a] == j,
        decreases rest@.len(),
    {
        let e = rest.remove(0);
        assert(e == orig[i as int]);
        let ghost old_idx = idx;
        let ghost ii = i as int;
        if e.0 != *k {
            proof {
                idx = idx.push(i as int);
            }
            kept.push(e);
            assert(idx[idx.len() - 1] == i);
        }
        assert(rest@ =~= orig.subrange(i + 1, orig.len() as int));
        i = i + 1;
        assert forall|j: int| 0 <= j < i && orig[j].0@ != k@ implies exists|a: int|
            0 <= a < idx.len() && #[trigger] idx[a] == j by {
            if j < ii {
                let a = choose|a: int| 0 <= a < old_idx.len() && #[trigger] old_idx[a] == j;
                assert(idx[a] == j);
            } else {
                assert(idx[idx.len() - 1] == j);
            }
        }
    }
    *v = kept;
    let ghost t = v@;
    proof {
        lemma_assoc_map(s);
        lemma_assoc_map(t);
        assert forall|key: Seq<char>|
            #[trigger] assoc_map(t).contains_key(key) == assoc_map(s).remove(k@).contains_key(key) by {
            if exists|a: int| 0 <= a < t.len() && t[a].0@ == key {
                let a = choose|a: int| 0 <= a < t.len() && t[a].0@ == key;
                assert(s[idx[a]].0@ == key);
            }
            if key != k@ && exists|j: int| 0 <= j < s.len() && s[j].0@ == key {
                let j = choose|j: int| 0 <= j < s.len() && s[j].0@ == key;
                let a = choose|a: int| 0 <= a < idx.len() && #[trigger] idx[a] == j;
                assert(t[a].0@ == key);
            }
        }
        assert forall|key: Seq<char>| #[trigger] assoc_map(t).contains_key(key) implies
            assoc_map(t)[key] == assoc_map(s).remove(k@)[key] by {
            let a0 = choose|a: int| 0 <= a < t.len() && t[a].0@ == key;
            let a = first_index_of_key(t, key, a0);
            let j = idx[a];
            assert(s[j].0@ == key);
            assert(is_first_key(s, key, j)) by {
                assert forall|m: int| 0 <= m < j implies s[m].0@ != key by {
                    if s[m].0@ == key {
                        let b = choose|b: int| 0 <= b < idx.len() && #[trigger] idx[b] == m;
                        assert(b < a);
                        assert(t[b].0@ == key);
                    }
                }
            }
        }
        assert(assoc_map(t) =~= assoc_map(s).remove(k@));
    }
}

} // verus!
