//! Name-keyed tables kept as vectors of pairs, in the order their entries were made.
use vstd::prelude::*;

verus! {

/// The entries of a table, each name and value taken by its view.
pub open spec fn keyed<V: View>(s: Seq<(String, V)>) -> Seq<(Seq<char>, V::V)> {
    s.map_values(|e: (String, V)| (e.0@, e.1@))
}

/// The index of the last entry named `k`, or -1 if there is none.
pub open spec fn find_last<W>(s: Seq<(Seq<char>, W)>, k: Seq<char>) -> int
    decreases s.len(),
{
    if s.len() == 0 {
        -1
    } else if s.last().0 == k {
        s.len() - 1
    } else {
        find_last(s.drop_last(), k)
    }
}

/// The value stored under `k`.
pub open spec fn assoc_get<W>(s: Seq<(Seq<char>, W)>, k: Seq<char>) -> Option<W> {
    let i = find_last(s, k);
    if i < 0 {
        None
    } else {
        Some(s[i].1)
    }
}

/// The table with `k` set to `v`: the entry named `k` is replaced in place, or a new one
/// is added at the end.
pub open spec fn assoc_put<W>(s: Seq<(Seq<char>, W)>, k: Seq<char>, v: W) -> Seq<(Seq<char>, W)> {
    let i = find_last(s, k);
    if i < 0 {
        s.push((k, v))
    } else {
        s.update(i, (k, v))
    }
}

pub proof fn lemma_find_last_range<W>(s: Seq<(Seq<char>, W)>, k: Seq<char>)
    ensures
        -1 <= find_last(s, k) < s.len(),
        find_last(s, k) >= 0 ==> s[find_last(s, k)].0 == k,
        forall|j: int| find_last(s, k) < j < s.len() ==> s[j].0 != k,
    decreases s.len(),
{
    if s.len() > 0 && s.last().0 != k {
        let t = s.drop_last();
        lemma_find_last_range(t, k);
        assert forall|j: int| find_last(s, k) < j < s.len() implies s[j].0 != k by {
            if j < s.len() - 1 {
                assert(s[j] == t[j]);
            }
        }
    }
}

pub proof fn lemma_find_last_is<W>(s: Seq<(Seq<char>, W)>, k: Seq<char>, i: int)
    requires
        -1 <= i < s.len(),
        i >= 0 ==> s[i].0 == k,
        forall|j: int| i < j < s.len() ==> s[j].0 != k,
    ensures
        find_last(s, k) == i,
    decreases s.len(),
{
    if s.len() > 0 && i < s.len() - 1 {
        lemma_find_last_is(s.drop_last(), k, i);
    }
}

/// Setting `k` and then reading it gives the value set.
pub proof fn lemma_get_put<W>(s: Seq<(Seq<char>, W)>, k: Seq<char>, v: W)
    ensures
        assoc_get(assoc_put(s, k, v), k) == Some(v),
{
    lemma_find_last_range(s, k);
    let i = find_last(s, k);
    let t = assoc_put(s, k, v);
    if i < 0 {
        lemma_find_last_is(t, k, s.len() as int);
    } else {
        lemma_find_last_is(t, k, i);
    }
}

/// Setting `k` leaves every other name as it was.
pub proof fn lemma_get_put_other<W>(s: Seq<(Seq<char>, W)>, k: Seq<char>, v: W, o: Seq<char>)
    requires
        o != k,
    ensures
        assoc_get(assoc_put(s, k, v), o) == assoc_get(s, o),
{
    lemma_find_last_range(s, k);
    lemma_find_last_range(s, o);
    let t = assoc_put(s, k, v);
    lemma_find_last_is(t, o, find_last(s, o));
}

/// Where the entry named `k` is, if there is one.
pub fn find_key<V: View>(v: &Vec<(String, V)>, k: &str) -> (r: Option<usize>)
    ensures
        match r {
            Some(i) => i as int == find_last(keyed(v@), k@),
            None => find_last(keyed(v@), k@) == -1,
        },
{
    let key = k.to_owned();
    let ghost s = keyed(v@);
    let mut i: usize = v.len();
    while i > 0
        invariant
            i <= v@.len(),
            s == keyed(v@),
            key@ == k@,
            forall|j: int| i <= j < v@.len() ==> s[j].0 != k@,
        decreases i,
    {
        if v[i - 1].0 == key {
            proof {
                lemma_find_last_is(s, k@, i - 1);
            }
            return Some(i - 1);
        }
        i = i - 1;
    }
    proof {
        lemma_find_last_is(s, k@, -1);
    }
    None
}

/// Sets the entry named `k` to `x`, replacing it in place or adding it at the end.
pub fn assoc_set<V: View>(v: &mut Vec<(String, V)>, k: &String, x: V)
    ensures
        keyed(final(v)@) == assoc_put(keyed(old(v)@), k@, x@),
{
    let found = find_key(v, k.as_str());
    proof {
        lemma_find_last_range(keyed(v@), k@);
    }
    let ghost xv = x@;
    match found {
        Some(i) => {
            v.set(i, (k.clone(), x));
            assert(keyed(v@) =~= assoc_put(keyed(old(v)@), k@, xv));
        },
        None => {
            v.push((k.clone(), x));
            assert(keyed(v@) =~= assoc_put(keyed(old(v)@), k@, xv));
        },
    }
}

} // verus!
