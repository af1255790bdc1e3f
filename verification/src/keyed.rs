//! A map kept as a vector of entries sorted by their `String` keys, each
//! key once: the order a `BTreeMap<String, _>` walks its entries in.
use vstd::prelude::*;

use crate::order::{lemma_lex_irreflexive, lemma_lex_total, lemma_lex_transitive, lex_less, lex_lt, strictly_sorted};
use crate::text::{chars_of, same};

verus! {

/// The keys of `v`, in order.
pub open spec fn keys_of<V>(v: Seq<(String, V)>) -> Seq<Seq<char>> {
    v.map_values(|p: (String, V)| p.0@)
}

/// Each key sorts strictly before the next, so none appears twice.
pub open spec fn keyed_sorted<V>(v: Seq<(String, V)>) -> bool {
    strictly_sorted(keys_of(v))
}

/// The map the entries of `v` make, a later entry winning on a repeated
/// key.
pub open spec fn map_of<V>(v: Seq<(String, V)>) -> Map<Seq<char>, V>
    decreases v.len(),
{
    if v.len() == 0 {
        Map::empty()
    } else {
        map_of(v.drop_last()).insert(v.last().0@, v.last().1)
    }
}

pub proof fn lemma_map_of_dom<V>(v: Seq<(String, V)>, k: Seq<char>)
    ensures
        map_of(v).dom().contains(k) <==> keys_of(v).contains(k),
    decreases v.len(),
{
    if v.len() > 0 {
        let w = v.drop_last();
        lemma_map_of_dom(w, k);
        assert(keys_of(w) == keys_of(v).drop_last());
        assert(keys_of(v)[v.len() - 1] == v.last().0@);
        if keys_of(v).contains(k) {
            let i = choose|i: int| 0 <= i < keys_of(v).len() && keys_of(v)[i] == k;
            if i < v.len() - 1 {
                assert(keys_of(w)[i] == k);
            }
        }
        if keys_of(w).contains(k) {
            let i = choose|i: int| 0 <= i < keys_of(w).len() && keys_of(w)[i] == k;
            assert(keys_of(v)[i] == k);
        }
    }
}

/// In sorted entries, the map holds at each key the value of the one
/// entry with that key.
pub proof fn lemma_map_of_at<V>(v: Seq<(String, V)>, i: int)
    requires
        keyed_sorted(v),
        0 <= i < v.len(),
    ensures
        map_of(v).dom().contains(v[i].0@),
        map_of(v)[v[i].0@] == v[i].1,
    decreases v.len(),
{
    if i < v.len() - 1 {
        let w = v.drop_last();
        assert(keys_of(w) == keys_of(v).drop_last());
        lemma_map_of_at(w, i);
        assert(keys_of(v)[i] == v[i].0@);
        assert(keys_of(v)[v.len() - 1] == v.last().0@);
        assert(lex_lt(keys_of(v)[i], keys_of(v)[v.len() - 1]));
        lemma_lex_irreflexive(v[i].0@);
    }
}

proof fn lemma_sorted_prefix<V>(v: Seq<(String, V)>)
    requires
        keyed_sorted(v),
        v.len() > 0,
    ensures
        keyed_sorted(v.drop_last()),
        !keys_of(v.drop_last()).contains(v.last().0@),
{
    assert(keys_of(v.drop_last()) == keys_of(v).drop_last());
    if keys_of(v.drop_last()).contains(v.last().0@) {
        let i = choose|i: int|
            0 <= i < keys_of(v.drop_last()).len() && keys_of(v.drop_last())[i] == v.last().0@;
        assert(keys_of(v)[i] == v.last().0@);
        assert(keys_of(v)[v.len() - 1] == v.last().0@);
        lemma_lex_irreflexive(v.last().0@);
    }
}

/// Replacing the value of one entry replaces it in the map.
pub proof fn lemma_map_of_update<V>(v: Seq<(String, V)>, i: int, x: V)
    requires
        keyed_sorted(v),
        0 <= i < v.len(),
    ensures
        keyed_sorted(v.update(i, (v[i].0, x))),
        map_of(v.update(i, (v[i].0, x))) == map_of(v).insert(v[i].0@, x),
    decreases v.len(),
{
    let w = v.update(i, (v[i].0, x));
    assert(keys_of(w) == keys_of(v));
    if i == v.len() - 1 {
        assert(w.drop_last() == v.drop_last());
        lemma_sorted_prefix(v);
        assert(map_of(v) == map_of(v.drop_last()).insert(v.last().0@, v.last().1));
        assert(map_of(w) =~= map_of(v).insert(v[i].0@, x));
    } else {
        lemma_sorted_prefix(v);
        assert(w.drop_last() == v.drop_last().update(i, (v[i].0, x)));
        assert(keys_of(v.drop_last()) == keys_of(v).drop_last());
        lemma_map_of_update(v.drop_last(), i, x);
        assert(keys_of(v)[i] == v[i].0@);
        assert(keys_of(v)[v.len() - 1] == v.last().0@);
        assert(lex_lt(v[i].0@, v.last().0@));
        lemma_lex_irreflexive(v[i].0@);
        assert(map_of(w) =~= map_of(v).insert(v[i].0@, x));
    }
}

/// Putting a new key where it sorts adds it to the map.
pub proof fn lemma_map_of_insert<V>(v: Seq<(String, V)>, i: int, k: String, x: V)
    requires
        keyed_sorted(v),
        0 <= i <= v.len(),
        forall|t: int| 0 <= t < i ==> lex_lt(#[trigger] v[t].0@, k@),
        forall|t: int| i <= t < v.len() ==> lex_lt(k@, #[trigger] v[t].0@),
    ensures
        keyed_sorted(v.insert(i, (k, x))),
        map_of(v.insert(i, (k, x))) == map_of(v).insert(k@, x),
    decreases v.len(),
{
    let w = v.insert(i, (k, x));
    let kw = keys_of(w);
    assert(kw == keys_of(v).insert(i, k@));
    assert forall|a: int, b: int| 0 <= a < b < kw.len() implies lex_lt(
        #[trigger] kw[a],
        #[trigger] kw[b],
    ) by {
        let kv = keys_of(v);
        if a < i && b == i {
            assert(kw[a] == v[a].0@);
        } else if a == i && b > i {
            assert(kw[b] == v[b - 1].0@);
        } else if a < i && b > i {
            assert(kw[a] == v[a].0@);
            assert(kw[b] == v[b - 1].0@);
            lemma_lex_transitive(v[a].0@, k@, v[b - 1].0@);
        } else if b < i {
            assert(kw[a] == kv[a]);
            assert(kw[b] == kv[b]);
        } else {
            assert(kw[a] == kv[a - 1]);
            assert(kw[b] == kv[b - 1]);
        }
    }
    if i == v.len() {
        assert(w.drop_last() == v);
    } else {
        lemma_sorted_prefix(v);
        assert(w.drop_last() == v.drop_last().insert(i, (k, x)));
        assert(keys_of(v.drop_last()) == keys_of(v).drop_last());
        lemma_map_of_insert(v.drop_last(), i, k, x);
        assert(lex_lt(k@, v.last().0@));
        lemma_lex_irreflexive(k@);
        assert(w.last() == v.last());
        assert(map_of(w) =~= map_of(v).insert(k@, x));
    }
}

/// Where `key` stands in the sorted entries: `Ok` with the index of its
/// entry, or `Err` with the index a new entry for it would take.
pub fn locate<V>(v: &Vec<(String, V)>, key: &[char]) -> (r: Result<usize, usize>)
    requires
        keyed_sorted(v@),
    ensures
        match r {
            Ok(i) => i < v@.len() && v@[i as int].0@ == key@,
            Err(i) => i <= v@.len() && (forall|t: int|
                0 <= t < i ==> lex_lt(#[trigger] v@[t].0@, key@)) && (forall|t: int|
                i <= t < v@.len() ==> lex_lt(key@, #[trigger] v@[t].0@)),
        },
{
    let ghost ks = keys_of(v@);
    let mut p: usize = 0;
    while p < v.len() && lex_less(chars_of(v[p].0.as_str()).as_slice(), key)
        invariant
            p <= v.len(),
            ks == keys_of(v@),
            strictly_sorted(ks),
            forall|t: int| 0 <= t < p ==> lex_lt(#[trigger] v@[t].0@, key@),
        decreases v.len() - p,
    {
        p = p + 1;
    }
    if p < v.len() {
        let here = chars_of(v[p].0.as_str());
        if same(here.as_slice(), key) {
            return Ok(p);
        }
        proof {
            assert(!lex_lt(v@[p as int].0@, key@));
            lemma_lex_total(v@[p as int].0@, key@);
            assert forall|t: int| p <= t < v@.len() implies lex_lt(key@, #[trigger] v@[t].0@) by {
                if t > p {
                    assert(ks[p as int] == v@[p as int].0@);
                    assert(ks[t] == v@[t].0@);
                    lemma_lex_transitive(key@, v@[p as int].0@, v@[t].0@);
                }
            }
        }
    }
    Err(p)
}

} // verus!
