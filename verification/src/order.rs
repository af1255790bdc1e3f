//! The order `String` sorts by, over characters, and a sorted set of strings
//! built on it.
use vstd::prelude::*;

use crate::text::{chars_of, owned};

verus! {

/// `a` sorts before `b`: the order of `String`, which is the order of
/// code points, character by character.
pub open spec fn lex_lt(a: Seq<char>, b: Seq<char>) -> bool
    decreases a.len(),
{
    if a.len() == 0 {
        b.len() > 0
    } else if b.len() == 0 {
        false
    } else if a[0] != b[0] {
        a[0] < b[0]
    } else {
        lex_lt(a.drop_first(), b.drop_first())
    }
}

pub proof fn lemma_lex_irreflexive(a: Seq<char>)
    ensures
        !lex_lt(a, a),
    decreases a.len(),
{
    if a.len() > 0 {
        lemma_lex_irreflexive(a.drop_first());
    }
}

pub proof fn lemma_lex_total(a: Seq<char>, b: Seq<char>)
    ensures
        a != b ==> lex_lt(a, b) || lex_lt(b, a),
        !(lex_lt(a, b) && lex_lt(b, a)),
    decreases a.len(),
{
    if a.len() > 0 && b.len() > 0 {
        lemma_lex_total(a.drop_first(), b.drop_first());
        if a[0] == b[0] && a.drop_first() == b.drop_first() {
            assert(a == seq![a[0]] + a.drop_first());
            assert(b == seq![b[0]] + b.drop_first());
        }
    } else if a.len() == 0 && b.len() == 0 {
        assert(a == b);
    }
}

pub proof fn lemma_lex_transitive(a: Seq<char>, b: Seq<char>, c: Seq<char>)
    requires
        lex_lt(a, b),
        lex_lt(b, c),
    ensures
        lex_lt(a, c),
    decreases a.len(),
{
    if a.len() > 0 && b.len() > 0 && c.len() > 0 {
        if a[0] == b[0] && b[0] == c[0] {
            lemma_lex_transitive(a.drop_first(), b.drop_first(), c.drop_first());
        }
    }
}

/// Whether `a` sorts before `b`.
pub fn lex_less(a: &[char], b: &[char]) -> (r: bool)
    ensures
        r == lex_lt(a@, b@),
{
    let mut i: usize = 0;
    assert(a@.skip(0) == a@);
    assert(b@.skip(0) == b@);
    while i < a.len() && i < b.len() && a[i] == b[i]
        invariant
            i <= a.len(),
            i <= b.len(),
            lex_lt(a@, b@) == lex_lt(a@.skip(i as int), b@.skip(i as int)),
        decreases a.len() - i,
    {
        proof {
            let x = a@.skip(i as int);
            let y = b@.skip(i as int);
            assert(x.drop_first() == a@.skip(i + 1));
            assert(y.drop_first() == b@.skip(i + 1));
        }
        i = i + 1;
    }
    if i == a.len() {
        i < b.len()
    } else if i == b.len() {
        false
    } else {
        a[i] < b[i]
    }
}

/// Every string sorts strictly before the ones after it.
pub open spec fn strictly_sorted(s: Seq<Seq<char>>) -> bool {
    forall|i: int, j: int| 0 <= i < j < s.len() ==> lex_lt(#[trigger] s[i], #[trigger] s[j])
}

pub open spec fn strings_view(v: Seq<String>) -> Seq<Seq<char>> {
    v.map_values(|s: String| s@)
}

/// Puts `item` into the sorted, duplicate-free `v`, where it belongs.
pub fn insert_sorted(v: &mut Vec<String>, item: &[char])
    requires
        strictly_sorted(strings_view(old(v)@)),
    ensures
        strictly_sorted(strings_view(final(v)@)),
        forall|h: Seq<char>|
            strings_view(final(v)@).contains(h) <==> (strings_view(old(v)@).contains(h) || h
                == item@),
{
    let ghost before = strings_view(v@);
    let mut p: usize = 0;
    while p < v.len() && lex_less(chars_of(v[p].as_str()).as_slice(), item)
        invariant
            p <= v.len(),
            v@ == old(v)@,
            before == strings_view(v@),
            strictly_sorted(before),
            forall|t: int| 0 <= t < p ==> lex_lt(#[trigger] before[t], item@),
        decreases v.len() - p,
    {
        p = p + 1;
    }
    if p < v.len() {
        let here = chars_of(v[p].as_str());
        if crate::text::same(here.as_slice(), item) {
            assert(before[p as int] == item@);
            return;
        }
    }
    proof {
        if p < v.len() {
            assert(!lex_lt(before[p as int], item@));
            lemma_lex_total(before[p as int], item@);
            assert(lex_lt(item@, before[p as int]));
            assert forall|t: int| p < t < before.len() implies lex_lt(item@, #[trigger] before[t]) by {
                lemma_lex_transitive(item@, before[p as int], before[t]);
            }
        }
    }
    v.insert(p, crate::text::string_of(item));
    proof {
        let after = strings_view(v@);
        assert(after == before.insert(p as int, item@));
        assert forall|i: int, j: int| 0 <= i < j < after.len() implies lex_lt(
            #[trigger] after[i],
            #[trigger] after[j],
        ) by {
            if i < p && j == p {
            } else if i == p && j > p {
                assert(after[j] == before[j - 1]);
                if j - 1 > p {
                    lemma_lex_transitive(item@, before[p as int], before[j - 1]);
                }
            } else if i < p && j > p {
                assert(after[j] == before[j - 1]);
                if j - 1 >= p {
                    lemma_lex_transitive(before[i], item@, after[j]);
                }
            } else if j < p {
            } else {
                assert(after[i] == before[i - 1]);
                assert(after[j] == before[j - 1]);
            }
        }
        assert forall|h: Seq<char>| after.contains(h) <==> (before.contains(h) || h == item@) by {
            if after.contains(h) {
                let k = choose|k: int| 0 <= k < after.len() && after[k] == h;
                if k < p {
                    assert(before[k] == h);
                } else if k > p {
                    assert(before[k - 1] == h);
                }
            }
            if before.contains(h) {
                let k = choose|k: int| 0 <= k < before.len() && before[k] == h;
                if k < p {
                    assert(after[k] == h);
                } else {
                    assert(after[k + 1] == h);
                }
            }
            if h == item@ {
                assert(after[p as int] == h);
            }
        }
    }
}

/// Whether `v` holds `item`.
pub fn holds_string(v: &Vec<String>, item: &[char]) -> (r: bool)
    ensures
        r == strings_view(v@).contains(item@),
{
    let mut i: usize = 0;
    while i < v.len()
        invariant
            i <= v.len(),
            forall|t: int| 0 <= t < i ==> strings_view(v@)[t] != item@,
        decreases v.len() - i,
    {
        let here = chars_of(v[i].as_str());
        if crate::text::same(here.as_slice(), item) {
            assert(strings_view(v@)[i as int] == item@);
            return true;
        }
        i = i + 1;
    }
    false
}

/// A copy of `s`.
pub fn copy_string(s: &String) -> (r: String)
    ensures
        r@ == s@,
{
    owned(s.as_str())
}

} // verus!
