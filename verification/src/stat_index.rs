//! Finding a stat by the text of one of its matchers, as the loaded tables
//! index them: stat by stat and matcher by matcher, each matcher claiming
//! its text and then its advanced text, and the first to claim a text
//! keeping it.
use vstd::prelude::*;

use crate::keyed::{keyed_sorted, keys_of, lemma_map_of_dom, lemma_map_of_insert, locate, map_of};
use crate::text::{chars_of, owned};

verus! {

/// A matcher as the index reads it: its text, and the advanced text it
/// also answers to, if any.
#[derive(Debug, Clone, PartialEq, Eq)]
pub struct MatcherText {
    pub string: String,
    pub advanced: Option<String>,
}

/// The texts a matcher claims, with where it stands: its text, then its
/// advanced text.
pub open spec fn matcher_claims(m: MatcherText, at: (usize, usize)) -> Seq<(Seq<char>, (usize, usize))> {
    match m.advanced {
        Some(a) => seq![(m.string@, at), (a@, at)],
        None => seq![(m.string@, at)],
    }
}

/// The texts the matchers of stat `stat` claim, matcher by matcher.
pub open spec fn stat_claims(matchers: Seq<MatcherText>, stat: usize) -> Seq<(Seq<char>, (usize, usize))>
    decreases matchers.len(),
{
    if matchers.len() == 0 {
        Seq::empty()
    } else {
        stat_claims(matchers.drop_last(), stat) + matcher_claims(
            matchers.last(),
            (stat, (matchers.len() - 1) as usize),
        )
    }
}

/// The texts every matcher of `stats` claims, stat by stat.
pub open spec fn all_claims(stats: Seq<Vec<MatcherText>>) -> Seq<(Seq<char>, (usize, usize))>
    decreases stats.len(),
{
    if stats.len() == 0 {
        Seq::empty()
    } else {
        all_claims(stats.drop_last()) + stat_claims(stats.last()@, (stats.len() - 1) as usize)
    }
}

/// The index the claims make: each text to where it was first claimed.
pub open spec fn first_claims(claims: Seq<(Seq<char>, (usize, usize))>) -> Map<Seq<char>, (usize, usize)>
    decreases claims.len(),
{
    if claims.len() == 0 {
        Map::empty()
    } else {
        let earlier = first_claims(claims.drop_last());
        if earlier.dom().contains(claims.last().0) {
            earlier
        } else {
            earlier.insert(claims.last().0, claims.last().1)
        }
    }
}

/// The first claim keeps a text: a text is indexed exactly when some
/// matcher claims it, and it leads to the matcher that claimed it before
/// any other did.
pub proof fn the_first_claim_keeps_a_text(claims: Seq<(Seq<char>, (usize, usize))>, text: Seq<char>)
    ensures
        first_claims(claims).dom().contains(text) <==> exists|t: int|
            0 <= t < claims.len() && (#[trigger] claims[t]).0 == text,
        first_claims(claims).dom().contains(text) ==> exists|t: int|
            0 <= t < claims.len() && #[trigger] claims[t] == (text, first_claims(claims)[text]) && forall|
                u: int,
            |
                0 <= u < t ==> claims[u].0 != text,
    decreases claims.len(),
{
    if claims.len() > 0 {
        let rest = claims.drop_last();
        the_first_claim_keeps_a_text(rest, text);
        let n = claims.len() - 1;
        if exists|t: int| 0 <= t < rest.len() && (#[trigger] rest[t]).0 == text {
            let t = choose|t: int| 0 <= t < rest.len() && (#[trigger] rest[t]).0 == text;
            assert(claims[t] == rest[t]);
        }
        if first_claims(rest).dom().contains(text) {
            let t = choose|t: int|
                0 <= t < rest.len() && #[trigger] rest[t] == (text, first_claims(rest)[text]) && forall|
                    u: int,
                |
                    0 <= u < t ==> rest[u].0 != text;
            assert(claims[t] == rest[t]);
            assert forall|u: int| 0 <= u < t implies claims[u].0 != text by {
                assert(claims[u] == rest[u]);
            }
        } else if claims[n].0 == text {
            assert forall|u: int| 0 <= u < n implies claims[u].0 != text by {
                assert(claims[u] == rest[u]);
            }
        } else {
            assert forall|t: int| 0 <= t < claims.len() implies (#[trigger] claims[t]).0 != text by {
                if t < n {
                    assert(claims[t] == rest[t]);
                }
            }
        }
    }
}

/// Stats found by their matchers' texts.
pub struct MatcherIndex {
    entries: Vec<(String, (usize, usize))>,
    stat_count: usize,
}

impl MatcherIndex {
    #[verifier::type_invariant]
    spec fn sorted(&self) -> bool {
        keyed_sorted(self.entries@)
    }

    /// Each indexed text and where it leads: the stat, and its matcher.
    pub closed spec fn index(&self) -> Map<Seq<char>, (usize, usize)> {
        map_of(self.entries@)
    }

    pub closed spec fn spec_stat_count(&self) -> usize {
        self.stat_count
    }

    /// The stats, each its matchers, indexed by what they claim.
    pub fn from_matchers(stats: &[Vec<MatcherText>]) -> (t: Self)
        ensures
            t.index() == first_claims(all_claims(stats@)),
            t.spec_stat_count() == stats@.len(),
    {
        let mut entries: Vec<(String, (usize, usize))> = Vec::new();
        let ghost mut done: Seq<(Seq<char>, (usize, usize))> = Seq::empty();
        let mut i: usize = 0;
        while i < stats.len()
            invariant
                i <= stats@.len(),
                keyed_sorted(entries@),
                done == all_claims(stats@.take(i as int)),
                map_of(entries@) == first_claims(done),
            decreases stats@.len() - i,
        {
            let matchers = &stats[i];
            let ghost base = done;
            let mut j: usize = 0;
            while j < matchers.len()
                invariant
                    i < stats@.len(),
                    *matchers == stats@[i as int],
                    j <= matchers@.len(),
                    keyed_sorted(entries@),
                    done == base + stat_claims(matchers@.take(j as int), i),
                    map_of(entries@) == first_claims(done),
                decreases matchers@.len() - j,
            {
                let m = &matchers[j];
                proof {
                    assert(matchers@.take(j + 1).drop_last() =~= matchers@.take(j as int));
                }
                Self::claim(&mut entries, m.string.as_str(), (i, j), Ghost(done));
                proof {
                    done = done.push((m.string@, (i, j)));
                }
                match &m.advanced {
                    Some(a) => {
                        Self::claim(&mut entries, a.as_str(), (i, j), Ghost(done));
                        proof {
                            done = done.push((a@, (i, j)));
                        }
                    },
                    None => {},
                }
                proof {
                    assert(done =~= base + stat_claims(matchers@.take(j + 1), i));
                }
                j = j + 1;
            }
            proof {
                assert(matchers@.take(j as int) =~= matchers@);
                assert(stats@.take(i + 1).drop_last() =~= stats@.take(i as int));
                assert(done =~= all_claims(stats@.take(i + 1)));
            }
            i = i + 1;
        }
        assert(stats@.take(i as int) =~= stats@);
        MatcherIndex { entries, stat_count: stats.len() }
    }

    /// Claims `text` for `at`, unless it was claimed already.
    fn claim(
        entries: &mut Vec<(String, (usize, usize))>,
        text: &str,
        at: (usize, usize),
        Ghost(done): Ghost<Seq<(Seq<char>, (usize, usize))>>,
    )
        requires
            keyed_sorted(old(entries)@),
            map_of(old(entries)@) == first_claims(done),
        ensures
            keyed_sorted(final(entries)@),
            map_of(final(entries)@) == first_claims(done.push((text@, at))),
    {
        let tc = chars_of(text);
        let ghost before = entries@;
        proof {
            assert(done.push((text@, at)).drop_last() =~= done);
            lemma_map_of_dom(before, text@);
        }
        match locate(entries, tc.as_slice()) {
            Ok(k) => {
                proof {
                    assert(keys_of(before)[k as int] == text@);
                }
            },
            Err(k) => {
                let key = owned(text);
                proof {
                    lemma_map_of_insert(before, k as int, key, at);
                    if keys_of(before).contains(text@) {
                        let t = choose|t: int| 0 <= t < keys_of(before).len() && keys_of(before)[t] == text@;
                        assert(before[t].0@ == text@);
                        crate::order::lemma_lex_irreflexive(text@);
                    }
                }
                entries.insert(k, (key, at));
            },
        }
    }

    /// How many stats were indexed.
    pub fn stat_count(&self) -> (n: usize)
        ensures
            n == self.spec_stat_count(),
    {
        self.stat_count
    }

    /// Where the stat whose matcher claims `template` stands, and that
    /// matcher: the first to claim it.
    pub fn stat_by_matcher(&self, template: &str) -> (r: Option<(usize, usize)>)
        ensures
            r == self.index().get(template@),
    {
        proof {
            use_type_invariant(self);
            lemma_map_of_dom(self.entries@, template@);
        }
        let tc = chars_of(template);
        match locate(&self.entries, tc.as_slice()) {
            Ok(k) => {
                proof {
                    crate::keyed::lemma_map_of_at(self.entries@, k as int);
                }
                Some(self.entries[k].1)
            },
            Err(k) => {
                proof {
                    if keys_of(self.entries@).contains(template@) {
                        let t = choose|t: int|
                            0 <= t < keys_of(self.entries@).len() && keys_of(self.entries@)[t]
                                == template@;
                        assert(self.entries@[t].0@ == template@);
                        crate::order::lemma_lex_irreflexive(template@);
                    }
                }
                None
            },
        }
    }
}

} // verus!
