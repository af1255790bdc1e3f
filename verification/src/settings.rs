//! What the app remembers between runs (the league of each game, whether
//! it was pinned by hand, the notes and the map verdicts), and when a
//! change must be written back. Writing the file is the caller's part: each
//! change answers whether it is owed.
use vstd::prelude::*;

use crate::game::{GamePair, GameVersion, LastLeague};
use crate::text::{chars_of, is_blank, is_blank_chars, owned, same};

verus! {

/// The remembered part of the settings.
pub struct Remembered {
    pub last_league: LastLeague,
    pub pinned_leagues: GamePair<bool>,
    pub notes: String,
    pub map_verdicts: Vec<(String, String)>,
}

/// Verdicts as the text they hold: each a matcher and its decisions.
pub open spec fn verdicts_view(v: Seq<(String, String)>) -> Seq<(Seq<char>, Seq<char>)> {
    v.map_values(|p: (String, String)| (p.0@, p.1@))
}

/// `i` is where `matcher` is first kept.
pub open spec fn first_kept_at(v: Seq<(Seq<char>, Seq<char>)>, matcher: Seq<char>, i: int) -> bool {
    &&& 0 <= i < v.len()
    &&& v[i].0 == matcher
    &&& forall|k: int| 0 <= k < i ==> v[k].0 != matcher
}

/// The verdicts after `decisions` is remembered for `matcher`: the first
/// entry for it takes them, or a new entry goes last; a blank matcher is
/// not kept.
pub open spec fn verdicts_after(
    v: Seq<(Seq<char>, Seq<char>)>,
    matcher: Seq<char>,
    decisions: Seq<char>,
) -> Seq<(Seq<char>, Seq<char>)> {
    if is_blank(matcher) {
        v
    } else if exists|i: int| first_kept_at(v, matcher, i) {
        v.update(choose|i: int| first_kept_at(v, matcher, i), (matcher, decisions))
    } else {
        v.push((matcher, decisions))
    }
}

/// No matcher is kept twice.
pub open spec fn matchers_unique(v: Seq<(Seq<char>, Seq<char>)>) -> bool {
    forall|i: int, j: int| 0 <= i < j < v.len() ==> v[i].0 != v[j].0
}

/// The league offered for `game`: the one remembered, unless it is empty.
pub open spec fn offered_league(last: LastLeague, game: GameVersion) -> Option<Seq<char>> {
    if last.league_for(game).len() == 0 {
        None
    } else {
        Some(last.league_for(game))
    }
}

proof fn lemma_first_unique(v: Seq<(Seq<char>, Seq<char>)>, matcher: Seq<char>, i: int)
    requires
        first_kept_at(v, matcher, i),
    ensures
        forall|j: int| first_kept_at(v, matcher, j) ==> j == i,
{
    assert forall|j: int| first_kept_at(v, matcher, j) implies j == i by {
        if j < i {
            assert(v[j].0 != matcher);
        } else if j > i {
            assert(v[i].0 != matcher);
        }
    }
}

impl Remembered {
    /// The notes as they were last written.
    pub fn notes(&self) -> (r: String)
        ensures
            r@ == self.notes@,
    {
        owned(self.notes.as_str())
    }

    /// Keeps `notes`; they are owed to the file when they differ from what
    /// was kept.
    pub fn remember_notes(&mut self, notes: &str) -> (save: bool)
        ensures
            save == (old(self).notes@ != notes@),
            final(self).notes@ == notes@,
            final(self).last_league == old(self).last_league,
            final(self).pinned_leagues == old(self).pinned_leagues,
            final(self).map_verdicts@ == old(self).map_verdicts@,
    {
        let kept = chars_of(self.notes.as_str());
        let given = chars_of(notes);
        if same(kept.as_slice(), given.as_slice()) {
            return false;
        }
        self.notes = owned(notes);
        true
    }

    /// The map verdicts, in the order they were first given.
    pub fn map_verdicts(&self) -> (r: Vec<(String, String)>)
        ensures
            verdicts_view(r@) == verdicts_view(self.map_verdicts@),
    {
        let mut out: Vec<(String, String)> = Vec::new();
        let mut i: usize = 0;
        while i < self.map_verdicts.len()
            invariant
                i <= self.map_verdicts@.len(),
                verdicts_view(out@) == verdicts_view(self.map_verdicts@.take(i as int)),
            decreases self.map_verdicts@.len() - i,
        {
            let m = owned(self.map_verdicts[i].0.as_str());
            let d = owned(self.map_verdicts[i].1.as_str());
            let ghost prev = out@;
            out.push((m, d));
            proof {
                assert(self.map_verdicts@.take(i + 1) =~= self.map_verdicts@.take(i as int).push(
                    self.map_verdicts@[i as int],
                ));
                assert(out@ =~= prev.push((m, d)));
                assert(verdicts_view(out@) =~= verdicts_view(prev).push((m@, d@)));
                assert(verdicts_view(self.map_verdicts@.take(i + 1)) =~= verdicts_view(
                    self.map_verdicts@.take(i as int),
                ).push((self.map_verdicts@[i as int].0@, self.map_verdicts@[i as int].1@)));
            }
            i = i + 1;
        }
        assert(self.map_verdicts@.take(i as int) =~= self.map_verdicts@);
        out
    }

    /// Remembers `decisions` for the map modifier `matcher`, in place of
    /// what was kept for it. A blank matcher is not kept and owes nothing;
    /// any other is owed to the file.
    pub fn remember_verdict(&mut self, matcher: &str, decisions: &str) -> (save: bool)
        ensures
            save == !is_blank(matcher@),
            verdicts_view(final(self).map_verdicts@) == verdicts_after(
                verdicts_view(old(self).map_verdicts@),
                matcher@,
                decisions@,
            ),
            final(self).last_league == old(self).last_league,
            final(self).pinned_leagues == old(self).pinned_leagues,
            final(self).notes@ == old(self).notes@,
    {
        let mc = chars_of(matcher);
        if is_blank_chars(mc.as_slice()) {
            return false;
        }
        let ghost before = verdicts_view(self.map_verdicts@);
        let mut i: usize = 0;
        while i < self.map_verdicts.len()
            invariant
                i <= self.map_verdicts@.len(),
                mc@ == matcher@,
                !is_blank(matcher@),
                before == verdicts_view(self.map_verdicts@),
                before == verdicts_view(old(self).map_verdicts@),
                self.last_league == old(self).last_league,
                self.pinned_leagues == old(self).pinned_leagues,
                self.notes@ == old(self).notes@,
                forall|k: int| 0 <= k < i ==> before[k].0 != matcher@,
            decreases self.map_verdicts@.len() - i,
        {
            let kc = chars_of(self.map_verdicts[i].0.as_str());
            if same(kc.as_slice(), mc.as_slice()) {
                proof {
                    assert(first_kept_at(before, matcher@, i as int));
                    lemma_first_unique(before, matcher@, i as int);
                }
                self.map_verdicts.set(i, (owned(matcher), owned(decisions)));
                proof {
                    assert(verdicts_view(self.map_verdicts@) =~= before.update(
                        i as int,
                        (matcher@, decisions@),
                    ));
                }
                return true;
            }
            i = i + 1;
        }
        self.map_verdicts.push((owned(matcher), owned(decisions)));
        proof {
            assert(verdicts_view(self.map_verdicts@) =~= before.push((matcher@, decisions@)));
        }
        true
    }

    /// The league remembered for `game`, or none when it is empty.
    pub fn last_league(&self, game: GameVersion) -> (r: Option<String>)
        ensures
            match r {
                Some(s) => offered_league(self.last_league, game) == Some(s@),
                None => offered_league(self.last_league, game) is None,
            },
    {
        let known = self.last_league.get(game);
        if known.unicode_len() == 0 {
            None
        } else {
            Some(owned(known))
        }
    }

    /// Remembers `league` for `game`. An empty league, or the one already
    /// kept, changes nothing and owes nothing.
    pub fn remember_league(&mut self, game: GameVersion, league: &str) -> (save: bool)
        ensures
            save == (league@.len() > 0 && old(self).last_league.league_for(game) != league@),
            save ==> final(self).last_league.league_for(game) == league@,
            !save ==> final(self).last_league == old(self).last_league,
            forall|other: GameVersion|
                other != game ==> final(self).last_league.league_for(other) == old(
                    self,
                ).last_league.league_for(other),
            final(self).pinned_leagues == old(self).pinned_leagues,
            final(self).notes@ == old(self).notes@,
            final(self).map_verdicts@ == old(self).map_verdicts@,
    {
        if league.unicode_len() == 0 {
            return false;
        }
        let known = chars_of(self.last_league.get(game));
        let given = chars_of(league);
        if same(known.as_slice(), given.as_slice()) {
            return false;
        }
        self.last_league.set(game, league);
        true
    }

    /// Whether the league of `game` was pinned by hand.
    pub fn league_is_pinned(&self, game: GameVersion) -> (r: bool)
        ensures
            r == self.pinned_leagues.at(game),
    {
        *self.pinned_leagues.get(game)
    }

    /// Pins the league of `game` by hand, or hands it back to the trade
    /// site; owed to the file when it changes.
    pub fn pin_league(&mut self, game: GameVersion, pinned: bool) -> (save: bool)
        ensures
            save == (old(self).pinned_leagues.at(game) != pinned),
            final(self).pinned_leagues.at(game) == pinned,
            forall|other: GameVersion|
                other != game ==> final(self).pinned_leagues.at(other) == old(
                    self,
                ).pinned_leagues.at(other),
            final(self).last_league == old(self).last_league,
            final(self).notes@ == old(self).notes@,
            final(self).map_verdicts@ == old(self).map_verdicts@,
    {
        if *self.pinned_leagues.get(game) == pinned {
            return false;
        }
        self.pinned_leagues.set(game, pinned);
        true
    }
}

/// Remembering a verdict keeps one entry per map modifier: a modifier
/// marked again has its verdict replaced, never a second entry.
pub proof fn a_modifier_is_kept_once(
    v: Seq<(Seq<char>, Seq<char>)>,
    matcher: Seq<char>,
    decisions: Seq<char>,
)
    requires
        matchers_unique(v),
    ensures
        matchers_unique(verdicts_after(v, matcher, decisions)),
        !is_blank(matcher) ==> verdicts_after(v, matcher, decisions).contains((matcher, decisions)),
        !is_blank(matcher) && (exists|i: int| 0 <= i < v.len() && v[i].0 == matcher) ==> verdicts_after(
            v,
            matcher,
            decisions,
        ).len() == v.len(),
{
    if !is_blank(matcher) {
        if exists|i: int| 0 <= i < v.len() && v[i].0 == matcher {
            let j = choose|i: int| 0 <= i < v.len() && v[i].0 == matcher;
            assert(first_kept_at(v, matcher, j)) by {
                assert forall|k: int| 0 <= k < j implies v[k].0 != matcher by {
                    if v[k].0 == matcher {
                        assert(v[k].0 == v[j].0);
                    }
                }
            }
            lemma_first_unique(v, matcher, j);
            let r = v.update(j, (matcher, decisions));
            assert(r[j] == (matcher, decisions));
        } else {
            let r = v.push((matcher, decisions));
            assert(r[v.len() as int] == (matcher, decisions));
            if exists|i: int| first_kept_at(v, matcher, i) {
                let i = choose|i: int| first_kept_at(v, matcher, i);
                assert(0 <= i < v.len() && v[i].0 == matcher);
            }
        }
    }
}

/// A league remembered for one game is never offered for the other, and
/// the league of a game is offered back as it was remembered.
pub proof fn a_league_stays_with_its_game(last: LastLeague, game: GameVersion, league: Seq<char>, after: LastLeague)
    requires
        league.len() > 0,
        after.league_for(game) == league,
        forall|other: GameVersion| other != game ==> after.league_for(other) == last.league_for(other),
    ensures
        offered_league(after, game) == Some(league),
        forall|other: GameVersion|
            other != game ==> offered_league(after, other) == offered_league(last, other),
{
}

} // verus!
