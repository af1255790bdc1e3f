//! What the game log has said about the session: the league, the character
//! and the area.
use vstd::prelude::*;

use crate::game_log::{league_from_whisper, league_of, LogEvent, LogEventView};
use crate::text::{chars_of, is_blank, is_blank_chars, same, string_of, trim, trim_seq};

verus! {

/// Where the league came from.
#[derive(Debug, Clone, Copy, PartialEq, Eq, Structural)]
pub enum Source {
    Config,
    Log,
}

/// What is known of the session so far.
#[derive(Debug, Clone, Default, PartialEq)]
pub struct Session {
    league: Option<(String, Source)>,
    character: Option<String>,
    character_level: Option<u32>,
    area: Option<String>,
}

/// A [`Session`] as characters.
pub struct SessionView {
    pub league: Option<(Seq<char>, Source)>,
    pub character: Option<Seq<char>>,
    pub character_level: Option<u32>,
    pub area: Option<Seq<char>>,
}

pub open spec fn opt_chars(o: Option<String>) -> Option<Seq<char>> {
    match o {
        Some(s) => Some(s@),
        None => None,
    }
}

impl View for Session {
    type V = SessionView;

    closed spec fn view(&self) -> SessionView {
        SessionView {
            league: match self.league {
                Some((name, source)) => Some((name@, source)),
                None => None,
            },
            character: opt_chars(self.character),
            character_level: self.character_level,
            area: opt_chars(self.area),
        }
    }
}

/// The session after `league` is read from the log, and whether it changed:
/// a configured league is never replaced, and the same league is no news.
pub open spec fn learn(s: SessionView, league: Seq<char>) -> (SessionView, bool) {
    if s.league matches Some((_, src)) && src == Source::Config {
        (s, false)
    } else if s.league matches Some((name, _)) && name == league {
        (s, false)
    } else {
        (SessionView { league: Some((league, Source::Log)), ..s }, true)
    }
}

/// The session after `e`, and whether anything changed.
pub open spec fn step(s: SessionView, e: LogEventView) -> (SessionView, bool) {
    match e {
        LogEventView::EnteredArea { name } => if s.area == Some(name) {
            (s, false)
        } else {
            (SessionView { area: Some(name), ..s }, true)
        },
        LogEventView::LevelUp { character, level, .. } => {
            let changed = s.character != Some(character) || s.character_level != Some(level);
            (SessionView { character: Some(character), character_level: Some(level), ..s }, changed)
        },
        LogEventView::Whisper { body, .. } => match league_of(body) {
            Some(league) => learn(s, league),
            None => (s, false),
        },
    }
}

/// The session after all of `events`, in order.
pub open spec fn step_all(s: SessionView, events: Seq<LogEventView>) -> SessionView
    decreases events.len(),
{
    if events.len() == 0 {
        s
    } else {
        step(step_all(s, events.drop_last()), events.last()).0
    }
}

/// Whether any of `events`, applied in order, changed the session.
pub open spec fn any_change(s: SessionView, events: Seq<LogEventView>) -> bool
    decreases events.len(),
{
    if events.len() == 0 {
        false
    } else {
        any_change(s, events.drop_last()) || step(step_all(s, events.drop_last()), events.last()).1
    }
}

fn same_text(a: &String, b: &String) -> (r: bool)
    ensures
        r == (a@ == b@),
{
    let x = chars_of(a.as_str());
    let y = chars_of(b.as_str());
    same(x.as_slice(), y.as_slice())
}

impl Session {
    /// A session that starts from the configured league; a blank one is
    /// unset.
    pub fn from_config(league: &str) -> (s: Self)
        ensures
            s@.league == if is_blank(league@) {
                None
            } else {
                Some((trim_seq(league@), Source::Config))
            },
            s@.character is None,
            s@.character_level is None,
            s@.area is None,
    {
        let cs = chars_of(league);
        let league = if is_blank_chars(cs.as_slice()) {
            None
        } else {
            let t = trim(cs.as_slice());
            Some((string_of(t.as_slice()), Source::Config))
        };
        Session { league, character: None, character_level: None, area: None }
    }

    pub fn league(&self) -> (r: Option<&str>)
        ensures
            match self@.league {
                Some((name, _)) => r is Some && r.unwrap()@ == name,
                None => r is None,
            },
    {
        match &self.league {
            Some((name, _)) => Some(name.as_str()),
            None => None,
        }
    }

    pub fn league_source(&self) -> (r: Option<Source>)
        ensures
            r == match self@.league {
                Some((_, source)) => Some(source),
                None => None::<Source>,
            },
    {
        match &self.league {
            Some((_, source)) => Some(*source),
            None => None,
        }
    }

    pub fn character(&self) -> (r: Option<&str>)
        ensures
            match self@.character {
                Some(name) => r is Some && r.unwrap()@ == name,
                None => r is None,
            },
    {
        match &self.character {
            Some(name) => Some(name.as_str()),
            None => None,
        }
    }

    pub fn character_level(&self) -> (r: Option<u32>)
        ensures
            r == self@.character_level,
    {
        self.character_level
    }

    pub fn area(&self) -> (r: Option<&str>)
        ensures
            match self@.area {
                Some(name) => r is Some && r.unwrap()@ == name,
                None => r is None,
            },
    {
        match &self.area {
            Some(name) => Some(name.as_str()),
            None => None,
        }
    }

    /// Takes in one event; says whether the session changed.
    pub fn apply(&mut self, event: &LogEvent) -> (changed: bool)
        ensures
            (final(self)@, changed) == step(old(self)@, event@),
    {
        match event {
            LogEvent::EnteredArea { name } => {
                if let Some(area) = &self.area {
                    if same_text(area, name) {
                        return false;
                    }
                }
                self.area = Some(name.clone());
                true
            },
            LogEvent::LevelUp { character, level, .. } => {
                let same_character = match &self.character {
                    Some(c) => same_text(c, character),
                    None => false,
                };
                let same_level = match self.character_level {
                    Some(l) => l == *level,
                    None => false,
                };
                let changed = !same_character || !same_level;
                self.character = Some(character.clone());
                self.character_level = Some(*level);
                changed
            },
            LogEvent::Whisper { body, .. } => {
                let league = match league_from_whisper(body.as_str()) {
                    Some(league) => league,
                    None => return false,
                };
                self.learn_league(league)
            },
        }
    }

    fn learn_league(&mut self, league: String) -> (changed: bool)
        ensures
            (final(self)@, changed) == learn(old(self)@, league@),
    {
        match &self.league {
            Some((_, Source::Config)) => return false,
            Some((name, _)) => {
                if same_text(name, &league) {
                    return false;
                }
            },
            None => {},
        }
        self.league = Some((league, Source::Log));
        true
    }

    /// Takes in events in order; says whether any of them changed the
    /// session.
    pub fn apply_all(&mut self, events: &[LogEvent]) -> (changed: bool)
        ensures
            final(self)@ == step_all(old(self)@, events@.map_values(|e: LogEvent| e@)),
            changed == any_change(old(self)@, events@.map_values(|e: LogEvent| e@)),
    {
        let ghost start = self@;
        let ghost all = events@.map_values(|e: LogEvent| e@);
        let mut changed = false;
        let mut i: usize = 0;
        while i < events.len()
            invariant
                i <= events.len(),
                all == events@.map_values(|e: LogEvent| e@),
                self@ == step_all(start, all.take(i as int)),
                changed == any_change(start, all.take(i as int)),
            decreases events.len() - i,
        {
            proof {
                assert(all.take(i as int + 1).drop_last() == all.take(i as int));
                assert(all.take(i as int + 1).last() == events@[i as int]@);
            }
            let c = self.apply(&events[i]);
            changed = changed || c;
            i = i + 1;
        }
        assert(all.take(events.len() as int) == all);
        changed
    }
}

/// `apply` says a thing changed exactly when the session is different
/// afterwards.
pub proof fn change_is_reported_exactly(s: SessionView, e: LogEventView)
    ensures
        step(s, e).1 <==> step(s, e).0 != s,
{
    match e {
        LogEventView::EnteredArea { name } => {
            if s.area != Some(name) {
                assert(step(s, e).0.area != s.area);
            }
        },
        LogEventView::LevelUp { character, level, .. } => {
            if s.character != Some(character) {
                assert(step(s, e).0.character != s.character);
            } else if s.character_level != Some(level) {
                assert(step(s, e).0.character_level != s.character_level);
            }
        },
        LogEventView::Whisper { body, .. } => {
            if let Some(league) = league_of(body) {
                if learn(s, league).1 {
                    assert(learn(s, league).0.league != s.league);
                }
            }
        },
    }
}

/// A league that came from the configuration is never replaced by what
/// the log says.
pub proof fn configured_league_is_kept(s: SessionView, e: LogEventView)
    requires
        s.league matches Some((_, src)) && src == Source::Config,
    ensures
        step(s, e).0.league == s.league,
{
}

/// The same event twice in a row is news only the first time.
pub proof fn repeating_an_event_changes_nothing(s: SessionView, e: LogEventView)
    ensures
        !step(step(s, e).0, e).1,
        step(step(s, e).0, e).0 == step(s, e).0,
{
}

} // verus!
