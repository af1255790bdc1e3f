//! What the configuration declares at startup, and the bindings once
//! checked: which key does which job.
use vstd::prelude::*;

use crate::game::GameVersion;

verus! {

/// The game setting that means: detect the game that runs.
pub const AUTO_GAME: &'static str = "auto";

/// The settings as the configuration spells them.
#[derive(Debug, Default, Clone)]
pub struct Declared<'a> {
    pub game: &'a str,
    pub hotkey: &'a str,
    pub locked: &'a [&'a str],
    pub overlay: &'a str,
    pub commands: &'a str,
    pub searches: &'a str,
    pub links: &'a str,
}

/// The settings once checked: the game pinned, if any, and every binding.
/// `H` is a hotkey, `C` a chat command or stash search, `S` a site a link
/// opens.
#[derive(Debug, Clone, PartialEq, Eq)]
pub struct Validated<H, C, S> {
    pub game: Option<GameVersion>,
    pub hotkey: H,
    pub locked: Vec<H>,
    pub overlay: Option<H>,
    pub commands: Vec<(H, C)>,
    pub searches: Vec<(H, C)>,
    pub links: Vec<(H, S)>,
    pub network_disabled: bool,
}

/// The job a binding does when its key is pressed.
#[derive(Debug, Clone, Copy, PartialEq, Eq)]
pub enum Press<S> {
    Check,
    Locked,
    ToggleOverlay,
    Command { index: usize },
    StashSearch { index: usize },
    OpenLink { site: S },
}

/// The first elements of pairs.
pub open spec fn firsts<A, B>(pairs: Seq<(A, B)>) -> Seq<A> {
    pairs.map_values(|p: (A, B)| p.0)
}

/// An optional value as a sequence of none or one.
pub open spec fn optional<A>(o: Option<A>) -> Seq<A> {
    match o {
        Some(a) => seq![a],
        None => Seq::empty(),
    }
}

/// The game a run starts on: the one pinned, else Path of Exile 2.
pub open spec fn starting_game_of(game: Option<GameVersion>) -> GameVersion {
    match game {
        Some(g) => g,
        None => GameVersion::Poe2,
    }
}

impl<H, C, S> Validated<H, C, S> {
    /// Every key bound, in the order the jobs are numbered: the price check,
    /// the locked checks, the overlay toggle, the chat commands, the stash
    /// searches and the links.
    pub open spec fn binding_keys(&self) -> Seq<H> {
        seq![self.hotkey] + self.locked@ + optional(self.overlay) + firsts(self.commands@) + firsts(
            self.searches@,
        ) + firsts(self.links@)
    }

    /// Where the chat commands start among the bindings.
    pub open spec fn commands_start(&self) -> int {
        1 + self.locked@.len() + if self.overlay is Some {
            1int
        } else {
            0int
        }
    }

    pub open spec fn searches_start(&self) -> int {
        self.commands_start() + self.commands@.len()
    }

    pub open spec fn links_start(&self) -> int {
        self.searches_start() + self.searches@.len()
    }

    /// The job of binding `b`: the group its key stands in among
    /// [`Self::binding_keys`], and its place in that group; a binding past
    /// the last does the price check.
    pub open spec fn role(&self, b: int) -> Press<S> {
        if 1 <= b <= self.locked@.len() {
            Press::Locked
        } else if self.overlay is Some && b == 1 + self.locked@.len() {
            Press::ToggleOverlay
        } else if self.commands_start() <= b < self.searches_start() {
            Press::Command { index: (b - self.commands_start()) as usize }
        } else if self.searches_start() <= b < self.links_start() {
            Press::StashSearch { index: (b - self.searches_start()) as usize }
        } else if self.links_start() <= b < self.links_start() + self.links@.len() {
            Press::OpenLink { site: self.links@[b - self.links_start()].1 }
        } else {
            Press::Check
        }
    }

    pub fn starting_game(&self) -> (g: GameVersion)
        ensures
            g == starting_game_of(self.game),
    {
        match self.game {
            Some(g) => g,
            None => GameVersion::Poe2,
        }
    }

    /// What pressing binding `binding` does.
    pub fn role_of(&self, binding: usize) -> (p: Press<S>) where S: Copy
        ensures
            p == self.role(binding as int),
    {
        if binding == 0 {
            return Press::Check;
        }
        if binding <= self.locked.len() {
            return Press::Locked;
        }
        let after_locked = binding - self.locked.len() - 1;
        if self.overlay.is_some() && after_locked == 0 {
            return Press::ToggleOverlay;
        }
        let command = if self.overlay.is_some() {
            after_locked - 1
        } else {
            after_locked
        };
        if command < self.commands.len() {
            return Press::Command { index: command };
        }
        let search = command - self.commands.len();
        if search < self.searches.len() {
            return Press::StashSearch { index: search };
        }
        let k = search - self.searches.len();
        if k < self.links.len() {
            Press::OpenLink { site: self.links[k].1 }
        } else {
            Press::Check
        }
    }
}

impl<H: Clone, C, S> Validated<H, C, S> {
    /// Every key bound, each a clone of the key kept, in the order of
    /// [`Self::binding_keys`].
    pub fn every_hotkey(&self) -> (r: Vec<H>)
        ensures
            r@.len() == self.binding_keys().len(),
            forall|i: int| 0 <= i < r@.len() ==> cloned(self.binding_keys()[i], #[trigger] r@[i]),
    {
        let ghost keys = self.binding_keys();
        let mut out: Vec<H> = Vec::new();
        out.push(self.hotkey.clone());
        let ghost mut done: Seq<H> = seq![self.hotkey];
        assert(forall|i: int| 0 <= i < out@.len() ==> cloned(done[i], #[trigger] out@[i]));
        let mut i: usize = 0;
        while i < self.locked.len()
            invariant
                i <= self.locked@.len(),
                done == seq![self.hotkey] + self.locked@.take(i as int),
                out@.len() == done.len(),
                forall|j: int| 0 <= j < out@.len() ==> cloned(done[j], #[trigger] out@[j]),
            decreases self.locked@.len() - i,
        {
            out.push(self.locked[i].clone());
            proof {
                assert(self.locked@.take(i + 1) =~= self.locked@.take(i as int).push(self.locked@[i as int]));
                done = done.push(self.locked@[i as int]);
            }
            i = i + 1;
        }
        assert(self.locked@.take(i as int) =~= self.locked@);
        match &self.overlay {
            Some(key) => {
                out.push(key.clone());
                proof {
                    done = done.push(*key);
                }
            },
            None => {},
        }
        assert(done =~= seq![self.hotkey] + self.locked@ + optional(self.overlay));
        let mut i: usize = 0;
        let ghost base = done;
        while i < self.commands.len()
            invariant
                i <= self.commands@.len(),
                done == base + firsts(self.commands@).take(i as int),
                out@.len() == done.len(),
                forall|j: int| 0 <= j < out@.len() ==> cloned(done[j], #[trigger] out@[j]),
            decreases self.commands@.len() - i,
        {
            out.push(self.commands[i].0.clone());
            proof {
                assert(firsts(self.commands@).take(i + 1) =~= firsts(self.commands@).take(i as int).push(
                    self.commands@[i as int].0,
                ));
                done = done.push(self.commands@[i as int].0);
            }
            i = i + 1;
        }
        assert(firsts(self.commands@).take(i as int) =~= firsts(self.commands@));
        let mut i: usize = 0;
        let ghost base = done;
        while i < self.searches.len()
            invariant
                i <= self.searches@.len(),
                done == base + firsts(self.searches@).take(i as int),
                out@.len() == done.len(),
                forall|j: int| 0 <= j < out@.len() ==> cloned(done[j], #[trigger] out@[j]),
            decreases self.searches@.len() - i,
        {
            out.push(self.searches[i].0.clone());
            proof {
                assert(firsts(self.searches@).take(i + 1) =~= firsts(self.searches@).take(i as int).push(
                    self.searches@[i as int].0,
                ));
                done = done.push(self.searches@[i as int].0);
            }
            i = i + 1;
        }
        assert(firsts(self.searches@).take(i as int) =~= firsts(self.searches@));
        let mut i: usize = 0;
        let ghost base = done;
        while i < self.links.len()
            invariant
                i <= self.links@.len(),
                done == base + firsts(self.links@).take(i as int),
                out@.len() == done.len(),
                forall|j: int| 0 <= j < out@.len() ==> cloned(done[j], #[trigger] out@[j]),
            decreases self.links@.len() - i,
        {
            out.push(self.links[i].0.clone());
            proof {
                assert(firsts(self.links@).take(i + 1) =~= firsts(self.links@).take(i as int).push(
                    self.links@[i as int].0,
                ));
                done = done.push(self.links@[i as int].0);
            }
            i = i + 1;
        }
        assert(firsts(self.links@).take(i as int) =~= firsts(self.links@));
        assert(done =~= keys);
        out
    }
}

/// Every binding knows which job it does: pressing the key at place `b`
/// of [`Validated::binding_keys`] does the job of the entry that key came
/// from, and a place past the last does the price check.
pub proof fn every_binding_knows_which_job_it_does<H, C, S>(v: Validated<H, C, S>, b: int)
    requires
        0 <= b,
    ensures
        b < v.binding_keys().len() ==> match v.role(b) {
            Press::Check => b == 0 && v.binding_keys()[b] == v.hotkey,
            Press::Locked => 1 <= b <= v.locked@.len() && v.binding_keys()[b] == v.locked@[b - 1],
            Press::ToggleOverlay => v.overlay == Some(v.binding_keys()[b]),
            Press::Command { index } => index < v.commands@.len() && v.binding_keys()[b]
                == v.commands@[index as int].0,
            Press::StashSearch { index } => index < v.searches@.len() && v.binding_keys()[b]
                == v.searches@[index as int].0,
            Press::OpenLink { site } => exists|k: int|
                0 <= k < v.links@.len() && v.binding_keys()[b] == v.links@[k].0 && v.links@[k].1
                    == site,
        },
        b >= v.binding_keys().len() ==> v.role(b) is Check,
{
    broadcast use vstd::std_specs::vec::axiom_spec_len;

    let a = seq![v.hotkey];
    let l = v.locked@;
    let o = optional(v.overlay);
    let c = firsts(v.commands@);
    let s = firsts(v.searches@);
    let k = firsts(v.links@);
    let keys = v.binding_keys();
    assert(keys == a + l + o + c + s + k);
    assert(o.len() == if v.overlay is Some { 1int } else { 0int });
    assert(a.len() == 1);
    if b < keys.len() {
        let c0 = v.commands_start();
        let s0 = v.searches_start();
        let k0 = v.links_start();
        assert(c0 == a.len() + l.len() + o.len());
        assert(s0 == c0 + c.len());
        assert(k0 == s0 + s.len());
        assert(keys.len() == k0 + k.len());
        if b == 0 {
            assert(keys[0] == (a + l + o + c + s)[0]);
            assert(keys[0] == v.hotkey);
            assert(v.role(b) == Press::<S>::Check);
        } else if b <= l.len() {
            assert(keys[b] == (a + l + o + c + s)[b]);
            assert(keys[b] == (a + l + o + c)[b]);
            assert(keys[b] == (a + l + o)[b]);
            assert(keys[b] == (a + l)[b]);
            assert(keys[b] == l[b - 1]);
            assert(v.role(b) == Press::<S>::Locked);
        } else if v.overlay is Some && b == 1 + l.len() {
            assert(keys[b] == (a + l + o + c + s)[b]);
            assert(keys[b] == (a + l + o + c)[b]);
            assert(keys[b] == (a + l + o)[b]);
            assert(keys[b] == o[0]);
            assert(v.role(b) == Press::<S>::ToggleOverlay);
            assert(v.overlay == Some(keys[b]));
        } else if c0 <= b < s0 {
            assert(keys[b] == (a + l + o + c + s)[b]);
            assert(keys[b] == (a + l + o + c)[b]);
            assert(keys[b] == c[b - c0]);
            assert(c[b - c0] == v.commands@[b - c0].0);
            assert(v.commands@.len() == v.commands.len());
            assert(v.role(b) == Press::<S>::Command { index: (b - c0) as usize });
        } else if s0 <= b < k0 {
            assert(keys[b] == (a + l + o + c + s)[b]);
            assert(keys[b] == s[b - s0]);
            assert(s[b - s0] == v.searches@[b - s0].0);
            assert(v.searches@.len() == v.searches.len());
            assert(v.role(b) == Press::<S>::StashSearch { index: (b - s0) as usize });
        } else {
            assert(keys[b] == k[b - k0]);
            assert(v.links@[b - k0].0 == k[b - k0]);
            let kk = b - k0;
            assert(0 <= kk < v.links@.len() && keys[b] == v.links@[kk].0 && v.links@[kk].1
                == v.links@[b - v.links_start()].1);
        }
    }
}

} // verus!
