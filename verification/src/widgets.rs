//! The tabs of the overlay's side panel: which are switched on, which one
//! shows, and the log view.
use vstd::prelude::*;

use crate::text::{chars_of, is_blank, is_blank_chars, owned, same};

verus! {

/// A tab of the side panel; the status tab is the one that opens.
#[derive(Debug, Clone, Copy, PartialEq, Eq, Structural)]
pub enum Tab {
    Status,
    Library,
    Maps,
    Search,
    Notes,
    Log,
    Leveling,
    Settings,
    Help,
}

impl Default for Tab {
    fn default() -> (t: Self)
        ensures
            t == Tab::Status,
    {
        Tab::Status
    }
}

/// The title a tab carries.
pub open spec fn tab_title(tab: Tab) -> Seq<char> {
    match tab {
        Tab::Status => "Status"@,
        Tab::Library => "Library"@,
        Tab::Maps => "Maps"@,
        Tab::Search => "Search"@,
        Tab::Notes => "Notes"@,
        Tab::Log => "Log"@,
        Tab::Leveling => "Leveling"@,
        Tab::Settings => "Settings"@,
        Tab::Help => "Help"@,
    }
}

/// Every tab, in the order the panel shows them.
pub open spec fn all_tabs() -> Seq<Tab> {
    seq![
        Tab::Status,
        Tab::Library,
        Tab::Maps,
        Tab::Search,
        Tab::Notes,
        Tab::Log,
        Tab::Leveling,
        Tab::Settings,
        Tab::Help,
    ]
}

impl Tab {
    pub fn title(self) -> (r: &'static str)
        ensures
            r@ == tab_title(self),
    {
        match self {
            Tab::Status => "Status",
            Tab::Library => "Library",
            Tab::Maps => "Maps",
            Tab::Search => "Search",
            Tab::Notes => "Notes",
            Tab::Log => "Log",
            Tab::Leveling => "Leveling",
            Tab::Settings => "Settings",
            Tab::Help => "Help",
        }
    }

    pub fn every() -> (r: [Tab; 9])
        ensures
            r@ == all_tabs(),
    {
        let r = [
            Tab::Status,
            Tab::Library,
            Tab::Maps,
            Tab::Search,
            Tab::Notes,
            Tab::Log,
            Tab::Leveling,
            Tab::Settings,
            Tab::Help,
        ];
        assert(r@ == all_tabs());
        r
    }
}

/// Every tab is one of [`all_tabs`].
pub proof fn lemma_every_tab_listed(t: Tab)
    ensures
        all_tabs().contains(t),
{
    let i: int = match t {
        Tab::Status => 0,
        Tab::Library => 1,
        Tab::Maps => 2,
        Tab::Search => 3,
        Tab::Notes => 4,
        Tab::Log => 5,
        Tab::Leveling => 6,
        Tab::Settings => 7,
        Tab::Help => 8,
    };
    assert(all_tabs()[i] == t);
}

/// Every tab carries a title of its own: no two tabs share one.
pub proof fn tab_titles_are_all_different(a: Tab, b: Tab)
    ensures
        tab_title(a) == tab_title(b) ==> a == b,
{
    reveal_strlit("Status");
    reveal_strlit("Library");
    reveal_strlit("Maps");
    reveal_strlit("Search");
    reveal_strlit("Notes");
    reveal_strlit("Log");
    reveal_strlit("Leveling");
    reveal_strlit("Settings");
    reveal_strlit("Help");
    if tab_title(a) == tab_title(b) && a != b {
        assert(tab_title(a).len() != tab_title(b).len() || tab_title(a)[0] != tab_title(b)[0]
            || tab_title(a)[1] != tab_title(b)[1] || tab_title(a)[2] != tab_title(b)[2]);
    }
}

/// How many lines the log view keeps: the newest.
pub const LOG_LINES_KEPT: usize = 200;

/// `hidden` without `tab`, the rest in order.
pub open spec fn without(hidden: Seq<Tab>, tab: Tab) -> Seq<Tab>
    decreases hidden.len(),
{
    if hidden.len() == 0 {
        Seq::empty()
    } else if hidden.last() == tab {
        without(hidden.drop_last(), tab)
    } else {
        without(hidden.drop_last(), tab).push(hidden.last())
    }
}

/// The tabs switched off after asking to switch `tab` off: the status tab
/// stays on, and a tab already off is not listed twice.
pub open spec fn hidden_after_disable(hidden: Seq<Tab>, tab: Tab) -> Seq<Tab> {
    if tab == Tab::Status || hidden.contains(tab) {
        hidden
    } else {
        hidden.push(tab)
    }
}

/// The tab that shows after asking to switch `tab` off: the status tab
/// when it was `tab` that showed.
pub open spec fn tab_after_disable(shown: Tab, hidden: Seq<Tab>, tab: Tab) -> Tab {
    if tab == Tab::Status || hidden.contains(tab) || shown != tab {
        shown
    } else {
        Tab::Status
    }
}

/// The tab that shows after asking for `tab`: it, when it is on.
pub open spec fn tab_after_show(shown: Tab, hidden: Seq<Tab>, tab: Tab) -> Tab {
    if hidden.contains(tab) {
        shown
    } else {
        tab
    }
}

/// The tabs of `tabs` that are on, in their order.
pub open spec fn switched_on(tabs: Seq<Tab>, hidden: Seq<Tab>) -> Seq<Tab>
    decreases tabs.len(),
{
    if tabs.len() == 0 {
        Seq::empty()
    } else if hidden.contains(tabs.last()) {
        switched_on(tabs.drop_last(), hidden)
    } else {
        switched_on(tabs.drop_last(), hidden).push(tabs.last())
    }
}

/// The lines the log view keeps of `lines`: the newest [`LOG_LINES_KEPT`].
pub open spec fn kept_lines(lines: Seq<Seq<char>>) -> Seq<Seq<char>> {
    if lines.len() > LOG_LINES_KEPT {
        lines.skip(lines.len() - LOG_LINES_KEPT)
    } else {
        lines
    }
}

/// The log view after `line` is noted: a blank line changes nothing.
pub open spec fn log_after(lines: Seq<Seq<char>>, line: Seq<char>) -> Seq<Seq<char>> {
    if is_blank(line) {
        lines
    } else {
        kept_lines(lines.push(line))
    }
}

pub open spec fn lines_view(lines: Seq<String>) -> Seq<Seq<char>> {
    lines.map_values(|l: String| l@)
}

/// The panel is in order: the tab that shows is on, and so is the status
/// tab.
pub open spec fn panel_ok(shown: Tab, hidden: Seq<Tab>) -> bool {
    !hidden.contains(shown) && !hidden.contains(Tab::Status)
}

proof fn lemma_without(hidden: Seq<Tab>, tab: Tab)
    ensures
        forall|x: Tab| #[trigger] without(hidden, tab).contains(x) <==> hidden.contains(x) && x != tab,
    decreases hidden.len(),
{
    if hidden.len() > 0 {
        let rest = hidden.drop_last();
        let l = hidden.last();
        lemma_without(rest, tab);
        let w = without(hidden, tab);
        let wr = without(rest, tab);
        assert forall|x: Tab| #[trigger] w.contains(x) implies hidden.contains(x) && x != tab by {
            let i = choose|i: int| 0 <= i < w.len() && w[i] == x;
            if l != tab && i == wr.len() {
                assert(hidden[hidden.len() - 1] == x);
            } else {
                assert(wr[i] == x);
                assert(wr.contains(x));
                let j = choose|j: int| 0 <= j < rest.len() && rest[j] == x;
                assert(hidden[j] == x);
            }
        }
        assert forall|x: Tab| hidden.contains(x) && x != tab implies #[trigger] w.contains(x) by {
            let i = choose|i: int| 0 <= i < hidden.len() && hidden[i] == x;
            if i == hidden.len() - 1 {
                assert(w[wr.len() as int] == x);
            } else {
                assert(rest[i] == x);
                assert(wr.contains(x));
                let j = choose|j: int| 0 <= j < wr.len() && wr[j] == x;
                assert(w[j] == x);
            }
        }
    }
}

/// The side panel: the tab that shows, the log view, and the tabs switched
/// off.
pub struct Widgets {
    pub tab: Tab,
    pub log_lines: Vec<String>,
    hidden: Vec<Tab>,
}

impl Default for Widgets {
    fn default() -> (w: Self)
        ensures
            w.shown_tab() == Tab::Status,
            w.lines().len() == 0,
            w.hidden_tabs().len() == 0,
    {
        Widgets { tab: Tab::Status, log_lines: Vec::new(), hidden: Vec::new() }
    }
}

impl Widgets {
    /// The tabs switched off, in the order they were.
    pub closed spec fn hidden_tabs(&self) -> Seq<Tab> {
        self.hidden@
    }

    /// The tab that shows.
    pub closed spec fn shown_tab(&self) -> Tab {
        self.tab
    }

    /// The lines of the log view, oldest first.
    pub closed spec fn lines(&self) -> Seq<Seq<char>> {
        lines_view(self.log_lines@)
    }

    /// Shows `tab`, when it is on.
    pub fn show(&mut self, tab: Tab)
        ensures
            final(self).shown_tab() == tab_after_show(old(self).shown_tab(), old(self).hidden_tabs(), tab),
            final(self).hidden_tabs() == old(self).hidden_tabs(),
            final(self).lines() == old(self).lines(),
    {
        if self.is_enabled(tab) {
            self.tab = tab;
        }
    }

    /// The tab whose title is `title`.
    pub fn find_widget(&self, title: &str) -> (r: Option<Tab>)
        ensures
            match r {
                Some(t) => tab_title(t) == title@,
                None => forall|t: Tab| tab_title(t) != title@,
            },
    {
        let every = Tab::every();
        let wanted = chars_of(title);
        let mut i: usize = 0;
        while i < 9
            invariant
                i <= 9,
                every@ == all_tabs(),
                wanted@ == title@,
                forall|k: int| 0 <= k < i ==> tab_title(#[trigger] all_tabs()[k]) != title@,
            decreases 9 - i,
        {
            let t = every[i];
            let name = chars_of(t.title());
            if same(name.as_slice(), wanted.as_slice()) {
                return Some(t);
            }
            i = i + 1;
        }
        proof {
            assert forall|t: Tab| tab_title(t) != title@ by {
                lemma_every_tab_listed(t);
                let k = choose|k: int| 0 <= k < all_tabs().len() && all_tabs()[k] == t;
                assert(tab_title(all_tabs()[k]) != title@);
            }
        }
        None
    }

    /// Whether `tab` is switched on.
    pub fn is_enabled(&self, tab: Tab) -> (r: bool)
        ensures
            r == !self.hidden_tabs().contains(tab),
    {
        let mut i: usize = 0;
        while i < self.hidden.len()
            invariant
                i <= self.hidden@.len(),
                forall|k: int| 0 <= k < i ==> self.hidden@[k] != tab,
            decreases self.hidden@.len() - i,
        {
            if self.hidden[i] == tab {
                assert(self.hidden@[i as int] == tab);
                return false;
            }
            i = i + 1;
        }
        true
    }

    /// Switches `tab` on.
    pub fn enable_widget(&mut self, tab: Tab)
        ensures
            final(self).hidden_tabs() == without(old(self).hidden_tabs(), tab),
            final(self).shown_tab() == old(self).shown_tab(),
            final(self).lines() == old(self).lines(),
    {
        let mut kept: Vec<Tab> = Vec::new();
        let mut i: usize = 0;
        while i < self.hidden.len()
            invariant
                i <= self.hidden@.len(),
                kept@ == without(self.hidden@.take(i as int), tab),
            decreases self.hidden@.len() - i,
        {
            let h = self.hidden[i];
            proof {
                assert(self.hidden@.take(i + 1).drop_last() =~= self.hidden@.take(i as int));
            }
            if h != tab {
                kept.push(h);
            }
            i = i + 1;
        }
        assert(self.hidden@.take(i as int) =~= self.hidden@);
        self.hidden = kept;
    }

    /// Switches `tab` off; the status tab stays on, and the panel goes back
    /// to it when the tab that showed is switched off.
    pub fn disable_widget(&mut self, tab: Tab)
        ensures
            final(self).hidden_tabs() == hidden_after_disable(old(self).hidden_tabs(), tab),
            final(self).shown_tab() == tab_after_disable(old(self).shown_tab(), old(self).hidden_tabs(), tab),
            final(self).lines() == old(self).lines(),
    {
        if tab == Tab::Status || !self.is_enabled(tab) {
            return;
        }
        self.hidden.push(tab);
        if self.tab == tab {
            self.tab = Tab::Status;
        }
    }

    /// The tabs switched on, in the order the panel shows them.
    pub fn enabled(&self) -> (r: Vec<Tab>)
        ensures
            r@ == switched_on(all_tabs(), self.hidden_tabs()),
    {
        let every = Tab::every();
        let mut out: Vec<Tab> = Vec::new();
        let mut i: usize = 0;
        while i < 9
            invariant
                i <= 9,
                every@ == all_tabs(),
                out@ == switched_on(all_tabs().take(i as int), self.hidden_tabs()),
            decreases 9 - i,
        {
            let t = every[i];
            proof {
                assert(all_tabs().take(i + 1).drop_last() =~= all_tabs().take(i as int));
            }
            if self.is_enabled(t) {
                out.push(t);
            }
            i = i + 1;
        }
        assert(all_tabs().take(9) =~= all_tabs());
        out
    }

    /// Adds `line` to the log view, keeping the newest
    /// [`LOG_LINES_KEPT`]; a blank line is not kept.
    pub fn note_log(&mut self, line: &str)
        ensures
            final(self).lines() == log_after(old(self).lines(), line@),
            final(self).shown_tab() == old(self).shown_tab(),
            final(self).hidden_tabs() == old(self).hidden_tabs(),
    {
        let cs = chars_of(line);
        if is_blank_chars(cs.as_slice()) {
            return;
        }
        self.log_lines.push(owned(line));
        let ghost pushed = lines_view(self.log_lines@);
        assert(pushed =~= lines_view(old(self).log_lines@).push(line@));
        while self.log_lines.len() > LOG_LINES_KEPT
            invariant
                lines_view(self.log_lines@) == pushed.skip(pushed.len() - self.log_lines@.len()),
                self.log_lines@.len() <= pushed.len(),
                self.log_lines@.len() >= LOG_LINES_KEPT || self.log_lines@.len() == pushed.len(),
                self.tab == old(self).shown_tab(),
                self.hidden@ == old(self).hidden@,
            decreases self.log_lines@.len(),
        {
            let ghost before = self.log_lines@;
            self.log_lines.remove(0);
            proof {
                assert(self.log_lines@ =~= before.skip(1));
                assert(lines_view(self.log_lines@) =~= lines_view(before).skip(1));
                assert(lines_view(before).skip(1) =~= pushed.skip(pushed.len() - self.log_lines@.len()));
            }
        }
        proof {
            if pushed.len() <= LOG_LINES_KEPT {
                assert(pushed.skip(0) =~= pushed);
            }
        }
    }
}

/// A tab switched off and back on is on again; any other tab switched off
/// is off until then. The status tab cannot be switched off.
pub proof fn a_widget_can_be_turned_off_and_back_on(hidden: Seq<Tab>, tab: Tab)
    ensures
        !without(hidden_after_disable(hidden, tab), tab).contains(tab),
        tab != Tab::Status ==> hidden_after_disable(hidden, tab).contains(tab),
        !hidden.contains(Tab::Status) ==> !hidden_after_disable(hidden, tab).contains(Tab::Status),
{
    lemma_without(hidden_after_disable(hidden, tab), tab);
    if tab != Tab::Status && !hidden.contains(tab) {
        assert(hidden.push(tab)[hidden.len() as int] == tab);
    }
    if !hidden.contains(Tab::Status) && tab != Tab::Status && !hidden.contains(tab) {
        assert forall|i: int| 0 <= i < hidden.push(tab).len() implies hidden.push(tab)[i]
            != Tab::Status by {
            if i < hidden.len() {
                assert(hidden[i] == hidden.push(tab)[i]);
            }
        }
    }
}

/// Whatever is asked of the panel, the tab that shows stays switched on and
/// so does the status tab.
pub proof fn the_shown_tab_is_always_on(shown: Tab, hidden: Seq<Tab>, tab: Tab)
    requires
        panel_ok(shown, hidden),
    ensures
        panel_ok(tab_after_show(shown, hidden, tab), hidden),
        panel_ok(shown, without(hidden, tab)),
        panel_ok(tab_after_disable(shown, hidden, tab), hidden_after_disable(hidden, tab)),
{
    lemma_without(hidden, tab);
    if tab != Tab::Status && !hidden.contains(tab) {
        let h2 = hidden.push(tab);
        let s2 = tab_after_disable(shown, hidden, tab);
        assert forall|i: int| 0 <= i < h2.len() implies h2[i] != Tab::Status && h2[i] != s2 by {
            if i < hidden.len() {
                assert(hidden[i] == h2[i]);
            }
        }
    }
}

/// The log view never holds more than [`LOG_LINES_KEPT`] lines, and a line
/// that is not blank is the newest it holds.
pub proof fn the_log_keeps_the_newest_lines(lines: Seq<Seq<char>>, line: Seq<char>)
    requires
        lines.len() <= LOG_LINES_KEPT,
    ensures
        log_after(lines, line).len() <= LOG_LINES_KEPT,
        !is_blank(line) ==> log_after(lines, line).last() == line,
{
}

} // verus!
