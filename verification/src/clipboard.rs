//! Copying the item under the cursor through the clipboard: what can go
//! wrong, how long to wait for the game, and the two sides the copy talks
//! to.
use vstd::prelude::*;

use crate::text::{decimal, decimal_chars, digit_char, owned, push_all, push_str, string_of};


verus! {

/// What goes wrong copying an item. The clipboard's own failures carry
/// the message the system gave.
#[derive(Debug, Clone, PartialEq, Eq)]
pub enum ClipboardError {
    Open(String),
    Read(String),
    Write(String),
    /// The clipboard held no item after waiting this many milliseconds.
    NoChange { waited: u64 },
    /// Only `sent` of the `asked` key events reached the game.
    Trigger { sent: usize, asked: usize },
}

/// The system clipboard, as the copy reads and writes it.
pub trait Clipboard {
    fn read(&mut self) -> Result<Option<String>, ClipboardError>;

    fn write(&mut self, text: &str) -> Result<(), ClipboardError>;
}

/// What makes the game put the item under the cursor on the clipboard.
pub trait CopyTrigger {
    fn trigger_copy(&self) -> Result<(), ClipboardError>;
}

/// How long to wait for the game to copy, and how often to look, in
/// milliseconds.
#[derive(Debug, Clone, Copy, PartialEq, Eq, Structural)]
pub struct CopyTiming {
    pub timeout: u64,
    pub poll_interval: u64,
}

impl Default for CopyTiming {
    /// Long enough for a stutter of the game, and often enough that the
    /// wait is not felt.
    fn default() -> (t: Self)
        ensures
            t.timeout == 600,
            t.poll_interval == 10,
    {
        CopyTiming { timeout: 600, poll_interval: 10 }
    }
}

/// Sends the game its copy keystroke, holding down extra keys with it.
#[derive(Debug, Clone)]
pub struct KeyboardCopyTrigger {
    also_hold: Vec<String>,
}

impl View for KeyboardCopyTrigger {
    type V = Seq<Seq<char>>;

    /// The keys held down with the copy keystroke.
    closed spec fn view(&self) -> Seq<Seq<char>> {
        self.also_hold@.map_values(|k: String| k@)
    }
}

impl KeyboardCopyTrigger {
    pub fn new(also_hold: Vec<String>) -> (t: Self)
        ensures
            t@ == also_hold@.map_values(|k: String| k@),
    {
        KeyboardCopyTrigger { also_hold }
    }

    /// The keys held down with the copy keystroke.
    pub fn also_hold(&self) -> (r: &Vec<String>)
        ensures
            r@.map_values(|k: String| k@) == self@,
    {
        &self.also_hold
    }
}

impl Default for KeyboardCopyTrigger {
    fn default() -> (t: Self)
        ensures
            t@.len() == 0,
    {
        let t = KeyboardCopyTrigger::new(Vec::new());
        assert(t@ =~= Seq::<Seq<char>>::empty());
        t
    }
}

/// Waits between two looks at the clipboard.
pub trait Pause {
    fn pause(&mut self, ms: u64);
}

/// Tells the text of an item the game copied from anything else the
/// clipboard may hold.
pub trait ItemTest {
    fn is_item(&self, text: &str) -> bool;
}

/// A copy that saw no item gave up after this wait: a whole number of poll
/// intervals, the first that reaches the timeout.
pub open spec fn gave_up_after(timing: CopyTiming, waited: u64) -> bool {
    &&& waited % timing.poll_interval == 0
    &&& timing.timeout <= waited
    &&& waited < timing.timeout + timing.poll_interval
}

/// What polling the clipboard came to.
pub enum Polled {
    /// The clipboard came to hold an item.
    Item(String),
    /// No item came before the timeout; the wait it took.
    TimedOut(u64),
}

/// What polling does after one look at the clipboard.
pub enum PollStep {
    /// Polling is over, with this outcome.
    Stop(Result<Polled, ClipboardError>),
    /// Wait another poll interval and look again.
    Continue,
}

/// One look at the clipboard: what reading it gave, and whether the text
/// read is an item (false when it held no text).
pub type Look = (Result<Option<String>, ClipboardError>, bool);

/// After a look that found no item, `waited` milliseconds after the
/// trigger: look again while the timeout has not passed, else give up.
pub open spec fn wait_or_stop(timing: CopyTiming, waited: int) -> PollStep {
    if waited < timing.timeout {
        PollStep::Continue
    } else {
        PollStep::Stop(Ok(Polled::TimedOut(waited as u64)))
    }
}

/// What polling does after a look `waited` milliseconds after the
/// trigger that read `read`, whose text the item test judged `is_item`: a
/// failed read ends it with that failure, an item ends it with the item,
/// and anything else waits on while the timeout has not passed.
pub open spec fn next_poll(
    timing: CopyTiming,
    waited: int,
    read: Result<Option<String>, ClipboardError>,
    is_item: bool,
) -> PollStep {
    match read {
        Err(e) => PollStep::Stop(Err(e)),
        Ok(Some(text)) => if is_item {
            PollStep::Stop(Ok(Polled::Item(text)))
        } else {
            wait_or_stop(timing, waited)
        },
        Ok(None) => wait_or_stop(timing, waited),
    }
}

/// Decides what polling does after one look at the clipboard.
pub fn poll_step(
    timing: CopyTiming,
    waited: u64,
    read: Result<Option<String>, ClipboardError>,
    is_item: bool,
) -> (s: PollStep)
    ensures
        s == next_poll(timing, waited as int, read, is_item),
{
    match read {
        Err(e) => PollStep::Stop(Err(e)),
        Ok(Some(text)) => {
            if is_item {
                PollStep::Stop(Ok(Polled::Item(text)))
            } else if waited < timing.timeout {
                PollStep::Continue
            } else {
                PollStep::Stop(Ok(Polled::TimedOut(waited)))
            }
        },
        Ok(None) => {
            if waited < timing.timeout {
                PollStep::Continue
            } else {
                PollStep::Stop(Ok(Polled::TimedOut(waited)))
            }
        },
    }
}

/// What polling does after its look number `k`, counting from zero, which
/// comes after `k + 1` pauses of the poll interval.
pub open spec fn look_step(timing: CopyTiming, looks: Seq<Look>, k: int) -> PollStep {
    next_poll(timing, (k + 1) * timing.poll_interval, looks[k].0, looks[k].1)
}

/// Polling that made the looks `looks`, one after each pause of the poll
/// interval, came to `r`: with no time to wait it makes none and times
/// out at once; otherwise every look but the last waits on, and the last
/// stops with `r`.
pub open spec fn polls_to(timing: CopyTiming, looks: Seq<Look>, r: Result<Polled, ClipboardError>) -> bool {
    if looks.len() == 0 {
        timing.timeout == 0 && r == Ok::<Polled, ClipboardError>(Polled::TimedOut(0))
    } else {
        &&& timing.timeout > 0
        &&& forall|k: int| 0 <= k < looks.len() - 1 ==> #[trigger] look_step(timing, looks, k) is Continue
        &&& look_step(timing, looks, looks.len() - 1) == PollStep::Stop(r)
    }
}

/// Polling that timed out waited a whole number of poll intervals, the
/// first that reaches the timeout.
pub proof fn a_timed_out_poll_waited_whole_intervals(
    timing: CopyTiming,
    looks: Seq<Look>,
    waited: u64,
)
    requires
        timing.poll_interval > 0,
        timing.timeout + timing.poll_interval <= u64::MAX,
        polls_to(timing, looks, Ok(Polled::TimedOut(waited))),
    ensures
        gave_up_after(timing, waited),
        waited == looks.len() * timing.poll_interval,
{
    let i = timing.poll_interval as int;
    let n = looks.len() as int;
    if n > 0 {
        let w = n * i;
        if n > 1 {
            assert(look_step(timing, looks, n - 2) is Continue);
            assert((n - 1) * i < timing.timeout);
        }
        assert(w - i < timing.timeout) by (nonlinear_arith)
            requires
                w == n * i,
                n > 0,
                n > 1 ==> (n - 1) * i < timing.timeout,
                timing.timeout > 0,
        ;
        assert(w >= timing.timeout);
        assert(waited == w);
        vstd::arithmetic::div_mod::lemma_mod_multiples_basic(n, i);
    }
}

/// Polling stops at the first look that reads an item, and answers it.
pub proof fn polling_stops_at_the_first_item(
    timing: CopyTiming,
    looks: Seq<Look>,
    r: Result<Polled, ClipboardError>,
    k: int,
    text: String,
)
    requires
        polls_to(timing, looks, r),
        0 <= k < looks.len(),
        looks[k] == (Ok::<Option<String>, ClipboardError>(Some(text)), true),
    ensures
        k == looks.len() - 1,
        r == Ok::<Polled, ClipboardError>(Polled::Item(text)),
{
    if k < looks.len() - 1 {
        assert(look_step(timing, looks, k) is Continue);
    }
}

/// Polling whose looks all read well and found no item times out, after
/// the first whole number of poll intervals that reaches the timeout, one
/// look after each pause.
pub proof fn polling_without_an_item_times_out(
    timing: CopyTiming,
    looks: Seq<Look>,
    r: Result<Polled, ClipboardError>,
)
    requires
        timing.poll_interval > 0,
        timing.timeout + timing.poll_interval <= u64::MAX,
        polls_to(timing, looks, r),
        forall|k: int|
            0 <= k < looks.len() ==> (#[trigger] looks[k]).0 is Ok && (looks[k].0 == Ok::<
                Option<String>,
                ClipboardError,
            >(None) || !looks[k].1),
    ensures
        r matches Ok(Polled::TimedOut(waited)) && gave_up_after(timing, waited) && waited
            == looks.len() * timing.poll_interval,
{
    if looks.len() > 0 {
        let n = looks.len() - 1;
        assert(looks[n].0 is Ok);
        assert(look_step(timing, looks, n) == PollStep::Stop(r));
    }
    match r {
        Ok(Polled::TimedOut(waited)) => {
            a_timed_out_poll_waited_whole_intervals(timing, looks, waited);
        },
        _ => {},
    }
}

/// Looks at the clipboard after each poll interval until it holds an item
/// or the timeout has passed; [`poll_step`] decides after each look. A
/// clipboard failure stops it.
///
/// What each read gives and what the item test answers come from outside,
/// so the contract says that the outcome is what [`polls_to`] gives for
/// some such looks, one after each pause of the poll interval.
pub fn poll_for_item<C: Clipboard, P: Pause, K: ItemTest>(
    clipboard: &mut C,
    timing: CopyTiming,
    pause: &mut P,
    items: &K,
) -> (r: Result<Polled, ClipboardError>)
    requires
        timing.poll_interval > 0,
        timing.timeout + timing.poll_interval <= u64::MAX,
    ensures
        exists|looks: Seq<Look>| #[trigger] polls_to(timing, looks, r),
        r matches Ok(Polled::TimedOut(waited)) ==> gave_up_after(timing, waited),
        timing.timeout == 0 ==> r == Ok::<Polled, ClipboardError>(Polled::TimedOut(0)),
{
    if timing.timeout == 0 {
        let r = Ok(Polled::TimedOut(0));
        assert(polls_to(timing, Seq::<Look>::empty(), r));
        return r;
    }
    let mut waited: u64 = 0;
    let ghost mut looks: Seq<Look> = Seq::empty();
    loop
        invariant
            timing.poll_interval > 0,
            timing.timeout > 0,
            timing.timeout + timing.poll_interval <= u64::MAX,
            waited == looks.len() * timing.poll_interval,
            waited < timing.timeout,
            forall|k: int| 0 <= k < looks.len() ==> #[trigger] look_step(timing, looks, k) is Continue,
        decreases timing.timeout - waited,
    {
        pause.pause(timing.poll_interval);
        waited = waited + timing.poll_interval;
        let read = clipboard.read();
        let is_item = match &read {
            Ok(Some(text)) => items.is_item(text.as_str()),
            _ => false,
        };
        let ghost before = looks;
        proof {
            looks = looks.push((read, is_item));
            assert(waited == looks.len() * timing.poll_interval) by (nonlinear_arith)
                requires
                    waited == before.len() * timing.poll_interval + timing.poll_interval,
                    looks.len() == before.len() + 1,
            ;
            assert forall|k: int| 0 <= k < before.len() implies #[trigger] look_step(timing, looks, k)
                is Continue by {
                assert(looks[k] == before[k]);
                assert(look_step(timing, before, k) is Continue);
            }
            assert(look_step(timing, looks, before.len() as int) == next_poll(
                timing,
                waited as int,
                read,
                is_item,
            ));
        }
        match poll_step(timing, waited, read, is_item) {
            PollStep::Stop(r) => {
                proof {
                    assert(polls_to(timing, looks, r));
                    if let Ok(Polled::TimedOut(w)) = r {
                        a_timed_out_poll_waited_whole_intervals(timing, looks, w);
                    }
                }
                return r;
            },
            PollStep::Continue => {},
        }
    }
}

/// What a copy answers once polling has come to `polled`, and what it
/// writes back to the clipboard before answering: the text the clipboard
/// held before, when `restore` is set and an item came.
pub open spec fn settled(
    polled: Result<Polled, ClipboardError>,
    restore: bool,
    before: Option<String>,
) -> (Result<String, ClipboardError>, Option<String>) {
    match polled {
        Ok(Polled::Item(text)) => (Ok(text), if restore {
            before
        } else {
            None
        }),
        Ok(Polled::TimedOut(waited)) => (Err(ClipboardError::NoChange { waited }), None),
        Err(e) => (Err(e), None),
    }
}

/// The end of a copy: its answer, and the text to put back first.
pub fn settle_copy(
    polled: Result<Polled, ClipboardError>,
    restore: bool,
    before: Option<String>,
) -> (r: (Result<String, ClipboardError>, Option<String>))
    ensures
        r == settled(polled, restore, before),
{
    match polled {
        Ok(Polled::Item(text)) => {
            if restore {
                (Ok(text), before)
            } else {
                (Ok(text), None)
            }
        },
        Ok(Polled::TimedOut(waited)) => (Err(ClipboardError::NoChange { waited }), None),
        Err(e) => (Err(e), None),
    }
}

/// Copies the item under the cursor: reads what the clipboard holds, asks
/// the game to copy, and polls with [`poll_for_item`] until the clipboard
/// holds an item or the timeout has passed; [`settle_copy`] then says what
/// it answers and, when `restore` is set, what it puts back first. A
/// clipboard or trigger failure stops the copy.
///
/// With no time to wait it never answers an item. A text it answers is
/// the item that polling ended with, for some looks at the clipboard. A
/// failure of the first read or of the trigger is handed on as it came,
/// whatever it holds, so the contract states nothing of the failures.
pub fn copy_item<C: Clipboard, T: CopyTrigger, P: Pause, K: ItemTest>(
    clipboard: &mut C,
    trigger: &T,
    timing: CopyTiming,
    restore: bool,
    pause: &mut P,
    items: &K,
) -> (r: Result<String, ClipboardError>)
    requires
        timing.poll_interval > 0,
        timing.timeout + timing.poll_interval <= u64::MAX,
    ensures
        timing.timeout == 0 ==> r is Err,
        r matches Ok(text) ==> exists|looks: Seq<Look>| #[trigger] polls_to(
            timing,
            looks,
            Ok(Polled::Item(text)),
        ),
{
    let before = match clipboard.read() {
        Ok(before) => before,
        Err(e) => return Err(e),
    };
    match trigger.trigger_copy() {
        Ok(()) => {},
        Err(e) => return Err(e),
    }
    let polled = poll_for_item(clipboard, timing, pause, items);
    let ghost seen = polled;
    let (answer, put_back) = settle_copy(polled, restore, before);
    if let Some(old) = put_back {
        let _ = clipboard.write(old.as_str());
    }
    assert(answer matches Ok(text) ==> seen == Ok::<Polled, ClipboardError>(Polled::Item(text)));
    answer
}

/// The digits of `f` thousandths of a second, `f` below a thousand, as
/// `{:?}` writes them after the point: three digits with the trailing
/// zeros cut.
pub open spec fn millis_fraction(f: nat) -> Seq<char> {
    if f % 10 != 0 {
        seq![digit_char(f / 100), digit_char((f / 10) % 10), digit_char(f % 10)]
    } else if f % 100 != 0 {
        seq![digit_char(f / 100), digit_char((f / 10) % 10)]
    } else {
        seq![digit_char(f / 100)]
    }
}

/// How `{:?}` writes a duration of `ms` milliseconds: `0ns` when it is
/// none, whole milliseconds below a second, and above that the seconds,
/// with the thousandths after a point when there are any.
pub open spec fn duration_form(ms: u64) -> Seq<char> {
    if ms == 0 {
        "0ns"@
    } else if ms < 1000 {
        decimal(ms as nat) + "ms"@
    } else if ms % 1000 == 0 {
        decimal((ms / 1000) as nat) + "s"@
    } else {
        decimal((ms / 1000) as nat) + seq!['.'] + millis_fraction((ms % 1000) as nat) + "s"@
    }
}

/// A duration of `ms` milliseconds, written as `{:?}` writes it.
pub fn duration_text(ms: u64) -> (r: String)
    ensures
        r@ == duration_form(ms),
{
    if ms == 0 {
        return owned("0ns");
    }
    if ms < 1000 {
        let mut r = string_of(decimal_chars(ms).as_slice());
        push_str(&mut r, "ms");
        return r;
    }
    let mut r = string_of(decimal_chars(ms / 1000).as_slice());
    let ghost whole = r@;
    let f = ms % 1000;
    if f != 0 {
        push_all(&mut r, ['.'].as_slice());
        push_all(&mut r, decimal_chars(f / 100).as_slice());
        if f % 100 != 0 {
            push_all(&mut r, decimal_chars((f / 10) % 10).as_slice());
        }
        if f % 10 != 0 {
            push_all(&mut r, decimal_chars(f % 10).as_slice());
        }
        assert(r@ =~= whole + seq!['.'] + millis_fraction(f as nat));
    }
    push_str(&mut r, "s");
    r
}

pub open spec fn clipboard_error_text(e: ClipboardError) -> Seq<char> {
    match e {
        ClipboardError::Open(_) => "opening the clipboard"@,
        ClipboardError::Read(_) => "reading the clipboard"@,
        ClipboardError::Write(_) => "writing the clipboard"@,
        ClipboardError::NoChange { waited } => "the clipboard did not change within "@
            + duration_form(waited),
        ClipboardError::Trigger { sent, asked } => "asking the game to copy: "@ + crate::text::decimal(
            sent as nat,
        ) + " of "@ + crate::text::decimal(asked as nat) + " key events reached it"@,
    }
}

impl ClipboardError {
    /// The error as a sentence.
    pub fn message(&self) -> (r: String)
        ensures
            r@ == clipboard_error_text(*self),
    {
        match self {
            ClipboardError::Open(_) => owned("opening the clipboard"),
            ClipboardError::Read(_) => owned("reading the clipboard"),
            ClipboardError::Write(_) => owned("writing the clipboard"),
            ClipboardError::NoChange { waited } => {
                let mut r = owned("the clipboard did not change within ");
                push_str(&mut r, duration_text(*waited).as_str());
                r
            },
            ClipboardError::Trigger { sent, asked } => {
                let mut r = owned("asking the game to copy: ");
                push_all(&mut r, decimal_chars(*sent as u64).as_slice());
                push_str(&mut r, " of ");
                push_all(&mut r, decimal_chars(*asked as u64).as_slice());
                push_str(&mut r, " key events reached it");
                r
            },
        }
    }
}

} // verus!
