use poe_wayfinder_app::clipboard::{
    duration_text, poll_for_item, poll_step, settle_copy, CopyTiming, KeyboardCopyTrigger, PollStep, Polled,
};
use std::cell::Cell;
use poe_wayfinder_app::clipboard::{copy_item, Clipboard, ClipboardError, CopyTrigger, ItemTest, Pause};

#[test]
fn the_default_timing_is_generous_enough_for_a_stutter() {
    let t = CopyTiming::default();

    assert!(t.timeout >= 500);
    assert!(t.poll_interval <= 20);
}

#[test]
fn the_copy_trigger_holds_the_keys_it_was_given() {
    let trigger = KeyboardCopyTrigger::new(vec!["Alt".to_string()]);

    assert_eq!(trigger.also_hold(), &vec!["Alt".to_string()]);
    assert!(KeyboardCopyTrigger::default().also_hold().is_empty());
}



struct ScriptedClipboard {
    content: Option<String>,
    script: Vec<Option<String>>,
    reads: usize,
    writes: Vec<String>,
}

impl ScriptedClipboard {
    fn holding(text: Option<&str>) -> Self {
        Self {
            content: text.map(str::to_string),
            script: Vec::new(),
            reads: 0,
            writes: Vec::new(),
        }
    }

    fn scripted(initial: Option<&str>, script: Vec<Option<&str>>) -> Self {
        Self {
            content: initial.map(str::to_string),
            script: script.into_iter().map(|s| s.map(str::to_string)).collect(),
            reads: 0,
            writes: Vec::new(),
        }
    }
}

impl Clipboard for ScriptedClipboard {
    fn read(&mut self) -> Result<Option<String>, ClipboardError> {
        if self.reads > 0 {
            if let Some(next) = self.script.get(self.reads - 1) {
                self.content = next.clone();
            }
        }

        self.reads += 1;

        Ok(self.content.clone())
    }

    fn write(&mut self, text: &str) -> Result<(), ClipboardError> {
        self.writes.push(text.to_string());
        self.content = Some(text.to_string());

        Ok(())
    }
}

struct CountingTrigger {
    fired: Cell<usize>,
    answer: Option<ClipboardError>,
}

impl CountingTrigger {
    fn new() -> Self {
        Self {
            fired: Cell::new(0),
            answer: None,
        }
    }

    fn refusing(err: ClipboardError) -> Self {
        Self {
            fired: Cell::new(0),
            answer: Some(err),
        }
    }

    fn count(&self) -> usize {
        self.fired.get()
    }
}

impl CopyTrigger for CountingTrigger {
    fn trigger_copy(&self) -> Result<(), ClipboardError> {
        self.fired.set(self.fired.get() + 1);

        match &self.answer {
            Some(err) => Err(err.clone()),
            None => Ok(()),
        }
    }
}

/// Takes text whose first line reads `Label: value` for an item, as every
/// client language's item text does.
struct LabelledFirstLine;

impl ItemTest for LabelledFirstLine {
    fn is_item(&self, text: &str) -> bool {
        text.lines().next().is_some_and(|line| line.contains(": "))
    }
}

struct Slept(u64);

impl Pause for Slept {
    fn pause(&mut self, ms: u64) {
        self.0 += ms;
    }
}

fn fast() -> CopyTiming {
    CopyTiming {
        timeout: 100,
        poll_interval: 10,
    }
}

fn copy(
    clip: &mut ScriptedClipboard,
    trigger: &CountingTrigger,
    restore: bool,
) -> Result<String, ClipboardError> {
    copy_item(clip, trigger, fast(), restore, &mut Slept(0), &LabelledFirstLine)
}

#[test]
fn the_copy_keystroke_is_sent_exactly_once_generated_mock() {
    let trigger = CountingTrigger::new();
    let mut clip = ScriptedClipboard::scripted(Some("old"), vec![Some("Item Class: Rings")]);

    let got = copy(&mut clip, &trigger, false).unwrap();

    assert_eq!(got, "Item Class: Rings");
    assert_eq!(trigger.count(), 1);
}

#[test]
fn a_trigger_that_refuses_stops_the_copy_generated_mock() {
    let trigger = CountingTrigger::refusing(ClipboardError::NoChange { waited: 1 });
    let mut clip = ScriptedClipboard::holding(Some("old"));

    assert!(copy(&mut clip, &trigger, false).is_err());
    assert_eq!(trigger.count(), 1);
}

#[test]
fn a_changed_clipboard_is_returned() {
    let mut clip = ScriptedClipboard::scripted(Some("old"), vec![Some("Item Class: Rings")]);

    let got = copy(&mut clip, &CountingTrigger::new(), false).unwrap();

    assert_eq!(got, "Item Class: Rings");
}

#[test]
fn the_copy_keystroke_is_sent_once() {
    let mut clip = ScriptedClipboard::scripted(Some("old"), vec![Some("Item Class: Rings")]);
    let trigger = CountingTrigger::new();

    copy(&mut clip, &trigger, false).unwrap();

    assert_eq!(trigger.count(), 1);
}

#[test]
fn the_old_clipboard_is_put_back() {
    let mut clip = ScriptedClipboard::scripted(Some("my notes"), vec![Some("Item Class: Rings")]);

    copy(&mut clip, &CountingTrigger::new(), true).unwrap();

    assert_eq!(clip.writes, vec!["my notes"]);
}

#[test]
fn the_old_clipboard_is_left_alone_when_restore_is_off() {
    let mut clip = ScriptedClipboard::scripted(Some("my notes"), vec![Some("Item Class: Rings")]);

    copy(&mut clip, &CountingTrigger::new(), false).unwrap();

    assert!(clip.writes.is_empty());
}

#[test]
fn an_empty_starting_clipboard_needs_nothing_put_back() {
    let mut clip = ScriptedClipboard::scripted(None, vec![Some("Item Class: Rings")]);

    let got = copy(&mut clip, &CountingTrigger::new(), true).unwrap();

    assert_eq!(got, "Item Class: Rings");
    assert!(clip.writes.is_empty());
}

#[test]
fn a_late_answer_is_still_caught() {
    let mut clip = ScriptedClipboard::scripted(
        Some("old"),
        vec![
            Some("old"),
            Some("old"),
            Some("old"),
            Some("Item Class: Rings"),
        ],
    );

    let got = copy(&mut clip, &CountingTrigger::new(), false).unwrap();

    assert_eq!(got, "Item Class: Rings");
}

#[test]
fn the_empty_moment_during_a_copy_is_not_read_as_the_item() {
    let mut clip = ScriptedClipboard::scripted(
        Some("old"),
        vec![None, Some("  "), Some("Item Class: Rings")],
    );

    let got = copy(&mut clip, &CountingTrigger::new(), false).unwrap();

    assert_eq!(got, "Item Class: Rings");
}

#[test]
fn a_clipboard_that_never_changes_fails_rather_than_returning_the_old_text() {
    let mut clip = ScriptedClipboard::holding(Some("my notes"));

    let err = copy(&mut clip, &CountingTrigger::new(), false).unwrap_err();

    assert!(matches!(err, ClipboardError::NoChange { .. }));
}

#[test]
fn the_failure_message_says_how_long_it_waited() {
    let mut clip = ScriptedClipboard::holding(Some("my notes"));

    let err = copy(&mut clip, &CountingTrigger::new(), false).unwrap_err();

    assert!(err.message().contains("did not change"));
    assert_eq!(err.message(), "the clipboard did not change within 100ms");
}

#[test]
fn the_wait_is_bounded_by_the_timeout() {
    let mut clip = ScriptedClipboard::holding(Some("my notes"));
    let mut slept = Slept(0);

    let _ = copy_item(
        &mut clip,
        &CountingTrigger::new(),
        fast(),
        false,
        &mut slept,
        &LabelledFirstLine,
    );

    assert_eq!(slept.0, 100);
}

#[test]
fn a_successful_copy_stops_waiting_early() {
    let mut clip = ScriptedClipboard::scripted(Some("old"), vec![Some("Item Class: Rings")]);
    let mut slept = Slept(0);

    copy_item(
        &mut clip,
        &CountingTrigger::new(),
        fast(),
        false,
        &mut slept,
        &LabelledFirstLine,
    )
    .unwrap();

    assert_eq!(slept.0, 10);
}

#[test]
fn pricing_the_same_item_twice_works() {
    let mut clip =
        ScriptedClipboard::scripted(Some("Item Class: Rings"), vec![Some("Item Class: Rings")]);

    let got = copy(&mut clip, &CountingTrigger::new(), false).unwrap();

    assert_eq!(got, "Item Class: Rings");
}

#[test]
fn a_clipboard_that_never_holds_an_item_times_out() {
    let mut clip = ScriptedClipboard::scripted(
        Some("my notes"),
        vec![Some("still my notes"), Some("and again")],
    );

    let got = copy(&mut clip, &CountingTrigger::new(), false);

    assert!(matches!(got, Err(ClipboardError::NoChange { .. })));
}

#[test]
fn a_foreign_client_item_is_returned_rather_than_timing_out() {
    let mut clip = ScriptedClipboard::scripted(Some("old"), vec![Some("Класс предмета: Кольца")]);

    let got = copy(&mut clip, &CountingTrigger::new(), false).unwrap();

    assert!(got.starts_with("Класс предмета"));
}

#[test]
fn every_clipboard_error_reads_as_a_sentence() {
    assert_eq!(
        ClipboardError::Trigger { sent: 2, asked: 4 }.message(),
        "asking the game to copy: 2 of 4 key events reached it"
    );
    assert_eq!(
        ClipboardError::Read("gone".to_string()).message(),
        "reading the clipboard"
    );
}

#[test]
fn a_timeout_between_two_polls_is_waited_out_to_the_next_poll() {
    let mut clip = ScriptedClipboard::holding(Some("my notes"));
    let mut slept = Slept(0);
    let timing = CopyTiming {
        timeout: 95,
        poll_interval: 10,
    };

    let err = copy_item(
        &mut clip,
        &CountingTrigger::new(),
        timing,
        false,
        &mut slept,
        &LabelledFirstLine,
    )
    .unwrap_err();

    assert!(matches!(err, ClipboardError::NoChange { waited: 100 }));
    assert_eq!(slept.0, 100);
}

#[test]
fn a_copy_puts_back_the_old_text_only_when_an_item_came_and_restoring_is_asked() {
    let old = Some("my notes".to_string());

    let (answer, put_back) = settle_copy(Ok(Polled::Item("Item Class: Rings".to_string())), true, old.clone());
    assert_eq!(answer.unwrap(), "Item Class: Rings");
    assert_eq!(put_back, old);

    let (_, put_back) = settle_copy(Ok(Polled::Item("Item Class: Rings".to_string())), false, old.clone());
    assert_eq!(put_back, None);

    let (answer, put_back) = settle_copy(Ok(Polled::TimedOut(600)), true, old.clone());
    assert!(matches!(answer, Err(ClipboardError::NoChange { waited: 600 })));
    assert_eq!(put_back, None);

    let (answer, put_back) = settle_copy(Err(ClipboardError::Read("busy".to_string())), true, old);
    assert!(matches!(answer, Err(ClipboardError::Read(_))));
    assert_eq!(put_back, None);
}

#[test]
fn a_zero_timeout_gives_up_at_once_without_looking() {
    let mut clip = ScriptedClipboard::holding(Some("Item Class: Rings"));
    let mut slept = Slept(0);
    let timing = CopyTiming {
        timeout: 0,
        poll_interval: 10,
    };

    let got = poll_for_item(&mut clip, timing, &mut slept, &LabelledFirstLine);

    assert!(matches!(got, Ok(Polled::TimedOut(0))));
    assert_eq!(clip.reads, 0);
    assert_eq!(slept.0, 0);
}

#[test]
fn polling_returns_the_first_item_it_sees() {
    let mut clip = ScriptedClipboard::scripted(Some("old"), vec![Some("notes"), Some("Item Class: Rings")]);
    clip.reads = 1;
    let mut slept = Slept(0);

    let got = poll_for_item(&mut clip, fast(), &mut slept, &LabelledFirstLine);

    assert!(matches!(got, Ok(Polled::Item(ref t)) if t == "Item Class: Rings"));
}

#[test]
fn with_no_time_to_wait_a_copy_never_answers_an_item() {
    let mut clip = ScriptedClipboard::scripted(Some("old"), vec![Some("Item Class: Rings")]);
    let timing = CopyTiming {
        timeout: 0,
        poll_interval: 10,
    };

    let got = copy_item(&mut clip, &CountingTrigger::new(), timing, true, &mut Slept(0), &LabelledFirstLine);

    assert!(matches!(got, Err(ClipboardError::NoChange { waited: 0 })));
    assert!(clip.writes.is_empty());
}

#[test]
fn one_look_decides_whether_polling_goes_on() {
    let timing = CopyTiming {
        timeout: 100,
        poll_interval: 10,
    };

    let failed = poll_step(timing, 10, Err(ClipboardError::Read("busy".to_string())), false);
    assert!(matches!(failed, PollStep::Stop(Err(ClipboardError::Read(ref m))) if m == "busy"));

    let item = poll_step(timing, 10, Ok(Some("Item Class: Rings".to_string())), true);
    assert!(matches!(item, PollStep::Stop(Ok(Polled::Item(ref t))) if t == "Item Class: Rings"));

    let late_item = poll_step(timing, 100, Ok(Some("Item Class: Rings".to_string())), true);
    assert!(matches!(late_item, PollStep::Stop(Ok(Polled::Item(_)))));

    assert!(matches!(poll_step(timing, 90, Ok(Some("notes".to_string())), false), PollStep::Continue));
    assert!(matches!(poll_step(timing, 90, Ok(None), false), PollStep::Continue));
    assert!(matches!(
        poll_step(timing, 100, Ok(Some("notes".to_string())), false),
        PollStep::Stop(Ok(Polled::TimedOut(100)))
    ));
    assert!(matches!(poll_step(timing, 110, Ok(None), false), PollStep::Stop(Ok(Polled::TimedOut(110)))));
}

#[test]
fn polling_without_an_item_pauses_one_interval_per_look() {
    let mut clip = ScriptedClipboard::holding(Some("my notes"));
    let mut slept = Slept(0);
    let timing = CopyTiming {
        timeout: 95,
        poll_interval: 10,
    };

    let got = poll_for_item(&mut clip, timing, &mut slept, &LabelledFirstLine);

    assert!(matches!(got, Ok(Polled::TimedOut(100))));
    assert_eq!(clip.reads, 10);
    assert_eq!(slept.0, 100);
}

#[test]
fn a_duration_reads_as_its_debug_form() {
    assert_eq!(duration_text(0), "0ns");
    assert_eq!(duration_text(10), "10ms");
    assert_eq!(duration_text(999), "999ms");
    assert_eq!(duration_text(1000), "1s");
    assert_eq!(duration_text(1500), "1.5s");
    assert_eq!(duration_text(1050), "1.05s");
    assert_eq!(duration_text(61001), "61.001s");
    for ms in [0u64, 1, 10, 100, 999, 1000, 1001, 1010, 1100, 1500, 12345, 600000] {
        assert_eq!(duration_text(ms), format!("{:?}", std::time::Duration::from_millis(ms)));
    }
}

#[test]
fn the_timeout_message_names_the_wait() {
    assert_eq!(
        ClipboardError::NoChange { waited: 1500 }.message(),
        "the clipboard did not change within 1.5s"
    );
    assert_eq!(
        ClipboardError::NoChange { waited: 600 }.message(),
        "the clipboard did not change within 600ms"
    );
}
