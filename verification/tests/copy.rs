use std::cell::{Cell, RefCell};
use std::rc::Rc;

use poe_wayfinder_app::clipboard::{Clipboard, ClipboardError, CopyTiming, CopyTrigger, ItemTest, Pause};
use poe_wayfinder_app::copy::{Copier, CopyController};

struct ScriptedClipboard {
    reads: Vec<Option<String>>,
    at: usize,
    written: Rc<RefCell<Vec<String>>>,
}

impl ScriptedClipboard {
    fn new(reads: Vec<Option<String>>) -> Self {
        Self {
            reads,
            at: 0,
            written: Rc::new(RefCell::new(Vec::new())),
        }
    }
}

impl Clipboard for ScriptedClipboard {
    fn read(&mut self) -> Result<Option<String>, ClipboardError> {
        let value = self.reads.get(self.at).cloned().unwrap_or(None);
        self.at += 1;

        Ok(value)
    }

    fn write(&mut self, text: &str) -> Result<(), ClipboardError> {
        self.written.borrow_mut().push(text.to_string());

        Ok(())
    }
}

/// Counts the copy keystrokes it sends; the count is shared so a test can
/// read it after the controller has taken the trigger.
struct CountingTrigger {
    fired: Rc<Cell<usize>>,
}

impl CountingTrigger {
    fn new() -> Self {
        Self {
            fired: Rc::new(Cell::new(0)),
        }
    }
}

impl CopyTrigger for CountingTrigger {
    fn trigger_copy(&self) -> Result<(), ClipboardError> {
        self.fired.set(self.fired.get() + 1);

        Ok(())
    }
}

/// Takes text whose first line reads `Label: value` for an item.
struct LabelledFirstLine;

impl ItemTest for LabelledFirstLine {
    fn is_item(&self, text: &str) -> bool {
        text.lines().next().is_some_and(|line| line.contains(": "))
    }
}

struct NoWait;

impl Pause for NoWait {
    fn pause(&mut self, _ms: u64) {}
}

fn fast() -> CopyTiming {
    CopyTiming {
        timeout: 50,
        poll_interval: 1,
    }
}

#[test]
fn a_changed_clipboard_is_returned_as_the_item() {
    let clipboard =
        ScriptedClipboard::new(vec![Some("old".into()), Some("Item Class: Rings".into())]);

    let got = CopyController::new(clipboard, CountingTrigger::new(), fast(), false, NoWait, LabelledFirstLine)
        .copy()
        .expect("a copy");

    assert_eq!(got, "Item Class: Rings");
}

#[test]
fn a_clipboard_that_never_changes_reports_the_whole_chain() {
    let clipboard = ScriptedClipboard::new(vec![Some("old".into())]);

    let err = CopyController::new(clipboard, CountingTrigger::new(), fast(), false, NoWait, LabelledFirstLine)
        .copy()
        .expect_err("a failure");

    assert!(!err.is_empty(), "the reason must survive as text");
    assert!(err.starts_with("the clipboard did not change within "));
}

#[test]
fn the_copy_keystroke_is_sent() {
    let clipboard =
        ScriptedClipboard::new(vec![Some("old".into()), Some("Item Class: Rings".into())]);
    let trigger = CountingTrigger::new();
    let fired = Rc::clone(&trigger.fired);

    let mut controller = CopyController::new(clipboard, trigger, fast(), false, NoWait, LabelledFirstLine);
    let _ = controller.copy();

    assert_eq!(fired.get(), 1);
}

#[test]
fn a_restoring_controller_puts_back_what_the_clipboard_held() {
    let clipboard =
        ScriptedClipboard::new(vec![Some("old".into()), Some("Item Class: Rings".into())]);

    let written = Rc::clone(&clipboard.written);

    let mut controller = CopyController::new(clipboard, CountingTrigger::new(), fast(), true, NoWait, LabelledFirstLine);
    let got = controller.copy().expect("a copy");

    assert_eq!(got, "Item Class: Rings");
    assert_eq!(*written.borrow(), vec!["old".to_string()]);
}
