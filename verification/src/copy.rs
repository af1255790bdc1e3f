//! The copy step of a price check, as the controller sees it.
use vstd::prelude::*;

use crate::clipboard::{
    clipboard_error_text, copy_item, polls_to, Clipboard, ClipboardError, CopyTiming, CopyTrigger, ItemTest,
    Look, Pause, Polled,
};

verus! {

/// Copies the item under the cursor, answering its text or why it could
/// not.
pub trait Copier {
    fn copy(&mut self) -> Result<String, String>;
}

/// Timing a copy can wait by: it polls at a positive interval, and its
/// wait fits in the clock.
pub open spec fn usable(timing: CopyTiming) -> bool {
    timing.poll_interval > 0 && timing.timeout + timing.poll_interval <= u64::MAX
}

/// Polling with `timing` can end with the item `text`: for some looks at
/// the clipboard, [`polls_to`] gives it.
pub open spec fn polled_item(timing: CopyTiming, text: Seq<char>) -> bool {
    exists|looks: Seq<Look>, item: String| item@ == text && #[trigger] polls_to(timing, looks, Ok(Polled::Item(item)))
}

/// Timing known to be usable.
struct UsableTiming {
    timing: CopyTiming,
}

impl UsableTiming {
    #[verifier::type_invariant]
    spec fn is_usable(self) -> bool {
        usable(self.timing)
    }

    fn get(&self) -> (t: CopyTiming)
        ensures
            usable(t),
            t == self.timing,
    {
        proof {
            use_type_invariant(self);
        }
        self.timing
    }
}

/// Copies through a clipboard and a trigger, with the given timing, and
/// puts back what the clipboard held when `restore` is set.
pub struct CopyController<C: Clipboard, T: CopyTrigger, P: Pause, K: ItemTest> {
    clipboard: C,
    trigger: T,
    timing: UsableTiming,
    restore: bool,
    pause: P,
    items: K,
}

impl<C: Clipboard, T: CopyTrigger, P: Pause, K: ItemTest> CopyController<C, T, P, K> {
    pub closed spec fn spec_timing(self) -> CopyTiming {
        self.timing.timing
    }

    pub closed spec fn spec_restore(self) -> bool {
        self.restore
    }

    pub fn new(clipboard: C, trigger: T, timing: CopyTiming, restore: bool, pause: P, items: K) -> (c: Self)
        requires
            usable(timing),
        ensures
            c.spec_timing() == timing,
            c.spec_restore() == restore,
    {
        CopyController { clipboard, trigger, timing: UsableTiming { timing }, restore, pause, items }
    }
}

impl<C: Clipboard, T: CopyTrigger, P: Pause, K: ItemTest> Copier for CopyController<C, T, P, K> {
    /// The copied text, or the sentence saying why there is none: every
    /// failure reads as the sentence of a clipboard error. A text it
    /// answers is the item that polling with its timing ended with, for
    /// some looks at the clipboard. The timing and whether to restore stay
    /// as they were.
    fn copy(&mut self) -> (r: Result<String, String>)
        ensures
            r matches Err(m) ==> exists|e: ClipboardError| #[trigger] clipboard_error_text(e) == m@,
            r matches Ok(text) ==> polled_item(old(self).spec_timing(), text@),
            old(self).spec_timing().timeout == 0 ==> r is Err,
            final(self).spec_timing() == old(self).spec_timing(),
            final(self).spec_restore() == old(self).spec_restore(),
    {
        let timing = self.timing.get();
        let restore = self.restore;
        let copied = copy_item(&mut self.clipboard, &self.trigger, timing, restore, &mut self.pause, &self.items);
        match copied {
            Ok(text) => {
                assert(polled_item(timing, text@));
                Ok(text)
            },
            Err(e) => Err(e.message()),
        }
    }
}

} // verus!
