//! Measuring where the panel window stands against the game's.
use vstd::prelude::*;

use crate::text::{debug_form, debug_quoted, owned, push_str};

verus! {

/// Reads window rectangles from the desktop where the app runs.
#[derive(Debug, Clone, Copy, PartialEq, Eq, Structural)]
pub struct SystemWindowProbe;

impl SystemWindowProbe {
    pub fn new() -> (p: Self)
        ensures
            p == SystemWindowProbe,
    {
        SystemWindowProbe
    }
}

impl Default for SystemWindowProbe {
    fn default() -> (p: Self)
        ensures
            p == SystemWindowProbe,
    {
        SystemWindowProbe::new()
    }
}

/// What goes wrong measuring a window.
#[derive(Debug, Clone, PartialEq, Eq)]
pub enum ProbeError {
    NotFound { title: String },
    Rect,
}

pub open spec fn probe_error_text(e: ProbeError) -> Seq<char> {
    match e {
        ProbeError::NotFound { title } => "no window titled "@ + debug_form(title@) + " is open"@,
        ProbeError::Rect => "reading the window rectangle"@,
    }
}

impl ProbeError {
    /// The error as a sentence.
    pub fn message(&self) -> (r: String)
        ensures
            r@ == probe_error_text(*self),
    {
        match self {
            ProbeError::NotFound { title } => {
                let mut r = owned("no window titled ");
                let quoted = debug_quoted(title.as_str());
                push_str(&mut r, quoted.as_str());
                push_str(&mut r, " is open");
                r
            },
            ProbeError::Rect => owned("reading the window rectangle"),
        }
    }
}

} // verus!
