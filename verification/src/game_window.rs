//! The game's window: where it is, whether the overlay may draw over it,
//! and what goes wrong looking for it.
use vstd::prelude::*;

use crate::text::{debug_form, debug_quoted, owned, push_str};

verus! {

/// A window's place on the desktop: its corner, which may be negative on a
/// second monitor, and its size.
#[derive(Debug, Clone, Copy, PartialEq, Eq, Structural)]
pub struct WindowRect {
    pub x: i32,
    pub y: i32,
    pub width: u32,
    pub height: u32,
}

impl WindowRect {
    pub fn new(x: i32, y: i32, width: u32, height: u32) -> (r: Self)
        ensures
            r == (WindowRect { x, y, width, height }),
    {
        WindowRect { x, y, width, height }
    }

    /// A window with no area is minimised or hidden.
    pub open spec fn visible(self) -> bool {
        self.width > 0 && self.height > 0
    }

    pub fn is_visible(&self) -> (r: bool)
        ensures
            r == self.visible(),
    {
        self.width > 0 && self.height > 0
    }
}

/// The game window as last found.
#[derive(Debug, Clone, Copy, PartialEq, Eq, Structural)]
pub struct GameWindow {
    pub rect: WindowRect,
    pub is_foreground: bool,
}

/// The overlay draws over the game only while the game is in front and
/// has an area to draw on.
pub fn should_draw(window: &GameWindow) -> (r: bool)
    ensures
        r == (window.is_foreground && window.rect.visible()),
{
    window.is_foreground && window.rect.is_visible()
}

/// What goes wrong with the game window.
#[derive(Debug, Clone, PartialEq, Eq)]
pub enum WindowError {
    NotFound { title: String },
    Rect { title: String },
    SendInput,
}

/// What a [`WindowError`] says: each kind its own sentence, naming the
/// title it looked for.
pub open spec fn window_error_text(e: WindowError) -> Seq<char> {
    match e {
        WindowError::NotFound { title } => "no window titled "@ + debug_form(title@) + " is open"@,
        WindowError::Rect { title } => "reading the window rectangle for "@ + debug_form(title@),
        WindowError::SendInput => "sending input to the game window"@,
    }
}

impl WindowError {
    /// The error as a sentence.
    pub fn message(&self) -> (r: String)
        ensures
            r@ == window_error_text(*self),
    {
        match self {
            WindowError::NotFound { title } => {
                let mut r = owned("no window titled ");
                let quoted = debug_quoted(title.as_str());
                push_str(&mut r, quoted.as_str());
                push_str(&mut r, " is open");
                r
            },
            WindowError::Rect { title } => {
                let mut r = owned("reading the window rectangle for ");
                let quoted = debug_quoted(title.as_str());
                push_str(&mut r, quoted.as_str());
                r
            },
            WindowError::SendInput => owned("sending input to the game window"),
        }
    }
}

/// Finds the game's window by its title, which can be changed while the
/// app runs.
#[derive(Debug)]
pub struct GameWindowAdapter {
    title: String,
}

impl View for GameWindowAdapter {
    type V = Seq<char>;

    closed spec fn view(&self) -> Seq<char> {
        self.title@
    }
}

impl GameWindowAdapter {
    pub fn new(title: &str) -> (a: Self)
        ensures
            a@ == title@,
    {
        GameWindowAdapter { title: owned(title) }
    }

    /// The title of the window looked for.
    pub fn title(&self) -> (r: String)
        ensures
            r@ == self@,
    {
        owned(self.title.as_str())
    }

    /// Looks for a window of another title from now on.
    pub fn retarget(&mut self, title: &str)
        ensures
            final(self)@ == title@,
    {
        self.title = owned(title);
    }
}

/// Asks the game itself to copy the item under the cursor, by sending its
/// window the copy keystroke.
#[derive(Debug, Clone, Copy, PartialEq, Eq, Structural)]
pub struct KeyboardCopyTrigger;

impl KeyboardCopyTrigger {
    pub fn new() -> (t: Self)
        ensures
            t == KeyboardCopyTrigger,
    {
        KeyboardCopyTrigger
    }
}

impl Default for KeyboardCopyTrigger {
    fn default() -> (t: Self)
        ensures
            t == KeyboardCopyTrigger,
    {
        KeyboardCopyTrigger::new()
    }
}

} // verus!
