//! Hands the game log's events to whoever asks for them.
use vstd::prelude::*;

use crate::game_log::{LogError, LogEvent, LogReader};

verus! {

/// A source of game log events.
pub trait LogSource {
    fn poll(&mut self) -> Result<Vec<LogEvent>, LogError>;

    fn watch(&mut self, path: &str);
}

/// A [`LogSource`] over one log reader.
pub struct LogWatchController<R: LogReader> {
    reader: R,
}

impl<R: LogReader> LogWatchController<R> {
    pub fn new(reader: R) -> (c: Self)
        ensures
            c.reader() == reader,
    {
        LogWatchController { reader }
    }

    /// The reader the controller asks.
    pub closed spec fn reader(&self) -> R {
        self.reader
    }
}

impl<R: LogReader> LogSource for LogWatchController<R> {
    /// What the reader answers, events or error, handed on as it came.
    fn poll(&mut self) -> Result<Vec<LogEvent>, LogError> {
        self.reader.poll()
    }

    fn watch(&mut self, path: &str) {
        self.reader.watch(path);
    }
}

} // verus!
