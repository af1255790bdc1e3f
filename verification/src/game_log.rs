//! Reading the game's `Client.txt` log: which lines mean something, what they
//! say, and how far into the file the watcher has read.
use vstd::prelude::*;

use crate::text::{
    chars_of, contains_seq, ends_with_seq, first_in, first_of, is_blank, is_blank_chars, lemma_rsplit_once_parts, lemma_split_once_parts, lemma_strip_prefix_parts, lemma_strip_suffix_parts, lemma_trim_end_any_parts, lemma_utf8_len_prefix, owned, parse_u32, parse_u32_seq, rsplit_once, rsplit_once_seq, same, slice_of, split_once, split_once_seq, string_of, strip_prefix, strip_prefix_seq, strip_suffix, strip_suffix_seq, trim, trim_end_any, trim_end_any_seq, trim_seq, utf8_len,
};

verus! {

/// A log line that means something to the overlay.
#[derive(Debug, Clone, PartialEq, Eq)]
pub enum LogEvent {
    EnteredArea { name: String },
    LevelUp { character: String, class: String, level: u32 },
    Whisper { from: String, body: String },
}

/// A [`LogEvent`] as characters.
pub enum LogEventView {
    EnteredArea { name: Seq<char> },
    LevelUp { character: Seq<char>, class: Seq<char>, level: u32 },
    Whisper { from: Seq<char>, body: Seq<char> },
}

impl View for LogEvent {
    type V = LogEventView;

    open spec fn view(&self) -> LogEventView {
        match self {
            LogEvent::EnteredArea { name } => LogEventView::EnteredArea { name: name@ },
            LogEvent::LevelUp { character, class, level } => LogEventView::LevelUp {
                character: character@,
                class: class@,
                level: *level,
            },
            LogEvent::Whisper { from, body } => LogEventView::Whisper { from: from@, body: body@ },
        }
    }
}

impl DeepView for LogEvent {
    type V = LogEventView;

    open spec fn deep_view(&self) -> LogEventView {
        self@
    }
}

/// Why reading the log failed.
#[derive(Debug)]
pub enum LogError {
    Open { path: String, source: std::io::Error },
    Read { path: String, source: std::io::Error },
}

/// What a [`LogError`] says: the action and the path.
pub open spec fn log_error_text(e: LogError) -> Seq<char> {
    match e {
        LogError::Open { path, .. } => "opening "@ + path@,
        LogError::Read { path, .. } => "reading "@ + path@,
    }
}

impl LogError {
    /// The error as a sentence.
    pub fn message(&self) -> (r: String)
        ensures
            r@ == log_error_text(*self),
    {
        match self {
            LogError::Open { path, .. } => {
                let mut r = crate::text::owned("opening ");
                crate::text::push_str(&mut r, path.as_str());
                r
            },
            LogError::Read { path, .. } => {
                let mut r = crate::text::owned("reading ");
                crate::text::push_str(&mut r, path.as_str());
                r
            },
        }
    }
}

/// `std::io::Error`, carried through [`LogError`] untouched.
#[verifier::external_type_specification]
#[verifier::external_body]
pub struct ExIoError(std::io::Error);

// ---------------------------------------------------------------------------
// What a line says
// ---------------------------------------------------------------------------

pub open spec fn area_marker() -> Seq<char> {
    "] : You have entered "@
}

pub open spec fn payload_marker() -> Seq<char> {
    "] : "@
}

pub open spec fn level_marker() -> Seq<char> {
    " is now level "@
}

pub open spec fn class_open() -> Seq<char> {
    " ("@
}

pub open spec fn class_close() -> Seq<char> {
    ")"@
}

pub open spec fn whisper_marker() -> Seq<char> {
    "] "@
}

pub open spec fn from_marker() -> Seq<char> {
    "@From "@
}

pub open spec fn tag_open() -> Seq<char> {
    "<"@
}

pub open spec fn tag_close() -> Seq<char> {
    "> "@
}

pub open spec fn body_marker() -> Seq<char> {
    ": "@
}

pub open spec fn league_marker() -> Seq<char> {
    " in "@
}

/// The area a "You have entered" line names, without its full stop.
pub open spec fn area_name(rest: Seq<char>) -> Seq<char> {
    trim_end_any_seq(trim_seq(rest), seq!['.'])
}

/// What a level-up line says, if the line is one.
pub open spec fn level_up_of(line: Seq<char>) -> Option<LogEventView> {
    match split_once_seq(line, payload_marker()) {
        None => None,
        Some((_, payload)) => match rsplit_once_seq(payload, level_marker()) {
            None => None,
            Some((name_and_class, level)) => match parse_u32_seq(trim_seq(level)) {
                None => None,
                Some(n) => match rsplit_once_seq(name_and_class, class_open()) {
                    None => None,
                    Some((character, class_and_close)) => match strip_suffix_seq(
                        class_and_close,
                        class_close(),
                    ) {
                        None => None,
                        Some(class) => if is_blank(character) || is_blank(class) {
                            None
                        } else {
                            Some(
                                LogEventView::LevelUp {
                                    character: trim_seq(character),
                                    class: class,
                                    level: n,
                                },
                            )
                        },
                    },
                },
            },
        },
    }
}

/// Who a whisper came from and what was written, past an optional guild
/// tag in angle brackets.
pub open spec fn after_tag(rest: Seq<char>) -> Option<Seq<char>> {
    match strip_prefix_seq(rest, tag_open()) {
        Some(after) => match split_once_seq(after, tag_close()) {
            Some((_, named)) => Some(named),
            None => None,
        },
        None => Some(rest),
    }
}

/// What an incoming whisper line says, if the line is one.
pub open spec fn whisper_of(line: Seq<char>) -> Option<LogEventView> {
    match split_once_seq(line, whisper_marker()) {
        None => None,
        Some((_, payload)) => match strip_prefix_seq(payload, from_marker()) {
            None => None,
            Some(rest) => match after_tag(rest) {
                None => None,
                Some(named) => match split_once_seq(named, body_marker()) {
                    None => None,
                    Some((from, body)) => if is_blank(from) {
                        None
                    } else {
                        Some(LogEventView::Whisper { from: trim_seq(from), body: body })
                    },
                },
            },
        },
    }
}

/// A level-up line reads `<head>] : <who> (<class>) is now level <n>`:
/// the character is `who` trimmed, the class is what stands in the last
/// parentheses before the last ` is now level `, neither is blank, and the
/// level is the number after it.
#[verifier::rlimit(60)]
pub proof fn a_level_up_line_names_character_class_and_level(line: Seq<char>)
    ensures
        event_of(line) matches Some(LogEventView::LevelUp { character, class, level }) ==> exists|
            head: Seq<char>,
            who: Seq<char>,
            number: Seq<char>,
        |
            #![trigger head + "] : "@, trim_seq(who), trim_seq(number)]
            line == head + "] : "@ + who + " ("@ + class + ")"@ + " is now level "@ + number
                && !contains_seq(head, "] : "@) && !contains_seq(number, " is now level "@)
                && trim_seq(who) == character && !is_blank(who) && !is_blank(class) && parse_u32_seq(
                trim_seq(number),
            ) == Some(level),
{
    reveal_strlit("] : ");
    reveal_strlit(" is now level ");
    reveal_strlit(" (");
    reveal_strlit(")");
    if let Some(LogEventView::LevelUp { character, class, level }) = event_of(line) {
        lemma_level_up_line(line);
        lemma_whisper_kind(line);
        assert(split_once_seq(line, area_marker()) is None);
        assert(level_up_of(line) == event_of(line));
        lemma_split_once_parts(line, payload_marker());
        let (head, payload) = split_once_seq(line, payload_marker()).unwrap();
        lemma_rsplit_once_parts(payload, level_marker());
        let (name_and_class, number) = rsplit_once_seq(payload, level_marker()).unwrap();
        lemma_rsplit_once_parts(name_and_class, class_open());
        let (who, class_and_close) = rsplit_once_seq(name_and_class, class_open()).unwrap();
        lemma_strip_suffix_parts(class_and_close, class_close());
        assert(line =~= head + "] : "@ + who + " ("@ + class + ")"@ + " is now level "@ + number);
    }
}

/// A line with the area marker is no level-up.
proof fn lemma_level_up_line(line: Seq<char>)
    ensures
        split_once_seq(line, area_marker()) is Some ==> event_of(line) matches Some(e) && e is EnteredArea
            || event_of(line) is None,
{
}

/// An area line names the text after the first `] : You have entered `,
/// trimmed, without the full stops that close it: the name is not empty
/// and does not itself end with a full stop.
#[verifier::rlimit(60)]
pub proof fn an_area_line_names_the_area(line: Seq<char>)
    ensures
        event_of(line) matches Some(LogEventView::EnteredArea { name }) ==> exists|
            head: Seq<char>,
            text: Seq<char>,
            stops: Seq<char>,
        |
            #![trigger head + "] : You have entered "@, trim_seq(text), name + stops]
            line == head + "] : You have entered "@ + text && !contains_seq(
                head,
                "] : You have entered "@,
            ) && trim_seq(text) == name + stops && (forall|i: int|
                0 <= i < stops.len() ==> #[trigger] stops[i] == '.') && name.len() > 0 && name.last()
                != '.',
{
    reveal_strlit("] : You have entered ");
    if let Some(LogEventView::EnteredArea { name }) = event_of(line) {
        lemma_split_once_parts(line, area_marker());
        match split_once_seq(line, area_marker()) {
            Some((head, text)) => {
                let stops = lemma_trim_end_any_parts(trim_seq(text), seq!['.']);
                assert(name == area_name(text));
                assert forall|i: int| 0 <= i < stops.len() implies #[trigger] stops[i] == '.' by {
                    assert(seq!['.'].contains(stops[i]));
                }
                assert(!seq!['.'].contains(name.last()));
                assert(line == head + "] : You have entered "@ + text);
                assert(trim_seq(text) == name + stops);
                assert(name.len() > 0);
                assert(!contains_seq(head, "] : You have entered "@));
                if name.last() == '.' {
                    assert(seq!['.'][0] == name.last());
                }
                assert(name.last() != '.');
                assert(forall|i: int| 0 <= i < stops.len() ==> #[trigger] stops[i] == '.');
            },
            None => {
                lemma_level_up_kind(line);
                lemma_whisper_kind(line);
            },
        }
    }
}

proof fn lemma_level_up_kind(line: Seq<char>)
    ensures
        level_up_of(line) matches Some(e) ==> e is LevelUp,
{
}

proof fn lemma_whisper_kind(line: Seq<char>)
    ensures
        whisper_of(line) matches Some(e) ==> e is Whisper,
{
}

/// An incoming whisper's body is exactly the text after the first `: `
/// that follows its sender: the line ends with the sender, `: ` and the
/// body; the sender holds no `: ` and stands right after `@From `, or after
/// the `> ` closing a guild tag; and the whisper is from the sender,
/// trimmed.
pub proof fn a_whisper_body_is_what_follows_its_sender(line: Seq<char>)
    ensures
        event_of(line) matches Some(LogEventView::Whisper { from, body }) ==> exists|
            head: Seq<char>,
            sender: Seq<char>,
        |
            #![trigger head + sender]
            line == head + sender + ": "@ + body && !contains_seq(sender, ": "@) && !is_blank(sender)
                && trim_seq(sender) == from && (ends_with_seq(head, "@From "@) || ends_with_seq(
                head,
                "> "@,
            )),
{
    reveal_strlit(": ");
    reveal_strlit("] ");
    reveal_strlit("@From ");
    reveal_strlit("<");
    reveal_strlit("> ");
    if let Some(LogEventView::Whisper { from, body }) = event_of(line) {
        assert(whisper_of(line) == event_of(line));
        lemma_split_once_parts(line, whisper_marker());
        let (a, payload) = split_once_seq(line, whisper_marker()).unwrap();
        lemma_strip_prefix_parts(payload, from_marker());
        let rest = strip_prefix_seq(payload, from_marker()).unwrap();
        let named = after_tag(rest).unwrap();
        lemma_split_once_parts(named, body_marker());
        let (sender, said) = split_once_seq(named, body_marker()).unwrap();
        assert(said == body);
        let head = match strip_prefix_seq(rest, tag_open()) {
            Some(after) => {
                lemma_strip_prefix_parts(rest, tag_open());
                lemma_split_once_parts(after, tag_close());
                let (tag, n) = split_once_seq(after, tag_close()).unwrap();
                assert(n == named);
                let h = a + "] "@ + "@From "@ + "<"@ + tag + "> "@;
                assert(line =~= h + named);
                assert(h.skip(h.len() - 2) =~= "> "@);
                h
            },
            None => {
                assert(rest == named);
                let h = a + "] "@ + "@From "@;
                assert(line =~= h + named);
                assert(h.skip(h.len() - 6) =~= "@From "@);
                h
            },
        };
        assert(line =~= head + sender + ": "@ + body);
    }
}

/// What a log line says: an area entered, a level reached or a whisper
/// received, tried in that order.
pub open spec fn event_of(line: Seq<char>) -> Option<LogEventView> {
    match split_once_seq(line, area_marker()) {
        Some((_, rest)) => if area_name(rest).len() == 0 {
            None
        } else {
            Some(LogEventView::EnteredArea { name: area_name(rest) })
        },
        None => match level_up_of(line) {
            Some(e) => Some(e),
            None => whisper_of(line),
        },
    }
}

/// The characters before the first parenthesis, as the first piece of
/// `split(&['(', ')'])` gives them.
pub open spec fn before_paren(s: Seq<char>) -> Seq<char> {
    s.take(first_in(s, seq!['(', ')'], 0))
}

/// The league a trade whisper names, before any stash note, without
/// trailing punctuation.
pub open spec fn whisper_league(after: Seq<char>) -> Seq<char> {
    trim_end_any_seq(trim_seq(before_paren(after)), seq!['.', ','])
}

/// The most bytes a league name may take before it is taken for noise.
pub const LEAGUE_BYTES: usize = 40;

/// What [`league_from_whisper`] gives.
pub open spec fn league_of(body: Seq<char>) -> Option<Seq<char>> {
    match rsplit_once_seq(body, league_marker()) {
        None => None,
        Some((_, after)) => {
            let league = whisper_league(after);
            if league.len() == 0 || utf8_len(league) > LEAGUE_BYTES {
                None
            } else {
                Some(league)
            }
        },
    }
}

fn parse_level_up(line: &[char]) -> (r: Option<LogEvent>)
    ensures
        r.deep_view() == level_up_of(line@),
{
    let marker = chars_of("] : ");
    let (_, payload) = match split_once(line, marker.as_slice()) {
        Some(found) => found,
        None => return None,
    };
    let level_at = chars_of(" is now level ");
    let (name_and_class, level) = match rsplit_once(payload.as_slice(), level_at.as_slice()) {
        Some(found) => found,
        None => return None,
    };
    let trimmed = trim(level.as_slice());
    let n = match parse_u32(trimmed.as_slice()) {
        Some(n) => n,
        None => return None,
    };
    let open = chars_of(" (");
    let (character, class_and_close) = match rsplit_once(name_and_class.as_slice(), open.as_slice()) {
        Some(found) => found,
        None => return None,
    };
    let close = chars_of(")");
    let class = match strip_suffix(class_and_close.as_slice(), close.as_slice()) {
        Some(class) => class,
        None => return None,
    };
    if is_blank_chars(character.as_slice()) || is_blank_chars(class.as_slice()) {
        return None;
    }
    let name = trim(character.as_slice());
    Some(
        LogEvent::LevelUp {
            character: string_of(name.as_slice()),
            class: string_of(class.as_slice()),
            level: n,
        },
    )
}

fn parse_whisper(line: &[char]) -> (r: Option<LogEvent>)
    ensures
        r.deep_view() == whisper_of(line@),
{
    let marker = chars_of("] ");
    let (_, payload) = match split_once(line, marker.as_slice()) {
        Some(found) => found,
        None => return None,
    };
    let from_at = chars_of("@From ");
    let rest = match strip_prefix(payload.as_slice(), from_at.as_slice()) {
        Some(rest) => rest,
        None => return None,
    };
    let tag = chars_of("<");
    let named = match strip_prefix(rest.as_slice(), tag.as_slice()) {
        Some(after) => {
            let close = chars_of("> ");
            match split_once(after.as_slice(), close.as_slice()) {
                Some((_, named)) => named,
                None => return None,
            }
        },
        None => rest,
    };
    let colon = chars_of(": ");
    let (from, body) = match split_once(named.as_slice(), colon.as_slice()) {
        Some(found) => found,
        None => return None,
    };
    if is_blank_chars(from.as_slice()) {
        return None;
    }
    let who = trim(from.as_slice());
    Some(LogEvent::Whisper { from: string_of(who.as_slice()), body: string_of(body.as_slice()) })
}

/// What one line of the log says, if anything.
pub fn parse_log_line(line: &str) -> (r: Option<LogEvent>)
    ensures
        r.deep_view() == event_of(line@),
{
    let cs = chars_of(line);
    let marker = chars_of("] : You have entered ");
    if let Some((_, rest)) = split_once(cs.as_slice(), marker.as_slice()) {
        let trimmed = trim(rest.as_slice());
        let dot: Vec<char> = vec!['.'];
        assert(dot@ == seq!['.']);
        let name = trim_end_any(trimmed.as_slice(), dot.as_slice());
        if name.len() == 0 {
            return None;
        }
        return Some(LogEvent::EnteredArea { name: string_of(name.as_slice()) });
    }
    if let Some(event) = parse_level_up(cs.as_slice()) {
        return Some(event);
    }
    parse_whisper(cs.as_slice())
}

/// The characters of `s` before the first `(` or `)`.
fn up_to_paren(s: &[char]) -> (r: Vec<char>)
    ensures
        r@ == before_paren(s@),
{
    let parens: Vec<char> = vec!['(', ')'];
    assert(parens@ == seq!['(', ')']);
    let k = first_of(s, parens.as_slice());
    slice_of(s, 0, k)
}

/// The league a trade whisper names ("... listed for 5 divine in
/// Standard"), if it names one of a sensible length.
pub fn league_from_whisper(body: &str) -> (r: Option<String>)
    ensures
        r.deep_view() == league_of(body@),
{
    let cs = chars_of(body);
    let marker = chars_of(" in ");
    let (_, after) = match rsplit_once(cs.as_slice(), marker.as_slice()) {
        Some(found) => found,
        None => return None,
    };
    let head = up_to_paren(after.as_slice());
    let trimmed = trim(head.as_slice());
    let punctuation: Vec<char> = vec!['.', ','];
    assert(punctuation@ == seq!['.', ',']);
    let league = trim_end_any(trimmed.as_slice(), punctuation.as_slice());
    if league.len() == 0 {
        return None;
    }
    if !fits_bytes(league.as_slice(), LEAGUE_BYTES) {
        return None;
    }
    Some(string_of(league.as_slice()))
}

/// Whether `s` takes at most `limit` bytes in UTF-8.
pub fn fits_bytes(s: &[char], limit: usize) -> (r: bool)
    ensures
        r == (utf8_len(s@) <= limit),
{
    let mut n: usize = 0;
    let mut i: usize = 0;
    while i < s.len()
        invariant
            i <= s.len(),
            n == utf8_len(s@.take(i as int)),
            n <= limit,
        decreases s.len() - i,
    {
        proof {
            assert(s@.take(i as int + 1).drop_last() == s@.take(i as int));
        }
        let v = s[i] as u32;
        let w: usize = if v < 0x80 {
            1
        } else if v < 0x800 {
            2
        } else if v < 0x10000 {
            3
        } else {
            4
        };
        if w > limit - n {
            proof {
                lemma_utf8_len_prefix(s@, i as int + 1);
            }
            return false;
        }
        n = n + w;
        i = i + 1;
    }
    assert(s@.take(s.len() as int) == s@);
    true
}

// ---------------------------------------------------------------------------
// Following the file
// ---------------------------------------------------------------------------

/// Where reading a file of `length` bytes starts, `position` bytes having
/// been read: there, unless the file is shorter, truncated, and read again
/// from its start.
pub open spec fn read_start(position: u64, length: u64) -> u64 {
    if length < position {
        0
    } else {
        position
    }
}

/// How far the file has been read once `lines` are taken in from
/// `position`: past them, and never past the file's end.
pub open spec fn position_after(position: u64, length: u64, lines: Seq<Seq<char>>) -> int {
    if position + bytes_read(lines) <= length {
        position + bytes_read(lines)
    } else {
        length as int
    }
}

/// A line is reported only once: when the lines read from where reading
/// starts run to the end of the file, the next look at a file of the same
/// length starts at its end and reads nothing. A file that shrank is read
/// from its start again.
pub proof fn a_line_is_reported_only_once(position: u64, length: u64, lines: Seq<Seq<char>>)
    requires
        read_start(position, length) + bytes_read(lines) == length,
    ensures
        position_after(read_start(position, length), length, lines) == length,
        read_start(position_after(read_start(position, length), length, lines) as u64, length)
            == length,
        length < position ==> read_start(position, length) == 0,
{
}

/// The events the lines hold, in order, skipping lines that say nothing.
pub open spec fn events_in(lines: Seq<Seq<char>>) -> Seq<LogEventView>
    decreases lines.len(),
{
    if lines.len() == 0 {
        Seq::empty()
    } else {
        match event_of(lines.last()) {
            Some(e) => events_in(lines.drop_last()).push(e),
            None => events_in(lines.drop_last()),
        }
    }
}

/// The bytes the lines took in the file, a newline after each.
pub open spec fn bytes_read(lines: Seq<Seq<char>>) -> int
    decreases lines.len(),
{
    if lines.len() == 0 {
        0
    } else {
        bytes_read(lines.drop_last()) + utf8_len(lines.last()) + 1
    }
}

/// Reading lines in two runs reports the events of the first run, then
/// those of the second, and counts the bytes of both; each line takes at
/// least its newline, and a line that says nothing adds no event.
pub proof fn reading_in_two_runs_is_reading_once(a: Seq<Seq<char>>, b: Seq<Seq<char>>)
    ensures
        events_in(a + b) == events_in(a) + events_in(b),
        bytes_read(a + b) == bytes_read(a) + bytes_read(b),
        bytes_read(b) >= b.len(),
        events_in(b).len() <= b.len(),
    decreases b.len(),
{
    if b.len() == 0 {
        assert(a + b =~= a);
        assert(events_in(a) + events_in(b) =~= events_in(a));
    } else {
        let rest = b.drop_last();
        reading_in_two_runs_is_reading_once(a, rest);
        assert((a + b).drop_last() =~= a + rest);
        assert((a + b).last() == b.last());
        match event_of(b.last()) {
            Some(e) => {
                assert(events_in(a) + events_in(rest).push(e) =~= (events_in(a) + events_in(rest)).push(e));
            },
            None => {},
        }
    }
}

pub open spec fn lines_view(lines: Seq<String>) -> Seq<Seq<char>> {
    lines.map_values(|l: String| l@)
}

/// Something that reads the game log: each poll hands over the events
/// written since the last one.
pub trait LogReader {
    fn poll(&mut self) -> Result<Vec<LogEvent>, LogError>;

    /// Follows the log at `path` from now on; a reader that follows no file
    /// ignores it.
    fn watch(&mut self, path: &str) {
    }
}

/// The reader for when there is no log: it never has anything to say.
#[derive(Debug, Clone, Copy, PartialEq, Eq, Structural)]
pub struct NoLog;

impl LogReader for NoLog {
    fn poll(&mut self) -> (r: Result<Vec<LogEvent>, LogError>)
        ensures
            r matches Ok(events) && events@.len() == 0,
    {
        Ok(Vec::new())
    }
}

/// Follows one log file, remembering how far into it has been read.
#[derive(Debug)]
pub struct GameLogWatcher {
    path: String,
    position: u64,
}

impl GameLogWatcher {
    pub closed spec fn spec_path(&self) -> Seq<char> {
        self.path@
    }

    pub closed spec fn spec_position(&self) -> u64 {
        self.position
    }

    /// A watcher that skips what the file already holds, `length` bytes.
    pub fn new(path: &str, length: u64) -> (w: Self)
        ensures
            w.spec_path() == path@,
            w.spec_position() == length,
    {
        GameLogWatcher { path: owned(path), position: length }
    }

    /// A watcher that reads the file from its first line.
    pub fn from_start(path: &str) -> (w: Self)
        ensures
            w.spec_path() == path@,
            w.spec_position() == 0,
    {
        GameLogWatcher { path: owned(path), position: 0 }
    }

    pub fn position(&self) -> (p: u64)
        ensures
            p == self.spec_position(),
    {
        self.position
    }

    pub fn path(&self) -> (p: &str)
        ensures
            p@ == self.spec_path(),
    {
        self.path.as_str()
    }

    /// Moves to another file, skipping its `length` bytes of backlog; the
    /// file already watched is left where it is.
    pub fn watch(&mut self, path: &str, length: u64)
        ensures
            old(self).spec_path() == path@ ==> *final(self) == *old(self),
            old(self).spec_path() != path@ ==> final(self).spec_path() == path@
                && final(self).spec_position() == length,
    {
        let wanted = chars_of(path);
        let current = chars_of(self.path.as_str());
        if same(wanted.as_slice(), current.as_slice()) {
            return;
        }
        self.path = owned(path);
        self.position = length;
    }

    /// Where to start reading a file that is now `length` bytes long, or
    /// `None` when nothing was added. A file shorter than what was read
    /// has been truncated and is read from its start again.
    pub fn read_from(&mut self, length: u64) -> (at: Option<u64>)
        ensures
            final(self).spec_path() == old(self).spec_path(),
            final(self).spec_position() == read_start(old(self).spec_position(), length),
            at == if length == final(self).spec_position() {
                None
            } else {
                Some(final(self).spec_position())
            },
    {
        if length < self.position {
            self.position = 0;
        }
        if length == self.position {
            return None;
        }
        Some(self.position)
    }

    /// Takes in the lines read from where [`read_from`](Self::read_from)
    /// said, from a file `length` bytes long: the position moves past them,
    /// never past the end of the file, and their events come back in order.
    pub fn consume(&mut self, length: u64, lines: &[String]) -> (events: Vec<LogEvent>)
        ensures
            final(self).spec_path() == old(self).spec_path(),
            final(self).spec_position() as int == position_after(
                old(self).spec_position(),
                length,
                lines_view(lines@),
            ),
            events.deep_view() == events_in(lines_view(lines@)),
    {
        let mut out: Vec<LogEvent> = Vec::new();
        let mut consumed: u64 = self.position;
        let ghost start = self.position as int;
        let mut i: usize = 0;
        while i < lines.len()
            invariant
                i <= lines.len(),
                out.deep_view() == events_in(lines_view(lines@.take(i as int))),
                consumed as int == if start + bytes_read(lines_view(lines@.take(i as int)))
                    <= u64::MAX {
                    start + bytes_read(lines_view(lines@.take(i as int)))
                } else {
                    u64::MAX as int
                },
                start >= 0,
            decreases lines.len() - i,
        {
            let line = chars_of(lines[i].as_str());
            proof {
                let before = lines_view(lines@.take(i as int));
                let after = lines_view(lines@.take(i as int + 1));
                assert(after.drop_last() == before);
                assert(after.last() == line@);
                lemma_bytes_read_nonneg(before);
            }
            let width = utf8_size(line.as_slice());
            consumed = consumed.saturating_add(width).saturating_add(1);
            if let Some(event) = parse_log_line(lines[i].as_str()) {
                out.push(event);
            }
            i = i + 1;
        }
        assert(lines@.take(lines.len() as int) == lines@);
        self.position = if consumed < length {
            consumed
        } else {
            length
        };
        out
    }
}

proof fn lemma_bytes_read_nonneg(lines: Seq<Seq<char>>)
    ensures
        bytes_read(lines) >= 0,
    decreases lines.len(),
{
    if lines.len() > 0 {
        lemma_bytes_read_nonneg(lines.drop_last());
    }
}

/// The byte length of `s`, or `u64::MAX` when it is longer than that.
fn utf8_size(s: &[char]) -> (n: u64)
    ensures
        n as int == if utf8_len(s@) <= u64::MAX {
            utf8_len(s@) as int
        } else {
            u64::MAX as int
        },
{
    let mut n: u64 = 0;
    let mut i: usize = 0;
    while i < s.len()
        invariant
            i <= s.len(),
            n as int == if utf8_len(s@.take(i as int)) <= u64::MAX {
                utf8_len(s@.take(i as int)) as int
            } else {
                u64::MAX as int
            },
        decreases s.len() - i,
    {
        proof {
            assert(s@.take(i as int + 1).drop_last() == s@.take(i as int));
        }
        let v = s[i] as u32;
        let w: u64 = if v < 0x80 {
            1
        } else if v < 0x800 {
            2
        } else if v < 0x10000 {
            3
        } else {
            4
        };
        n = n.saturating_add(w);
        i = i + 1;
    }
    assert(s@.take(s.len() as int) == s@);
    n
}

} // verus!
