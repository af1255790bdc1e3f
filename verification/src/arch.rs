//! The architecture scanner for this app's own sources: which layer may use
//! which, that `main` stays small, that every public function is called,
//! and the shared rules of [`crate::scan`].
use vstd::prelude::*;

use crate::scan::{
    alphanumeric, comment_violations, fake_violations, generated, hand_written_fakes, is_alphanumeric, is_generated, make_violation, main_size_violations, modules_are_declared, no_comments, oversized_main, undeclared, all_declarations, extend_violations, file_stem, file_stem_of, violation, Source, Violation, ViolationView,
};
use crate::text::{
    chars_of, chars_view, contains, contains_seq, decimal, decimal_chars, extend_chars, find_from, is_ascii_alnum, pieces_by, strip_cr, is_ascii_alphanumeric, lemma_find_from, lines_of, matches_at, matches_here, owned, push_all, push_str, same, slice_of, split_lines, starts_with, starts_with_seq, strip_prefix, strip_prefix_seq, string_of, trim, trim_seq, trim_start, trim_start_seq,
};

verus! {

/// The binary that must stay wiring only.
pub const MAIN_BINARY: &'static str = "src/bin/poe-wayfinder.rs";

/// The most lines the main binary may have.
pub const MAIN_MAX_LINES: usize = 220;

/// Files that may cross the layers, each with the reason it may.
pub const WAIVED: [(&'static str, &'static str); 2] = [
    (
        "src/driver/cli_driver.rs",
        "self tests and diagnostics read adapters directly on purpose, because their whole job is to report what one adapter sees before any controller exists to ask",
    ),
    (
        "src/driver/overlay_loop/wiring.rs",
        "the composition root builds concrete adapters and hands them to controllers, which is main's job and the one place the layering is meant to be crossed",
    ),
];

/// Files whose mentions of a function are not calls: tables that name
/// every symbol they measure.
pub const NOT_A_CALLER: [&'static str; 2] = [
    "src/bin/poe-wayfinder-uiparity.rs",
    "src/bin/poe-wayfinder-parity.rs",
];

pub open spec fn waived_paths() -> Seq<Seq<char>> {
    seq!["src/driver/cli_driver.rs"@, "src/driver/overlay_loop/wiring.rs"@]
}

pub open spec fn not_a_caller_paths() -> Seq<Seq<char>> {
    seq!["src/bin/poe-wayfinder-uiparity.rs"@, "src/bin/poe-wayfinder-parity.rs"@]
}

/// The file is waived from the layering and test-double rules.
pub open spec fn waived(relative: Seq<char>) -> bool {
    waived_paths().contains(relative)
}

pub fn is_waived(relative: &str) -> (r: bool)
    ensures
        r == waived(relative@),
{
    let cs = chars_of(relative);
    let mut i: usize = 0;
    while i < WAIVED.len()
        invariant
            i <= WAIVED.len(),
            cs@ == relative@,
            forall|k: int| 0 <= k < i ==> waived_paths()[k] != relative@,
        decreases WAIVED.len() - i,
    {
        let p = chars_of(WAIVED[i].0);
        proof {
            assert(WAIVED[i as int].0@ == waived_paths()[i as int]);
        }
        if same(p.as_slice(), cs.as_slice()) {
            assert(waived_paths()[i as int] == relative@);
            return true;
        }
        i = i + 1;
    }
    false
}

// ---------------------------------------------------------------------------
// Production code
// ---------------------------------------------------------------------------

pub open spec fn count_char(s: Seq<char>, c: char) -> int
    decreases s.len(),
{
    if s.len() == 0 {
        0
    } else {
        count_char(s.drop_last(), c) + if s.last() == c {
            1int
        } else {
            0int
        }
    }
}

/// Where the production filter stands after some lines: what it kept,
/// whether it is inside a test module, and how deep in braces.
pub struct Stripping {
    pub kept: Seq<char>,
    pub skipping: bool,
    pub depth: int,
}

pub open spec fn strip_step(st: Stripping, line: Seq<char>) -> Stripping {
    if !st.skipping && starts_with_seq(trim_start_seq(line), "#[cfg(test)]"@) {
        Stripping { kept: st.kept, skipping: true, depth: 0 }
    } else if !st.skipping {
        Stripping { kept: st.kept + line + seq!['\n'], skipping: false, depth: st.depth }
    } else {
        let d = st.depth + count_char(line, '{') - count_char(line, '}');
        Stripping { kept: st.kept, skipping: !(d <= 0 && count_char(line, '}') > 0), depth: d }
    }
}

pub open spec fn strip_lines(lines: Seq<Seq<char>>) -> Stripping
    decreases lines.len(),
{
    if lines.len() == 0 {
        Stripping { kept: Seq::empty(), skipping: false, depth: 0 }
    } else {
        strip_step(strip_lines(lines.drop_last()), lines.last())
    }
}

/// The text without its `#[cfg(test)]` modules: each line kept with a
/// newline after it, and a test module skipped until its braces close.
pub open spec fn production_of(text: Seq<char>) -> Seq<char> {
    strip_lines(lines_of(text)).kept
}

fn count_of(s: &[char], c: char) -> (n: usize)
    ensures
        n == count_char(s@, c),
{
    let mut n: usize = 0;
    let mut i: usize = 0;
    while i < s.len()
        invariant
            i <= s.len(),
            n == count_char(s@.take(i as int), c),
            n <= i,
        decreases s.len() - i,
    {
        proof {
            assert(s@.take(i as int + 1).drop_last() == s@.take(i as int));
        }
        if s[i] == c {
            n = n + 1;
        }
        i = i + 1;
    }
    assert(s@.take(s.len() as int) == s@);
    n
}

proof fn lemma_count_char_bound(s: Seq<char>, c: char)
    ensures
        0 <= count_char(s, c) <= s.len(),
    decreases s.len(),
{
    if s.len() > 0 {
        lemma_count_char_bound(s.drop_last(), c);
    }
}

pub open spec fn total_len(lines: Seq<Seq<char>>) -> int
    decreases lines.len(),
{
    if lines.len() == 0 {
        0
    } else {
        total_len(lines.drop_last()) + lines.last().len()
    }
}

proof fn lemma_depth_bound(lines: Seq<Seq<char>>)
    ensures
        -total_len(lines) <= strip_lines(lines).depth <= total_len(lines),
        total_len(lines) >= 0,
    decreases lines.len(),
{
    if lines.len() > 0 {
        lemma_depth_bound(lines.drop_last());
        lemma_count_char_bound(lines.last(), '{');
        lemma_count_char_bound(lines.last(), '}');
    }
}

fn production_chars(text: &[char]) -> (r: Vec<char>)
    requires
        text@.len() < 0x4000_0000_0000_0000,
    ensures
        r@ == production_of(text@),
{
    let lines = split_lines(text);
    let ghost all = chars_view(lines@);
    proof {
        lemma_lines_total(text@);
    }
    let marker = chars_of("#[cfg(test)]");
    let mut kept: Vec<char> = Vec::new();
    let mut skipping = false;
    let mut depth: i64 = 0;
    let mut n: usize = 0;
    while n < lines.len()
        invariant
            n <= lines.len(),
            all == chars_view(lines@),
            all == lines_of(text@),
            total_len(all) <= text@.len(),
            text@.len() < 0x4000_0000_0000_0000,
            marker@ == "#[cfg(test)]"@,
            strip_lines(all.take(n as int)) == (Stripping {
                kept: kept@,
                skipping,
                depth: depth as int,
            }),
        decreases lines.len() - n,
    {
        let ghost before = strip_lines(all.take(n as int));
        proof {
            assert(all.take(n as int + 1).drop_last() == all.take(n as int));
            assert(all.take(n as int + 1).last() == lines@[n as int]@);
            lemma_depth_bound(all.take(n as int));
            lemma_total_len_prefix(all, n as int + 1);
            assert(total_len(all.take(n as int + 1)) == total_len(all.take(n as int))
                + lines@[n as int]@.len());
        }
        let line = &lines[n];
        let t = trim_start(line.as_slice());
        if !skipping && starts_with(t.as_slice(), marker.as_slice()) {
            skipping = true;
            depth = 0;
            assert(t@ == trim_start_seq(line@));
        } else if !skipping {
            extend_chars(&mut kept, line.as_slice());
            kept.push('\n');
            assert(t@ == trim_start_seq(line@));
            assert(kept@ == before.kept + line@ + seq!['\n']);
        } else {
            let opens = count_of(line.as_slice(), '{');
            let closes = count_of(line.as_slice(), '}');
            proof {
                lemma_count_char_bound(line@, '{');
                lemma_count_char_bound(line@, '}');
            }
            let up: i64 = depth + opens as i64;
            depth = up - closes as i64;
            if depth <= 0 && closes > 0 {
                skipping = false;
            }
            assert(depth == before.depth + count_char(line@, '{') - count_char(line@, '}'));
        }
        proof {
            assert(strip_lines(all.take(n as int + 1)) == strip_step(before, line@));
        }
        n = n + 1;
    }
    assert(all.take(lines.len() as int) == all);
    kept
}

proof fn lemma_total_len_prefix(lines: Seq<Seq<char>>, k: int)
    requires
        0 <= k <= lines.len(),
    ensures
        total_len(lines.take(k)) <= total_len(lines),
    decreases lines.len(),
{
    if k < lines.len() {
        assert(lines.drop_last().take(k) == lines.take(k));
        lemma_total_len_prefix(lines.drop_last(), k);
    } else {
        assert(lines.take(k) == lines);
    }
}

proof fn lemma_total_len_update_last(b: Seq<Seq<char>>, x: Seq<char>)
    requires
        b.len() > 0,
    ensures
        total_len(b.update(b.len() - 1, x)) == total_len(b.drop_last()) + x.len(),
{
    assert(b.update(b.len() - 1, x).drop_last() == b.drop_last());
}

proof fn lemma_pieces_total(s: Seq<char>, sep: char)
    ensures
        pieces_by(s, sep).len() >= 1,
        total_len(pieces_by(s, sep)) + pieces_by(s, sep).len() - 1 == s.len(),
    decreases s.len(),
{
    if s.len() > 0 {
        lemma_pieces_total(s.drop_last(), sep);
        let before = pieces_by(s.drop_last(), sep);
        assert(total_len(before) == total_len(before.drop_last()) + before.last().len());
        if s.last() == sep {
            let after = before.push(Seq::<char>::empty());
            assert(after.drop_last() == before);
            assert(total_len(after) == total_len(before));
            assert(pieces_by(s, sep) == after);
        } else {
            let after = before.update(before.len() - 1, before.last().push(s.last()));
            lemma_total_len_update_last(before, before.last().push(s.last()));
            assert(total_len(after) == total_len(before) + 1);
            assert(pieces_by(s, sep) == after);
        }
    } else {
        let only = seq![Seq::<char>::empty()];
        assert(only.drop_last() == Seq::<Seq<char>>::empty());
        assert(total_len(only.drop_last()) == 0);
        assert(only.last().len() == 0);
        assert(total_len(only) == total_len(only.drop_last()) + only.last().len());
    }
}

proof fn lemma_strip_cr_total(q: Seq<Seq<char>>)
    ensures
        total_len(q.map_values(|p: Seq<char>| strip_cr(p))) <= total_len(q),
    decreases q.len(),
{
    if q.len() > 0 {
        lemma_strip_cr_total(q.drop_last());
        assert(q.map_values(|p: Seq<char>| strip_cr(p)).drop_last() == q.drop_last().map_values(
            |p: Seq<char>| strip_cr(p),
        ));
    }
}

/// The lines of a text hold no more characters than the text.
proof fn lemma_lines_total(text: Seq<char>)
    ensures
        total_len(lines_of(text)) <= text.len(),
{
    let p = pieces_by(text, '\n');
    lemma_pieces_total(text, '\n');
    lemma_strip_cr_total(p.drop_last());
    let done = p.drop_last().map_values(|q: Seq<char>| strip_cr(q));
    if p.last().len() != 0 {
        assert(done.push(p.last()).drop_last() == done);
    }
}

/// The production code of `text`, without its test modules.
pub fn production(text: &str) -> (r: String)
    requires
        text@.len() < 0x4000_0000_0000_0000,
    ensures
        r@ == production_of(text@),
{
    let cs = chars_of(text);
    let kept = production_chars(cs.as_slice());
    string_of(kept.as_slice())
}

// ---------------------------------------------------------------------------
// Public functions and their callers
// ---------------------------------------------------------------------------

pub open spec fn ident_char(c: char) -> bool {
    alphanumeric(c) || c == '_'
}

/// How many characters from `k` on are identifier characters.
pub open spec fn ident_end(s: Seq<char>, k: int) -> int
    decreases s.len() - k,
{
    if k < 0 || k >= s.len() {
        s.len() as int
    } else if ident_char(s[k]) {
        ident_end(s, k + 1)
    } else {
        k
    }
}

/// The identifier `s` starts with.
pub open spec fn leading_ident(s: Seq<char>) -> Seq<char> {
    s.take(ident_end(s, 0))
}

pub fn leading_identifier(s: &[char]) -> (r: Vec<char>)
    ensures
        r@ == leading_ident(s@),
{
    let mut k: usize = 0;
    while k < s.len() && (is_alphanumeric(s[k]) || s[k] == '_')
        invariant
            k <= s.len(),
            ident_end(s@, 0) == ident_end(s@, k as int),
        decreases s.len() - k,
    {
        k = k + 1;
    }
    slice_of(s, 0, k)
}

/// Names that every type has, so an uncalled one is no news.
pub open spec fn exempt(name: Seq<char>) -> bool {
    ||| name == "new"@
    ||| name == "default"@
    ||| name == "fmt"@
    ||| name == "from"@
    ||| name == "parse"@
    ||| name == "as_str"@
}

/// The public function a line declares, if it declares one that counts.
pub open spec fn declared_public(line: Seq<char>) -> Option<Seq<char>> {
    match strip_prefix_seq(trim_start_seq(line), "pub fn "@) {
        Some(rest) => {
            let name = leading_ident(rest);
            if name.len() == 0 || exempt(name) {
                None
            } else {
                Some(name)
            }
        },
        None => None,
    }
}

pub open spec fn public_in(lines: Seq<Seq<char>>) -> Seq<Seq<char>>
    decreases lines.len(),
{
    if lines.len() == 0 {
        Seq::empty()
    } else {
        match declared_public(lines.last()) {
            Some(name) => public_in(lines.drop_last()).push(name),
            None => public_in(lines.drop_last()),
        }
    }
}

/// The public functions a text declares outside its tests, in order.
pub open spec fn public_functions_of(text: Seq<char>) -> Seq<Seq<char>> {
    public_in(lines_of(production_of(text)))
}

fn is_exempt(name: &[char]) -> (r: bool)
    ensures
        r == exempt(name@),
{
    same(name, chars_of("new").as_slice()) || same(name, chars_of("default").as_slice()) || same(
        name,
        chars_of("fmt").as_slice(),
    ) || same(name, chars_of("from").as_slice()) || same(name, chars_of("parse").as_slice())
        || same(name, chars_of("as_str").as_slice())
}

proof fn lemma_public_in_nonempty(lines: Seq<Seq<char>>)
    ensures
        forall|k: int|
            0 <= k < public_in(lines).len() ==> #[trigger] public_in(lines)[k].len() > 0,
    decreases lines.len(),
{
    if lines.len() > 0 {
        lemma_public_in_nonempty(lines.drop_last());
        let before = public_in(lines.drop_last());
        match declared_public(lines.last()) {
            Some(name) => {
                assert forall|k: int| 0 <= k < before.push(name).len() implies #[trigger] before.push(
                    name,
                )[k].len() > 0 by {
                    if k < before.len() {
                        assert(before.push(name)[k] == before[k]);
                    }
                }
            },
            None => {},
        }
    }
}

fn public_functions_chars(text: &[char]) -> (r: Vec<Vec<char>>)
    requires
        text@.len() < 0x4000_0000_0000_0000,
    ensures
        chars_view(r@) == public_functions_of(text@),
        forall|k: int| 0 <= k < r@.len() ==> #[trigger] r@[k]@.len() > 0,
{
    let prod = production_chars(text);
    let lines = split_lines(prod.as_slice());
    let ghost all = chars_view(lines@);
    let marker = chars_of("pub fn ");
    let mut out: Vec<Vec<char>> = Vec::new();
    let mut n: usize = 0;
    while n < lines.len()
        invariant
            n <= lines.len(),
            all == chars_view(lines@),
            all == lines_of(prod@),
            prod@ == production_of(text@),
            marker@ == "pub fn "@,
            chars_view(out@) == public_in(all.take(n as int)),
            out@.len() == public_in(all.take(n as int)).len(),
        decreases lines.len() - n,
    {
        proof {
            assert(all.take(n as int + 1).drop_last() == all.take(n as int));
            assert(all.take(n as int + 1).last() == lines@[n as int]@);
        }
        let t = trim_start(lines[n].as_slice());
        if let Some(rest) = strip_prefix(t.as_slice(), marker.as_slice()) {
            let name = leading_identifier(rest.as_slice());
            if name.len() > 0 && !is_exempt(name.as_slice()) {
                let ghost before = out@;
                out.push(name);
                proof {
                    assert(chars_view(out@) =~= chars_view(before).push(out@[before.len() as int]@));
                }
            }
        }
        n = n + 1;
    }
    assert(all.take(lines.len() as int) == all);
    proof {
        lemma_public_in_nonempty(all);
        assert forall|k: int| 0 <= k < out@.len() implies #[trigger] out@[k]@.len() > 0 by {
            assert(chars_view(out@)[k] == out@[k]@);
        }
    }
    out
}

/// The public functions `text` declares outside its tests; constructors
/// and the other names every type has are left out.
pub fn public_functions(text: &str) -> (r: Vec<String>)
    requires
        text@.len() < 0x4000_0000_0000_0000,
    ensures
        r@.map_values(|s: String| s@) == public_functions_of(text@),
{
    let cs = chars_of(text);
    let names = public_functions_chars(cs.as_slice());
    let mut out: Vec<String> = Vec::new();
    let mut i: usize = 0;
    while i < names.len()
        invariant
            i <= names.len(),
            out@.len() == i,
            out@.map_values(|s: String| s@) == chars_view(names@).take(i as int),
        decreases names.len() - i,
    {
        let ghost before = out@;
        out.push(string_of(names[i].as_slice()));
        i = i + 1;
        proof {
            assert(out@.map_values(|s: String| s@) =~= chars_view(names@).take(i as int)) by {
                assert forall|k: int| 0 <= k < i implies out@.map_values(|s: String| s@)[k]
                    == chars_view(names@).take(i as int)[k] by {
                    if k < i - 1 {
                        assert(out@[k] == before[k]);
                    }
                }
            }
        }
    }
    assert(chars_view(names@).take(names.len() as int) == chars_view(names@));
    out
}

/// The characters of a line that are not inside a string literal; an
/// escaped quote inside one does not end it.
pub struct Unquoting {
    pub kept: Seq<char>,
    pub quoted: bool,
    pub escaped: bool,
}

pub open spec fn unquote_step(st: Unquoting, c: char) -> Unquoting {
    if st.escaped {
        Unquoting { escaped: false, ..st }
    } else if c == '\\' && st.quoted {
        Unquoting { escaped: true, ..st }
    } else if c == '"' {
        Unquoting { quoted: !st.quoted, ..st }
    } else if st.quoted {
        st
    } else {
        Unquoting { kept: st.kept.push(c), ..st }
    }
}

pub open spec fn unquote_all(s: Seq<char>) -> Unquoting
    decreases s.len(),
{
    if s.len() == 0 {
        Unquoting { kept: Seq::empty(), quoted: false, escaped: false }
    } else {
        unquote_step(unquote_all(s.drop_last()), s.last())
    }
}

pub open spec fn unquoted(s: Seq<char>) -> Seq<char> {
    unquote_all(s).kept
}

fn unquote(s: &[char]) -> (r: Vec<char>)
    ensures
        r@ == unquoted(s@),
{
    let mut out: Vec<char> = Vec::new();
    let mut quoted = false;
    let mut escaped = false;
    let mut i: usize = 0;
    while i < s.len()
        invariant
            i <= s.len(),
            unquote_all(s@.take(i as int)) == (Unquoting { kept: out@, quoted, escaped }),
        decreases s.len() - i,
    {
        proof {
            assert(s@.take(i as int + 1).drop_last() == s@.take(i as int));
        }
        let c = s[i];
        if escaped {
            escaped = false;
        } else if c == '\\' && quoted {
            escaped = true;
        } else if c == '"' {
            quoted = !quoted;
        } else if !quoted {
            out.push(c);
        }
        i = i + 1;
    }
    assert(s@.take(s.len() as int) == s@);
    out
}

/// `line` without what stands inside string literals.
pub fn outside_quotes(line: &str) -> (r: String)
    ensures
        r@ == unquoted(line@),
{
    let cs = chars_of(line);
    let out = unquote(cs.as_slice());
    string_of(out.as_slice())
}

/// `line` without what stands inside string literals.
pub fn without_string_literals(line: &str) -> (r: String)
    ensures
        r@ == unquoted(line@),
{
    let cs = chars_of(line);
    let mut out: Vec<char> = Vec::new();
    let mut inside = false;
    let mut escaped = false;
    let mut i: usize = 0;
    while i < cs.len()
        invariant
            i <= cs.len(),
            unquote_all(cs@.take(i as int)) == (Unquoting {
                kept: out@,
                quoted: inside,
                escaped,
            }),
        decreases cs.len() - i,
    {
        proof {
            assert(cs@.take(i as int + 1).drop_last() == cs@.take(i as int));
        }
        let c = cs[i];
        if escaped {
            escaped = false;
        } else if c == '\\' && inside {
            escaped = true;
        } else if c == '"' {
            inside = !inside;
        } else if !inside {
            out.push(c);
        }
        i = i + 1;
    }
    assert(cs@.take(cs.len() as int) == cs@);
    string_of(out.as_slice())
}

/// A byte that can be part of an identifier.
pub open spec fn word_byte(b: u8) -> bool {
    (0x30 <= b && b <= 0x39) || (0x41 <= b && b <= 0x5a) || (0x61 <= b && b <= 0x7a) || b == 0x5f
}

pub fn is_word_byte(byte: u8) -> (r: bool)
    ensures
        r == word_byte(byte),
{
    (0x30 <= byte && byte <= 0x39) || (0x41 <= byte && byte <= 0x5a) || (0x61 <= byte && byte
        <= 0x7a) || byte == 0x5f
}

/// A character that can be part of an identifier; a non-ASCII one never
/// is, as none of its bytes is.
pub open spec fn word_char(c: char) -> bool {
    is_ascii_alnum(c) || c == '_'
}

/// An occurrence of `name` at or after `from`, found one after the other,
/// stands alone as a word.
pub open spec fn mentions_from(line: Seq<char>, name: Seq<char>, from: int) -> bool
    decreases line.len() + 1 - from,
{
    if from < 0 || name.len() == 0 {
        false
    } else {
        match find_from(line, name, from) {
            None => false,
            Some(start) => {
                let end = start + name.len();
                let before_ok = start == 0 || !word_char(line[start - 1]);
                let after_ok = end >= line.len() || !word_char(line[end]);
                if before_ok && after_ok {
                    true
                } else if end > from && end <= line.len() + 1 {
                    mentions_from(line, name, end)
                } else {
                    false
                }
            },
        }
    }
}

/// `line` names `name` as a word of its own, not inside a longer one.
pub open spec fn mentions_word(line: Seq<char>, name: Seq<char>) -> bool {
    mentions_from(line, name, 0)
}

fn mentions_chars(line: &[char], name: &[char]) -> (r: bool)
    requires
        name@.len() > 0,
    ensures
        r == mentions_word(line@, name@),
{
    let mut from: usize = 0;
    loop
        invariant
            name@.len() > 0,
            from <= line.len(),
            mentions_word(line@, name@) == mentions_from(line@, name@, from as int),
        decreases line.len() - from,
    {
        let found = find_after(line, name, from);
        match found {
            None => return false,
            Some(start) => {
                proof {
                    lemma_find_from(line@, name@, from as int);
                }
                assert(matches_at(line@, name@, start as int));
                let end = start + name.len();
                let before_ok = start == 0 || !is_word_char(line[start - 1]);
                let after_ok = end >= line.len() || !is_word_char(line[end]);
                if before_ok && after_ok {
                    return true;
                }
                if end == line.len() {
                    proof {
                        lemma_find_from(line@, name@, end as int);
                        assert(find_from(line@, name@, end as int) is None);
                        assert(!mentions_from(line@, name@, end as int));
                    }
                    return false;
                }
                from = end;
            },
        }
    }
}

fn is_word_char(c: char) -> (r: bool)
    ensures
        r == word_char(c),
{
    is_ascii_alphanumeric(c) || c == '_'
}

/// The first occurrence of `p` in `s` at or after `from`.
fn find_after(s: &[char], p: &[char], from: usize) -> (r: Option<usize>)
    requires
        from <= s.len(),
    ensures
        match r {
            Some(i) => find_from(s@, p@, from as int) == Some(i as int),
            None => find_from(s@, p@, from as int) is None,
        },
{
    if p.len() > s.len() || from > s.len() - p.len() {
        return None;
    }
    let mut k: usize = from;
    let last = s.len() - p.len();
    loop
        invariant
            last == s.len() - p.len(),
            p.len() <= s.len(),
            from <= k <= last,
            find_from(s@, p@, from as int) == find_from(s@, p@, k as int),
        decreases last - k,
    {
        if matches_here(s, p, k) {
            return Some(k);
        }
        if k == last {
            assert(find_from(s@, p@, k + 1) is None);
            return None;
        }
        k = k + 1;
    }
}

/// `line` names `name` as a word of its own.
pub fn mentions(line: &str, name: &str) -> (r: bool)
    requires
        name@.len() > 0,
    ensures
        r == mentions_word(line@, name@),
{
    let l = chars_of(line);
    let n = chars_of(name);
    mentions_chars(l.as_slice(), n.as_slice())
}

/// A line that calls, imports or otherwise uses `name`, rather than
/// defining it.
pub open spec fn uses(line: Seq<char>, name: Seq<char>) -> bool {
    let t = trim_start_seq(line);
    !starts_with_seq(t, "pub fn "@ + name) && !starts_with_seq(t, "fn "@ + name) && mentions_word(
        unquoted(line),
        name,
    )
}

pub open spec fn uses_in(lines: Seq<Seq<char>>, name: Seq<char>) -> nat
    decreases lines.len(),
{
    if lines.len() == 0 {
        0
    } else {
        uses_in(lines.drop_last(), name) + if uses(lines.last(), name) {
            1nat
        } else {
            0nat
        }
    }
}

/// How many production lines of `text` use `name`.
pub open spec fn calls_of(text: Seq<char>, name: Seq<char>) -> nat {
    uses_in(lines_of(production_of(text)), name)
}

fn calls_in_chars(text: &[char], name: &[char]) -> (n: usize)
    requires
        name@.len() > 0,
        text@.len() < 0x4000_0000_0000_0000,
    ensures
        n == calls_of(text@, name@),
{
    let prod = production_chars(text);
    let lines = split_lines(prod.as_slice());
    let ghost all = chars_view(lines@);
    let mut pub_fn = chars_of("pub fn ");
    extend_chars(&mut pub_fn, name);
    let mut plain_fn = chars_of("fn ");
    extend_chars(&mut plain_fn, name);
    let mut count: usize = 0;
    let mut n: usize = 0;
    while n < lines.len()
        invariant
            n <= lines.len(),
            all == chars_view(lines@),
            all == lines_of(prod@),
            prod@ == production_of(text@),
            name@.len() > 0,
            pub_fn@ == "pub fn "@ + name@,
            plain_fn@ == "fn "@ + name@,
            count == uses_in(all.take(n as int), name@),
            count <= n,
        decreases lines.len() - n,
    {
        proof {
            assert(all.take(n as int + 1).drop_last() == all.take(n as int));
            assert(all.take(n as int + 1).last() == lines@[n as int]@);
        }
        let line = &lines[n];
        let t = trim_start(line.as_slice());
        if !starts_with(t.as_slice(), pub_fn.as_slice()) && !starts_with(
            t.as_slice(),
            plain_fn.as_slice(),
        ) {
            let code = unquote(line.as_slice());
            if mentions_chars(code.as_slice(), name) {
                count = count + 1;
            }
        }
        n = n + 1;
    }
    assert(all.take(lines.len() as int) == all);
    count
}

/// How many production lines of `text` use `name`, other than the lines
/// that define it.
pub fn calls_in(text: &str, name: &str) -> (n: usize)
    requires
        name@.len() > 0,
        text@.len() < 0x4000_0000_0000_0000,
    ensures
        n == calls_of(text@, name@),
{
    let t = chars_of(text);
    let m = chars_of(name);
    calls_in_chars(t.as_slice(), m.as_slice())
}

// ---------------------------------------------------------------------------
// Wiring and tests
// ---------------------------------------------------------------------------

/// How many public functions have a caller, out of how many.
pub struct Wiring {
    pub wired: usize,
    pub total: usize,
}

/// Every source is small enough to scan.
pub open spec fn scannable(sources: Seq<Source>) -> bool {
    forall|k: int| 0 <= k < sources.len() ==> #[trigger] sources[k].text@.len()
        < 0x4000_0000_0000_0000
}

/// A source that can call: not generated, and not a table of names.
pub open spec fn can_call(s: Source) -> bool {
    !generated(s.relative@) && !not_a_caller_paths().contains(s.relative@)
}

/// Some source that can call uses `name`.
pub open spec fn called(everything: Seq<Source>, name: Seq<char>) -> bool {
    exists|k: int|
        0 <= k < everything.len() && can_call(everything[k]) && calls_of(
            #[trigger] everything[k].text@,
            name,
        ) > 0
}

/// The public functions of every non-generated source, in order, each
/// with the path of its file.
pub open spec fn all_public(sources: Seq<Source>) -> Seq<(Seq<char>, Seq<char>)>
    decreases sources.len(),
{
    if sources.len() == 0 {
        Seq::empty()
    } else {
        let s = sources.last();
        let before = all_public(sources.drop_last());
        if generated(s.relative@) {
            before
        } else {
            before + public_functions_of(s.text@).map_values(
                |name: Seq<char>| (s.relative@, name),
            )
        }
    }
}

/// How many of `names` have a caller among `everything`.
pub open spec fn wired_count(names: Seq<(Seq<char>, Seq<char>)>, everything: Seq<Source>) -> nat
    decreases names.len(),
{
    if names.len() == 0 {
        0
    } else {
        wired_count(names.drop_last(), everything) + if called(everything, names.last().1) {
            1nat
        } else {
            0nat
        }
    }
}

/// The public functions with no caller, as violations.
pub open spec fn unwired(names: Seq<(Seq<char>, Seq<char>)>, everything: Seq<Source>) -> Seq<
    ViolationView,
>
    decreases names.len(),
{
    if names.len() == 0 {
        Seq::empty()
    } else {
        let before = unwired(names.drop_last(), everything);
        let (path, name) = names.last();
        if called(everything, name) {
            before
        } else {
            before.push(
                violation(
                    "no unwired code"@,
                    path,
                    name + " is public and no production code calls it"@,
                ),
            )
        }
    }
}

fn can_call_source(s: &Source) -> (r: bool)
    ensures
        r == can_call(*s),
{
    if is_generated(s.relative.as_str()) {
        return false;
    }
    let rel = chars_of(s.relative.as_str());
    let mut i: usize = 0;
    while i < NOT_A_CALLER.len()
        invariant
            i <= NOT_A_CALLER.len(),
            rel@ == s.relative@,
            forall|k: int| 0 <= k < i ==> not_a_caller_paths()[k] != s.relative@,
        decreases NOT_A_CALLER.len() - i,
    {
        let p = chars_of(NOT_A_CALLER[i]);
        proof {
            assert(NOT_A_CALLER[i as int]@ == not_a_caller_paths()[i as int]);
        }
        if same(p.as_slice(), rel.as_slice()) {
            assert(not_a_caller_paths()[i as int] == s.relative@);
            return false;
        }
        i = i + 1;
    }
    true
}

/// Whether any source that can call uses `name`.
fn has_caller(everything: &[Source], name: &[char]) -> (r: bool)
    requires
        name@.len() > 0,
        scannable(everything@),
    ensures
        r == called(everything@, name@),
{
    let mut k: usize = 0;
    while k < everything.len()
        invariant
            k <= everything.len(),
            name@.len() > 0,
            scannable(everything@),
            forall|j: int|
                0 <= j < k ==> !(can_call(everything@[j]) && calls_of(
                    #[trigger] everything@[j].text@,
                    name@,
                ) > 0),
        decreases everything.len() - k,
    {
        let other = &everything[k];
        if can_call_source(other) {
            assert(everything@[k as int].text@.len() < 0x4000_0000_0000_0000);
            let t = chars_of(other.text.as_str());
            if calls_in_chars(t.as_slice(), name) > 0 {
                return true;
            }
        }
        k = k + 1;
    }
    false
}

/// Every public function of every non-generated source, with its path.
fn collect_public(everything: &[Source]) -> (r: Vec<(String, Vec<char>)>)
    requires
        scannable(everything@),
    ensures
        r@.map_values(|p: (String, Vec<char>)| (p.0@, p.1@)) == all_public(everything@),
        forall|k: int| 0 <= k < r@.len() ==> #[trigger] r@[k].1@.len() > 0,
{
    let mut out: Vec<(String, Vec<char>)> = Vec::new();
    let mut i: usize = 0;
    while i < everything.len()
        invariant
            i <= everything.len(),
            scannable(everything@),
            out@.map_values(|p: (String, Vec<char>)| (p.0@, p.1@)) == all_public(
                everything@.take(i as int),
            ),
            forall|k: int| 0 <= k < out@.len() ==> #[trigger] out@[k].1@.len() > 0,
        decreases everything.len() - i,
    {
        proof {
            assert(everything@.take(i as int + 1).drop_last() == everything@.take(i as int));
            assert(everything@.take(i as int + 1).last() == everything@[i as int]);
        }
        let s = &everything[i];
        if !is_generated(s.relative.as_str()) {
            assert(everything@[i as int].text@.len() < 0x4000_0000_0000_0000);
            let t = chars_of(s.text.as_str());
            let names = public_functions_chars(t.as_slice());
            let ghost base = out@.map_values(|p: (String, Vec<char>)| (p.0@, p.1@));
            let ghost added = chars_view(names@).map_values(
                |name: Seq<char>| (s.relative@, name),
            );
            let mut j: usize = 0;
            while j < names.len()
                invariant
                    j <= names.len(),
                    out@.map_values(|p: (String, Vec<char>)| (p.0@, p.1@)) == base + added.take(
                        j as int,
                    ),
                    added == chars_view(names@).map_values(|name: Seq<char>| (s.relative@, name)),
                    forall|k: int| 0 <= k < out@.len() ==> #[trigger] out@[k].1@.len() > 0,
                    forall|k: int| 0 <= k < names@.len() ==> #[trigger] names@[k]@.len() > 0,
                decreases names.len() - j,
            {
                let ghost before = out@;
                let name = slice_of(names[j].as_slice(), 0, names[j].len());
                let rel = owned(s.relative.as_str());
                proof {
                    assert(name@ == names@[j as int]@);
                    assert(chars_view(names@)[j as int] == names@[j as int]@);
                    assert(added[j as int] == (s.relative@, name@));
                    assert(before.map_values(|p: (String, Vec<char>)| (p.0@, p.1@)).len()
                        == before.len());
                }
                out.push((rel, name));
                j = j + 1;
                proof {
                    assert(out@[before.len() as int] == (rel, name));
                    assert((base + added.take(j as int))[before.len() as int] == added[j - 1]);
                    assert(out@.map_values(|p: (String, Vec<char>)| (p.0@, p.1@)) =~= base
                        + added.take(j as int)) by {
                        assert forall|k: int|
                            0 <= k < out@.len() implies out@.map_values(
                            |p: (String, Vec<char>)| (p.0@, p.1@),
                        )[k] == (base + added.take(j as int))[k] by {
                            if k < before.len() {
                                assert(out@[k] == before[k]);
                                assert(before.map_values(|p: (String, Vec<char>)| (p.0@, p.1@))[k]
                                    == (base + added.take(j - 1))[k]);
                            }
                        }
                    }
                    assert forall|k: int| 0 <= k < out@.len() implies #[trigger] out@[k].1@.len()
                        > 0 by {
                        if k < before.len() {
                            assert(out@[k] == before[k]);
                        }
                    }
                }
            }
            assert(added.take(names.len() as int) == added);
        }
        i = i + 1;
    }
    assert(everything@.take(everything.len() as int) == everything@);
    out
}

/// How many public functions have a caller somewhere, out of how many.
pub fn wiring(everything: &[Source]) -> (w: Wiring)
    requires
        scannable(everything@),
    ensures
        w.total == all_public(everything@).len(),
        w.wired == wired_count(all_public(everything@), everything@),
{
    let names = collect_public(everything);
    let ghost all = names@.map_values(|p: (String, Vec<char>)| (p.0@, p.1@));
    let mut wired: usize = 0;
    let mut i: usize = 0;
    while i < names.len()
        invariant
            i <= names.len(),
            scannable(everything@),
            all == names@.map_values(|p: (String, Vec<char>)| (p.0@, p.1@)),
            all == all_public(everything@),
            forall|k: int| 0 <= k < names@.len() ==> #[trigger] names@[k].1@.len() > 0,
            wired == wired_count(all.take(i as int), everything@),
            wired <= i,
        decreases names.len() - i,
    {
        proof {
            assert(all.take(i as int + 1).drop_last() == all.take(i as int));
            assert(all.take(i as int + 1).last() == all[i as int]);
        }
        if has_caller(everything, names[i].1.as_slice()) {
            wired = wired + 1;
        }
        i = i + 1;
    }
    assert(all.take(names.len() as int) == all);
    Wiring { wired, total: names.len() }
}

/// Every public function nothing calls is a violation.
pub fn no_unwired_public_functions(everything: &[Source]) -> (r: Vec<Violation>)
    requires
        scannable(everything@),
    ensures
        r.deep_view() == unwired(all_public(everything@), everything@),
{
    let names = collect_public(everything);
    let ghost all = names@.map_values(|p: (String, Vec<char>)| (p.0@, p.1@));
    let mut out: Vec<Violation> = Vec::new();
    let mut i: usize = 0;
    while i < names.len()
        invariant
            i <= names.len(),
            scannable(everything@),
            all == names@.map_values(|p: (String, Vec<char>)| (p.0@, p.1@)),
            all == all_public(everything@),
            forall|k: int| 0 <= k < names@.len() ==> #[trigger] names@[k].1@.len() > 0,
            out.deep_view() == unwired(all.take(i as int), everything@),
        decreases names.len() - i,
    {
        proof {
            assert(all.take(i as int + 1).drop_last() == all.take(i as int));
            assert(all.take(i as int + 1).last() == all[i as int]);
        }
        if !has_caller(everything, names[i].1.as_slice()) {
            let mut detail = string_of(names[i].1.as_slice());
            push_str(&mut detail, " is public and no production code calls it");
            out.push(make_violation("no unwired code", &names[i].0, detail));
        }
        i = i + 1;
    }
    assert(all.take(names.len() as int) == all);
    out
}

/// How many times `p` occurs in `s` from `k` on, one occurrence after
/// another without overlap.
pub open spec fn count_from(s: Seq<char>, p: Seq<char>, k: int) -> nat
    decreases s.len() + 1 - k,
{
    if k < 0 || p.len() == 0 {
        0
    } else {
        match find_from(s, p, k) {
            None => 0,
            Some(i) => if i + p.len() > k && i + p.len() <= s.len() + 1 {
                1 + count_from(s, p, i + p.len())
            } else {
                1
            },
        }
    }
}

fn count_matches(s: &[char], p: &[char]) -> (n: usize)
    requires
        p@.len() > 0,
    ensures
        n == count_from(s@, p@, 0),
{
    let mut n: usize = 0;
    let mut from: usize = 0;
    loop
        invariant
            p@.len() > 0,
            from <= s.len(),
            n <= from,
            count_from(s@, p@, 0) == n + count_from(s@, p@, from as int),
        decreases s.len() - from,
    {
        match find_after(s, p, from) {
            None => return n,
            Some(i) => {
                proof {
                    lemma_find_from(s@, p@, from as int);
                }
                assert(matches_at(s@, p@, i as int));
                n = n + 1;
                from = i + p.len();
                if from == s.len() {
                    proof {
                        lemma_find_from(s@, p@, from as int);
                        assert(find_from(s@, p@, from as int) is None);
                        assert(count_from(s@, p@, from as int) == 0);
                    }
                    return n;
                }
            },
        }
    }
}

/// The test markers a text holds.
pub open spec fn test_markers(text: Seq<char>) -> nat {
    count_from(text, "    #[test]"@, 0)
}

pub open spec fn marker_total(sources: Seq<Source>) -> nat
    decreases sources.len(),
{
    if sources.len() == 0 {
        0
    } else if generated(sources.last().relative@) {
        marker_total(sources.drop_last())
    } else {
        marker_total(sources.drop_last()) + test_markers(sources.last().text@)
    }
}

/// Non-generated sources with public functions and no test.
pub open spec fn untested_files(sources: Seq<Source>) -> nat
    decreases sources.len(),
{
    if sources.len() == 0 {
        0
    } else {
        let s = sources.last();
        untested_files(sources.drop_last()) + if !generated(s.relative@) && test_markers(s.text@)
            == 0 && public_functions_of(s.text@).len() > 0 {
            1nat
        } else {
            0nat
        }
    }
}

/// How many tests there are, and how many files with public functions
/// have none; the first count stops at `usize::MAX`.
pub fn test_counts(everything: &[Source]) -> (r: (usize, usize))
    requires
        scannable(everything@),
    ensures
        r.0 as int == if marker_total(everything@) <= usize::MAX {
            marker_total(everything@) as int
        } else {
            usize::MAX as int
        },
        r.1 == untested_files(everything@),
{
    let marker = chars_of("    #[test]");
    proof {
        reveal_strlit("    #[test]");
    }
    let mut tests: usize = 0;
    let mut untested: usize = 0;
    let mut i: usize = 0;
    while i < everything.len()
        invariant
            i <= everything.len(),
            scannable(everything@),
            marker@ == "    #[test]"@,
            marker@.len() > 0,
            tests as int == if marker_total(everything@.take(i as int)) <= usize::MAX {
                marker_total(everything@.take(i as int)) as int
            } else {
                usize::MAX as int
            },
            untested == untested_files(everything@.take(i as int)),
            untested <= i,
        decreases everything.len() - i,
    {
        proof {
            assert(everything@.take(i as int + 1).drop_last() == everything@.take(i as int));
            assert(everything@.take(i as int + 1).last() == everything@[i as int]);
        }
        let s = &everything[i];
        if !is_generated(s.relative.as_str()) {
            assert(everything@[i as int].text@.len() < 0x4000_0000_0000_0000);
            let t = chars_of(s.text.as_str());
            let here = count_matches(t.as_slice(), marker.as_slice());
            tests = tests.saturating_add(here);
            if here == 0 {
                let names = public_functions_chars(t.as_slice());
                if names.len() > 0 {
                    untested = untested + 1;
                }
            }
        }
        i = i + 1;
    }
    assert(everything@.take(everything.len() as int) == everything@);
    (tests, untested)
}

// ---------------------------------------------------------------------------
// Rules on single files
// ---------------------------------------------------------------------------

/// What `main_is_only_wiring` finds in a source.
pub open spec fn main_violations(s: Source) -> Seq<ViolationView> {
    oversized_main(s, MAIN_BINARY@, MAIN_MAX_LINES as nat)
}

/// The main binary may hold no more than [`MAIN_MAX_LINES`] lines.
pub fn main_is_only_wiring(source: &Source) -> (r: Vec<Violation>)
    ensures
        r.deep_view() == main_violations(*source),
{
    main_size_violations(source, MAIN_BINARY, MAIN_MAX_LINES)
}

/// The imports a layer may not make, each with what it means.
pub open spec fn forbidden_for(relative: Seq<char>) -> Seq<(Seq<char>, Seq<char>)> {
    if starts_with_seq(relative, "src/driver/"@) {
        seq![("crate::adapter::"@, "a driver reaches an adapter"@)]
    } else if starts_with_seq(relative, "src/controller/"@) {
        seq![("crate::driver::"@, "a controller reaches a driver"@)]
    } else if starts_with_seq(relative, "src/adapter/"@) {
        seq![
            ("crate::driver::"@, "an adapter reaches a driver"@),
            ("crate::controller::"@, "an adapter reaches a controller"@),
            ("crate::adapter::"@, "an adapter reaches another adapter"@),
        ]
    } else {
        Seq::empty()
    }
}

pub open spec fn pairs_view(v: Seq<(&'static str, &'static str)>) -> Seq<(Seq<char>, Seq<char>)> {
    v.map_values(|p: (&'static str, &'static str)| (p.0@, p.1@))
}

/// The imports the layer of `relative` may not make: a driver no adapter,
/// a controller no driver, an adapter nothing of this crate's.
pub fn forbidden_imports(relative: &str) -> (r: Vec<(&'static str, &'static str)>)
    ensures
        pairs_view(r@) == forbidden_for(relative@),
{
    let rel = chars_of(relative);
    let mut out: Vec<(&'static str, &'static str)> = Vec::new();
    if starts_with(rel.as_slice(), chars_of("src/driver/").as_slice()) {
        out.push(("crate::adapter::", "a driver reaches an adapter"));
    } else if starts_with(rel.as_slice(), chars_of("src/controller/").as_slice()) {
        out.push(("crate::driver::", "a controller reaches a driver"));
    } else if starts_with(rel.as_slice(), chars_of("src/adapter/").as_slice()) {
        out.push(("crate::driver::", "an adapter reaches a driver"));
        out.push(("crate::controller::", "an adapter reaches a controller"));
        out.push(("crate::adapter::", "an adapter reaches another adapter"));
    }
    proof {
        assert(pairs_view(out@) =~= forbidden_for(relative@));
    }
    out
}

/// The violations one line makes against the forbidden imports.
pub open spec fn line_layer_violations(
    forbidden: Seq<(Seq<char>, Seq<char>)>,
    own: Seq<char>,
    path: Seq<char>,
    n: int,
    line: Seq<char>,
) -> Seq<ViolationView>
    decreases forbidden.len(),
{
    if forbidden.len() == 0 {
        Seq::empty()
    } else {
        let before = line_layer_violations(forbidden.drop_last(), own, path, n, line);
        let (prefix, why) = forbidden.last();
        let code = unquoted(line);
        if contains_seq(code, prefix) && !contains_seq(code, own) {
            before.push(
                violation(
                    "layers only depend downward"@,
                    path,
                    "line "@ + decimal((n + 1) as nat) + ": "@ + why + ": "@ + trim_seq(line),
                ),
            )
        } else {
            before
        }
    }
}

pub open spec fn layer_violations(
    forbidden: Seq<(Seq<char>, Seq<char>)>,
    own: Seq<char>,
    path: Seq<char>,
    lines: Seq<Seq<char>>,
) -> Seq<ViolationView>
    decreases lines.len(),
{
    if lines.len() == 0 {
        Seq::empty()
    } else {
        layer_violations(forbidden, own, path, lines.drop_last()) + line_layer_violations(
            forbidden,
            own,
            path,
            lines.len() - 1,
            lines.last(),
        )
    }
}

/// What `layer_imports` finds in a source.
pub open spec fn layer_findings(s: Source) -> Seq<ViolationView> {
    let forbidden = forbidden_for(s.relative@);
    if forbidden.len() == 0 {
        Seq::empty()
    } else {
        layer_violations(
            forbidden,
            "crate::adapter::"@ + file_stem_of(s.path@),
            s.relative@,
            lines_of(s.text@),
        )
    }
}

/// Every line, outside string literals, that names a layer its file may
/// not use is a violation; a file naming its own module is not.
pub fn layer_imports(source: &Source) -> (r: Vec<Violation>)
    ensures
        r.deep_view() == layer_findings(*source),
{
    let forbidden = forbidden_imports(source.relative.as_str());
    if forbidden.len() == 0 {
        return Vec::new();
    }
    let mut own = chars_of("crate::adapter::");
    let path = chars_of(source.path.as_str());
    let stem = file_stem(path.as_slice());
    extend_chars(&mut own, stem.as_slice());
    let text = chars_of(source.text.as_str());
    let lines = split_lines(text.as_slice());
    let ghost all = chars_view(lines@);
    let ghost fv = pairs_view(forbidden@);
    let mut out: Vec<Violation> = Vec::new();
    let mut n: usize = 0;
    while n < lines.len()
        invariant
            n <= lines.len(),
            all == chars_view(lines@),
            all == lines_of(source.text@),
            fv == pairs_view(forbidden@),
            fv == forbidden_for(source.relative@),
            own@ == "crate::adapter::"@ + file_stem_of(source.path@),
            out.deep_view() == layer_violations(fv, own@, source.relative@, all.take(n as int)),
        decreases lines.len() - n,
    {
        proof {
            assert(all.take(n as int + 1).drop_last() == all.take(n as int));
            assert(all.take(n as int + 1).last() == lines@[n as int]@);
        }
        let line = &lines[n];
        let code = unquote(line.as_slice());
        let ghost start = out.deep_view();
        let mut f: usize = 0;
        while f < forbidden.len()
            invariant
                f <= forbidden.len(),
                fv == pairs_view(forbidden@),
                code@ == unquoted(line@),
                n < lines.len(),
                line@ == all[n as int],
                out.deep_view() == start + line_layer_violations(
                    fv.take(f as int),
                    own@,
                    source.relative@,
                    n as int,
                    line@,
                ),
            decreases forbidden.len() - f,
        {
            proof {
                assert(fv.take(f as int + 1).drop_last() == fv.take(f as int));
                assert(fv.take(f as int + 1).last() == (forbidden@[f as int].0@, forbidden@[f as int].1@));
            }
            let (prefix, why) = forbidden[f];
            let p = chars_of(prefix);
            if contains(code.as_slice(), p.as_slice()) && !contains(
                code.as_slice(),
                own.as_slice(),
            ) {
                let mut detail = owned("line ");
                let num = decimal_chars((n as u64) + 1);
                push_all(&mut detail, num.as_slice());
                push_str(&mut detail, ": ");
                push_str(&mut detail, why);
                push_str(&mut detail, ": ");
                let t = trim(line.as_slice());
                push_all(&mut detail, t.as_slice());
                let ghost before = out.deep_view();
                out.push(make_violation("layers only depend downward", &source.relative, detail));
                proof {
                    assert(out.deep_view() =~= before.push(out@[out@.len() - 1]@));
                }
            }
            f = f + 1;
        }
        assert(fv.take(forbidden.len() as int) == fv);
        n = n + 1;
    }
    assert(all.take(lines.len() as int) == all);
    out
}

// ---------------------------------------------------------------------------
// Everything together
// ---------------------------------------------------------------------------

/// What one source contributes to the check.
pub open spec fn source_findings(s: Source) -> Seq<ViolationView> {
    if generated(s.relative@) {
        Seq::empty()
    } else if waived(s.relative@) {
        main_violations(s) + comment_violations(lines_of(s.text@), s.relative@)
    } else {
        main_violations(s) + comment_violations(lines_of(s.text@), s.relative@) + layer_findings(s)
            + fake_violations(lines_of(s.text@), s.relative@)
    }
}

pub open spec fn all_source_findings(sources: Seq<Source>) -> Seq<ViolationView>
    decreases sources.len(),
{
    if sources.len() == 0 {
        Seq::empty()
    } else {
        all_source_findings(sources.drop_last()) + source_findings(sources.last())
    }
}

/// What [`check`] finds: each source's own findings, then the undeclared
/// modules.
pub open spec fn check_findings(sources: Seq<Source>) -> Seq<ViolationView> {
    all_source_findings(sources) + undeclared(sources, all_declarations(sources))
}

/// A generated file is never reported, and a waived file is excused from
/// the layering and test-double rules only: it still answers for its
/// comments and, were it the main binary, its size.
pub proof fn a_waiver_excuses_only_what_it_names(s: Source)
    ensures
        generated(s.relative@) ==> source_findings(s) == Seq::<ViolationView>::empty(),
        !generated(s.relative@) && waived(s.relative@) ==> source_findings(s) == main_violations(s)
            + comment_violations(lines_of(s.text@), s.relative@),
        !generated(s.relative@) && !waived(s.relative@) ==> source_findings(s) == main_violations(s)
            + comment_violations(lines_of(s.text@), s.relative@) + layer_findings(s)
            + fake_violations(lines_of(s.text@), s.relative@),
{
}

/// Every rule over every source: generated files are left alone, and a
/// waived file still obeys the comment and main-size rules.
pub fn check(sources: &[Source]) -> (r: Vec<Violation>)
    ensures
        r.deep_view() == check_findings(sources@),
{
    let mut found: Vec<Violation> = Vec::new();
    let mut i: usize = 0;
    while i < sources.len()
        invariant
            i <= sources.len(),
            found.deep_view() == all_source_findings(sources@.take(i as int)),
        decreases sources.len() - i,
    {
        proof {
            assert(sources@.take(i as int + 1).drop_last() == sources@.take(i as int));
            assert(sources@.take(i as int + 1).last() == sources@[i as int]);
        }
        let s = &sources[i];
        let ghost start = found.deep_view();
        if !is_generated(s.relative.as_str()) {
            extend_violations(&mut found, main_is_only_wiring(s));
            extend_violations(&mut found, no_comments(s));
            if !is_waived(s.relative.as_str()) {
                extend_violations(&mut found, layer_imports(s));
                extend_violations(&mut found, hand_written_fakes(s));
            }
        }
        proof {
            assert(found.deep_view() =~= start + source_findings(sources@[i as int]));
        }
        i = i + 1;
    }
    assert(sources@.take(sources.len() as int) == sources@);
    extend_violations(&mut found, modules_are_declared(sources));
    found
}

} // verus!
