//! What the source scanners share: a source file, a rule it breaks, and the
//! line-by-line checks every scanner runs.
use vstd::prelude::*;

use crate::text::{
    chars_of, chars_view, contains, contains_seq, decimal, decimal_chars, lines_of, extend_chars, owned, push_all, push_str, rfind, rfind_seq, same, slice_of, split_lines, starts_with, starts_with_seq, strip_prefix, strip_prefix_seq, string_of, trim, trim_seq, trim_start, trim_start_seq,
};

verus! {

// ---------------------------------------------------------------------------
// Characters std classifies by Unicode tables
// ---------------------------------------------------------------------------

/// What `char::is_alphanumeric` answers for `c`.
pub uninterp spec fn alphanumeric(c: char) -> bool;

/// What `char::is_lowercase` answers for `c`.
pub uninterp spec fn lowercase_letter(c: char) -> bool;

/// `char::is_alphanumeric`: the Unicode `Alphabetic` or `Numeric` test. Its
/// contract only names the answer; the Unicode tables are not restated.
#[verifier::external_body]
pub(crate) fn is_alphanumeric(c: char) -> (r: bool)
    ensures
        r == alphanumeric(c),
{
    c.is_alphanumeric()
}

/// `char::is_lowercase`: the Unicode `Lowercase` test. Its contract only
/// names the answer; the Unicode tables are not restated.
#[verifier::external_body]
pub(crate) fn is_lowercase(c: char) -> (r: bool)
    ensures
        r == lowercase_letter(c),
{
    c.is_lowercase()
}

/// What `char::is_uppercase` answers for `c`.
pub uninterp spec fn uppercase_letter(c: char) -> bool;

/// What `char::to_lowercase` yields for `c`.
pub uninterp spec fn lowercase_form(c: char) -> Seq<char>;

/// `char::is_uppercase`: the Unicode `Uppercase` test. Its contract only
/// names the answer; the Unicode tables are not restated.
#[verifier::external_body]
pub(crate) fn is_uppercase(c: char) -> (r: bool)
    ensures
        r == uppercase_letter(c),
{
    c.is_uppercase()
}

/// `char::to_lowercase`, collected: the one or more characters Unicode
/// gives as the lowercase of `c`. Its contract names them and says that
/// there is at least one; the Unicode tables are not restated.
#[verifier::external_body]
pub(crate) fn lowercase_chars(c: char) -> (r: Vec<char>)
    ensures
        r@ == lowercase_form(c),
        r@.len() >= 1,
{
    c.to_lowercase().collect()
}

// ---------------------------------------------------------------------------
// Sources and violations
// ---------------------------------------------------------------------------

/// A source file: where it is, its path from the crate root, and its text.
pub struct Source {
    pub path: String,
    pub relative: String,
    pub text: String,
}

/// A rule a file breaks, and where.
#[derive(Debug, Clone, PartialEq, Eq)]
pub struct Violation {
    pub rule: String,
    pub path: String,
    pub detail: String,
}

pub struct ViolationView {
    pub rule: Seq<char>,
    pub path: Seq<char>,
    pub detail: Seq<char>,
}

impl View for Violation {
    type V = ViolationView;

    open spec fn view(&self) -> ViolationView {
        ViolationView { rule: self.rule@, path: self.path@, detail: self.detail@ }
    }
}

impl DeepView for Violation {
    type V = ViolationView;

    open spec fn deep_view(&self) -> ViolationView {
        self@
    }
}

pub open spec fn violation(rule: Seq<char>, path: Seq<char>, detail: Seq<char>) -> ViolationView {
    ViolationView { rule, path, detail }
}

pub fn make_violation(rule: &str, path: &String, detail: String) -> (v: Violation)
    ensures
        v@ == violation(rule@, path@, detail@),
{
    Violation { rule: owned(rule), path: owned(path.as_str()), detail }
}

/// Appends the violations in `more` to `out`.
pub fn extend_violations(out: &mut Vec<Violation>, more: Vec<Violation>)
    ensures
        final(out).deep_view() == old(out).deep_view() + more.deep_view(),
{
    let ghost before = out@;
    let mut more = more;
    let ghost extra = more@;
    out.append(&mut more);
    proof {
        assert(out@ == before + extra);
        assert(out.deep_view() =~= before.map_values(|v: Violation| v.deep_view()) + extra.map_values(
            |v: Violation| v.deep_view(),
        ));
    }
}

// ---------------------------------------------------------------------------
// Paths
// ---------------------------------------------------------------------------

/// The last component of a `/`-separated path.
pub open spec fn file_name_of(path: Seq<char>) -> Seq<char> {
    match rfind_seq(path, seq!['/']) {
        Some(i) => path.skip(i + 1),
        None => path,
    }
}

/// A file name without its last extension; a name that only starts with a
/// dot keeps it.
pub open spec fn file_stem_of(path: Seq<char>) -> Seq<char> {
    let name = file_name_of(path);
    match rfind_seq(name, seq!['.']) {
        Some(i) => if i > 0 {
            name.take(i)
        } else {
            name
        },
        None => name,
    }
}

pub fn file_name(path: &[char]) -> (r: Vec<char>)
    ensures
        r@ == file_name_of(path@),
{
    let slash: Vec<char> = vec!['/'];
    assert(slash@ == seq!['/']);
    match rfind(path, slash.as_slice()) {
        Some(i) => {
            proof {
                crate::text::lemma_rfind_from(path@, slash@, path@.len() - 1);
                assert(crate::text::matches_at(path@, slash@, i as int));
            }
            assert(i < path.len());
            slice_of(path, i + 1, path.len())
        },
        None => slice_of(path, 0, path.len()),
    }
}

pub fn file_stem(path: &[char]) -> (r: Vec<char>)
    ensures
        r@ == file_stem_of(path@),
{
    let name = file_name(path);
    let dot: Vec<char> = vec!['.'];
    assert(dot@ == seq!['.']);
    match rfind(name.as_slice(), dot.as_slice()) {
        Some(i) => {
            proof {
                crate::text::lemma_rfind_from(name@, dot@, name@.len() - 1);
            }
            if i > 0 {
                slice_of(name.as_slice(), 0, i)
            } else {
                name
            }
        },
        None => name,
    }
}

// ---------------------------------------------------------------------------
// Line-by-line checks
// ---------------------------------------------------------------------------

/// "line N: the line, trimmed", numbering from one.
pub open spec fn line_detail(n: int, line: Seq<char>) -> Seq<char> {
    "line "@ + decimal((n + 1) as nat) + ": "@ + trim_seq(line)
}

pub fn line_detail_text(n: usize, line: &[char]) -> (r: String)
    requires
        n < u64::MAX,
    ensures
        r@ == line_detail(n as int, line@),
{
    let mut r = owned("line ");
    let num = decimal_chars((n as u64) + 1);
    push_all(&mut r, num.as_slice());
    push_str(&mut r, ": ");
    let t = trim(line);
    push_all(&mut r, t.as_slice());
    r
}

/// What the size rule finds in a source: one violation when `s` is the
/// main binary `main` and holds more than `max` lines.
pub open spec fn oversized_main(s: Source, main: Seq<char>, max: nat) -> Seq<ViolationView> {
    let n = lines_of(s.text@).len();
    if s.relative@ != main || n <= max {
        Seq::empty()
    } else {
        seq![
            violation(
                "main is only wiring"@,
                s.relative@,
                decimal(n) + " lines, at most "@ + decimal(max) + " allowed"@,
            ),
        ]
    }
}

/// The main binary `main` may hold no more than `max` lines.
pub fn main_size_violations(source: &Source, main: &str, max: usize) -> (r: Vec<Violation>)
    ensures
        r.deep_view() == oversized_main(*source, main@, max as nat),
{
    let rel = chars_of(source.relative.as_str());
    let main_chars = chars_of(main);
    if !same(rel.as_slice(), main_chars.as_slice()) {
        return Vec::new();
    }
    let text = chars_of(source.text.as_str());
    let lines = split_lines(text.as_slice());
    let n = lines.len();
    assert(n == lines_of(source.text@).len());
    if n <= max {
        return Vec::new();
    }
    let count = decimal_chars(n as u64);
    let mut detail = string_of(count.as_slice());
    push_str(&mut detail, " lines, at most ");
    let limit = decimal_chars(max as u64);
    push_all(&mut detail, limit.as_slice());
    push_str(&mut detail, " allowed");
    let mut out: Vec<Violation> = Vec::new();
    out.push(make_violation("main is only wiring", &source.relative, detail));
    proof {
        assert(out.deep_view() =~= oversized_main(*source, main@, max as nat));
    }
    out
}

/// A comment line: it starts, past its indent, with `//` or `/*`.
pub open spec fn comment_line(line: Seq<char>) -> bool {
    let t = trim_start_seq(line);
    starts_with_seq(t, "//"@) || starts_with_seq(t, "/*"@)
}

/// The violations of `rule` for the lines of `lines` from the first
/// `upto`, each named by its number and trimmed text.
pub open spec fn comment_violations(lines: Seq<Seq<char>>, path: Seq<char>) -> Seq<ViolationView>
    decreases lines.len(),
{
    if lines.len() == 0 {
        Seq::empty()
    } else {
        let before = comment_violations(lines.drop_last(), path);
        if comment_line(lines.last()) {
            before.push(
                violation("no comments"@, path, line_detail(lines.len() - 1, lines.last())),
            )
        } else {
            before
        }
    }
}

/// Every comment line is a violation.
pub fn no_comments(source: &Source) -> (r: Vec<Violation>)
    ensures
        r.deep_view() == comment_violations(lines_of(source.text@), source.relative@),
{
    let text = chars_of(source.text.as_str());
    let lines = split_lines(text.as_slice());
    let ghost all = chars_view(lines@);
    let slashes = chars_of("//");
    let star = chars_of("/*");
    let mut out: Vec<Violation> = Vec::new();
    let mut n: usize = 0;
    while n < lines.len()
        invariant
            n <= lines.len(),
            all == chars_view(lines@),
            all == lines_of(text@),
            text@ == source.text@,
            slashes@ == "//"@,
            star@ == "/*"@,
            out.deep_view() == comment_violations(all.take(n as int), source.relative@),
        decreases lines.len() - n,
    {
        proof {
            assert(all.take(n as int + 1).drop_last() == all.take(n as int));
            assert(all.take(n as int + 1).last() == lines@[n as int]@);
        }
        let t = trim_start(lines[n].as_slice());
        if starts_with(t.as_slice(), slashes.as_slice()) || starts_with(
            t.as_slice(),
            star.as_slice(),
        ) {
            let detail = line_detail_text(n, lines[n].as_slice());
            out.push(make_violation("no comments", &source.relative, detail));
        }
        n = n + 1;
    }
    assert(all.take(lines.len() as int) == all);
    out
}

/// `line` starts with `prefix`, and the word it starts does not go on in
/// lowercase: `struct FakeClock` starts a fake, `struct Faker` does not.
pub open spec fn fake_start(line: Seq<char>, prefix: Seq<char>) -> bool {
    match strip_prefix_seq(line, prefix) {
        Some(rest) => !(rest.len() > 0 && lowercase_letter(rest[0])),
        None => false,
    }
}

pub fn starts_a_fake(line: &str, prefix: &str) -> (r: bool)
    ensures
        r == fake_start(line@, prefix@),
{
    let l = chars_of(line);
    let p = chars_of(prefix);
    starts_a_fake_chars(l.as_slice(), p.as_slice())
}

fn starts_a_fake_chars(line: &[char], prefix: &[char]) -> (r: bool)
    ensures
        r == fake_start(line@, prefix@),
{
    let rest = match strip_prefix(line, prefix) {
        Some(rest) => rest,
        None => return false,
    };
    !(rest.len() > 0 && is_lowercase(rest[0]))
}

/// A line that declares a hand-written test double.
pub open spec fn fake_line(line: Seq<char>) -> bool {
    let t = trim_start_seq(line);
    fake_start(t, "struct Fake"@) || fake_start(t, "struct Stub"@) || fake_start(
        t,
        "struct Mock"@,
    )
}

pub open spec fn fake_violations(lines: Seq<Seq<char>>, path: Seq<char>) -> Seq<ViolationView>
    decreases lines.len(),
{
    if lines.len() == 0 {
        Seq::empty()
    } else {
        let before = fake_violations(lines.drop_last(), path);
        if fake_line(lines.last()) {
            before.push(
                violation(
                    "test doubles are generated or named for what they do"@,
                    path,
                    line_detail(lines.len() - 1, lines.last()),
                ),
            )
        } else {
            before
        }
    }
}

/// Every hand-written `Fake`, `Stub` or `Mock` struct is a violation.
pub fn hand_written_fakes(source: &Source) -> (r: Vec<Violation>)
    ensures
        r.deep_view() == fake_violations(lines_of(source.text@), source.relative@),
{
    let text = chars_of(source.text.as_str());
    let lines = split_lines(text.as_slice());
    let ghost all = chars_view(lines@);
    let fake = chars_of("struct Fake");
    let stub = chars_of("struct Stub");
    let mock = chars_of("struct Mock");
    let mut out: Vec<Violation> = Vec::new();
    let mut n: usize = 0;
    while n < lines.len()
        invariant
            n <= lines.len(),
            all == chars_view(lines@),
            all == lines_of(text@),
            text@ == source.text@,
            fake@ == "struct Fake"@,
            stub@ == "struct Stub"@,
            mock@ == "struct Mock"@,
            out.deep_view() == fake_violations(all.take(n as int), source.relative@),
        decreases lines.len() - n,
    {
        proof {
            assert(all.take(n as int + 1).drop_last() == all.take(n as int));
            assert(all.take(n as int + 1).last() == lines@[n as int]@);
        }
        let t = trim_start(lines[n].as_slice());
        if starts_a_fake_chars(t.as_slice(), fake.as_slice()) || starts_a_fake_chars(
            t.as_slice(),
            stub.as_slice(),
        ) || starts_a_fake_chars(t.as_slice(), mock.as_slice()) {
            let detail = line_detail_text(n, lines[n].as_slice());
            out.push(
                make_violation(
                    "test doubles are generated or named for what they do",
                    &source.relative,
                    detail,
                ),
            );
        }
        n = n + 1;
    }
    assert(all.take(lines.len() as int) == all);
    out
}

/// The path is of a generated file, which no rule applies to.
pub open spec fn generated(relative: Seq<char>) -> bool {
    contains_seq(relative, "zz_generated"@)
}

pub fn is_generated(relative: &str) -> (r: bool)
    ensures
        r == generated(relative@),
{
    let cs = chars_of(relative);
    let marker = chars_of("zz_generated");
    contains(cs.as_slice(), marker.as_slice())
}

// ---------------------------------------------------------------------------
// Module declarations
// ---------------------------------------------------------------------------

/// The texts of every `mod.rs`, joined by newlines.
pub open spec fn declarations(sources: Seq<Source>) -> Seq<char>
    decreases sources.len(),
{
    if sources.len() == 0 {
        Seq::empty()
    } else {
        let before = declarations(sources.drop_last());
        let s = sources.last();
        if file_name_of(s.path@) == "mod.rs"@ {
            if mod_count(sources.drop_last()) == 0 {
                s.text@
            } else {
                before + "\n"@ + s.text@
            }
        } else {
            before
        }
    }
}

/// How many of the sources are a `mod.rs`.
pub open spec fn mod_count(sources: Seq<Source>) -> nat
    decreases sources.len(),
{
    if sources.len() == 0 {
        0
    } else if file_name_of(sources.last().path@) == "mod.rs"@ {
        mod_count(sources.drop_last()) + 1
    } else {
        mod_count(sources.drop_last())
    }
}

/// The text of the first source at `src/lib.rs`, or nothing.
pub open spec fn lib_text(sources: Seq<Source>) -> Seq<char>
    decreases sources.len(),
{
    if sources.len() == 0 {
        Seq::empty()
    } else if sources[0].relative@ == "src/lib.rs"@ {
        sources[0].text@
    } else {
        lib_text(sources.drop_first())
    }
}

/// Every `mod.rs` and the crate root, as one text.
pub open spec fn all_declarations(sources: Seq<Source>) -> Seq<char> {
    declarations(sources) + "\n"@ + lib_text(sources)
}

/// A source that needs a `mod` declaration: not a `mod.rs`, not the crate
/// root, not a binary, not generated.
pub open spec fn needs_declaring(s: Source) -> bool {
    let name = file_name_of(s.path@);
    name != "mod.rs"@ && name != "lib.rs"@ && !starts_with_seq(s.relative@, "src/bin/"@)
        && !generated(s.relative@)
}

pub open spec fn undeclared(sources: Seq<Source>, all: Seq<char>) -> Seq<ViolationView>
    decreases sources.len(),
{
    if sources.len() == 0 {
        Seq::empty()
    } else {
        let before = undeclared(sources.drop_last(), all);
        let s = sources.last();
        if needs_declaring(s) && !contains_seq(all, "mod "@ + file_stem_of(s.path@) + ";"@) {
            before.push(
                violation(
                    "every module is declared"@,
                    s.relative@,
                    "no mod declaration, so this file never compiles"@,
                ),
            )
        } else {
            before
        }
    }
}

fn is_named(path: &String, name: &str) -> (r: bool)
    ensures
        r == (file_name_of(path@) == name@),
{
    let p = chars_of(path.as_str());
    let n = file_name(p.as_slice());
    let want = chars_of(name);
    same(n.as_slice(), want.as_slice())
}

fn root_text(sources: &[Source]) -> (r: Vec<char>)
    ensures
        r@ == lib_text(sources@),
{
    let root = chars_of("src/lib.rs");
    let mut j: usize = 0;
    assert(sources@.skip(0) == sources@);
    while j < sources.len()
        invariant
            j <= sources.len(),
            root@ == "src/lib.rs"@,
            lib_text(sources@) == lib_text(sources@.skip(j as int)),
        decreases sources.len() - j,
    {
        proof {
            assert(sources@.skip(j as int).drop_first() == sources@.skip(j as int + 1));
            assert(sources@.skip(j as int)[0] == sources@[j as int]);
        }
        let r = chars_of(sources[j].relative.as_str());
        if same(r.as_slice(), root.as_slice()) {
            return chars_of(sources[j].text.as_str());
        }
        j = j + 1;
    }
    assert(sources@.skip(j as int).len() == 0);
    Vec::new()
}

fn declarations_text(sources: &[Source]) -> (r: Vec<char>)
    ensures
        r@ == all_declarations(sources@),
{
    let mut decl: Vec<char> = Vec::new();
    let mut mods: usize = 0;
    let mut i: usize = 0;
    let newline: Vec<char> = vec!['\n'];
    assert(newline@ == "\n"@) by {
        reveal_strlit("\n");
    }
    while i < sources.len()
        invariant
            i <= sources.len(),
            decl@ == declarations(sources@.take(i as int)),
            mods as nat == mod_count(sources@.take(i as int)),
            mods <= i,
            mods == 0 ==> decl@.len() == 0,
            newline@ == "\n"@,
        decreases sources.len() - i,
    {
        proof {
            assert(sources@.take(i as int + 1).drop_last() == sources@.take(i as int));
            assert(sources@.take(i as int + 1).last() == sources@[i as int]);
        }
        let ghost before = decl@;
        if is_named(&sources[i].path, "mod.rs") {
            if mods > 0 {
                extend_chars(&mut decl, newline.as_slice());
            }
            let t = chars_of(sources[i].text.as_str());
            extend_chars(&mut decl, t.as_slice());
            proof {
                if mods == 0 {
                    assert(decl@ =~= t@);
                } else {
                    assert(decl@ =~= before + "\n"@ + t@);
                }
            }
            mods = mods + 1;
        }
        i = i + 1;
    }
    assert(sources@.take(sources.len() as int) == sources@);
    let lib = root_text(sources);
    let ghost d = decl@;
    extend_chars(&mut decl, newline.as_slice());
    extend_chars(&mut decl, lib.as_slice());
    assert(lib@ == lib_text(sources@));
    assert(decl@ =~= d + "\n"@ + lib@);
    decl
}

/// Every source that needs a `mod` declaration and has none anywhere is a
/// violation.
pub fn modules_are_declared(sources: &[Source]) -> (r: Vec<Violation>)
    ensures
        r.deep_view() == undeclared(sources@, all_declarations(sources@)),
{
    let all = declarations_text(sources);
    let mut out: Vec<Violation> = Vec::new();
    let mut i: usize = 0;
    while i < sources.len()
        invariant
            i <= sources.len(),
            all@ == all_declarations(sources@),
            out.deep_view() == undeclared(sources@.take(i as int), all@),
        decreases sources.len() - i,
    {
        proof {
            assert(sources@.take(i as int + 1).drop_last() == sources@.take(i as int));
            assert(sources@.take(i as int + 1).last() == sources@[i as int]);
        }
        let s = &sources[i];
        let path = chars_of(s.path.as_str());
        let name = file_name(path.as_slice());
        let rel = chars_of(s.relative.as_str());
        let bin = chars_of("src/bin/");
        let needs = !same(name.as_slice(), chars_of("mod.rs").as_slice()) && !same(
            name.as_slice(),
            chars_of("lib.rs").as_slice(),
        ) && !starts_with(rel.as_slice(), bin.as_slice()) && !is_generated(s.relative.as_str());
        if needs {
            let mut wanted = chars_of("mod ");
            let stem = file_stem(path.as_slice());
            extend_chars(&mut wanted, stem.as_slice());
            wanted.push(';');
            proof {
                assert(wanted@ == "mod "@ + file_stem_of(s.path@) + ";"@) by {
                    reveal_strlit(";");
                }
            }
            if !contains(all.as_slice(), wanted.as_slice()) {
                out.push(
                    make_violation(
                        "every module is declared",
                        &s.relative,
                        owned("no mod declaration, so this file never compiles"),
                    ),
                );
            }
        }
        i = i + 1;
    }
    assert(sources@.take(sources.len() as int) == sources@);
    out
}

} // verus!
