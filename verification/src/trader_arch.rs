//! The architecture scanner for the trader's sources: a smaller rule set
//! than [`crate::arch`]. Only `use` lines count as imports, and only drivers
//! and controllers are held to the layering.
use vstd::prelude::*;

use crate::scan::{
    all_declarations, comment_violations, extend_violations, fake_violations, generated,
    hand_written_fakes, is_generated, main_size_violations, make_violation, modules_are_declared,
    no_comments, oversized_main, undeclared, violation, Source, Violation, ViolationView,
};
use crate::text::{
    chars_of, chars_view, contains, contains_seq, decimal, decimal_chars, lines_of, owned,
    push_all, push_str, same, split_lines, starts_with, starts_with_seq, trim, trim_seq,
    trim_start, trim_start_seq,
};

verus! {

/// The binary that must stay wiring only.
pub const MAIN_BINARY: &'static str = "src/bin/poe-trader.rs";

/// The most lines the main binary may have.
pub const MAIN_MAX_LINES: usize = 220;

/// Files that may cross the layers, each with the reason it may.
pub const WAIVED: [(&'static str, &'static str); 1] = [
    (
        "src/driver/cli_driver.rs",
        "diagnostics and self tests read adapters directly on purpose, because their whole job is to report what an adapter sees before any controller exists",
    ),
];

/// The file is waived from the layering and test-double rules.
pub open spec fn waived(relative: Seq<char>) -> bool {
    relative == "src/driver/cli_driver.rs"@
}

pub fn is_waived(relative: &str) -> (r: bool)
    ensures
        r == waived(relative@),
{
    let cs = chars_of(relative);
    let p = chars_of(WAIVED[0].0);
    same(p.as_slice(), cs.as_slice())
}

/// What `main_is_only_wiring` finds in a source.
pub open spec fn main_violations(s: Source) -> Seq<ViolationView> {
    oversized_main(s, MAIN_BINARY@, MAIN_MAX_LINES as nat)
}

/// The main binary may hold no more than [`MAIN_MAX_LINES`] lines.
pub fn main_is_only_wiring(source: &Source) -> (r: Vec<Violation>)
    ensures
        r.deep_view() == main_violations(*source),
{
    main_size_violations(source, MAIN_BINARY, MAIN_MAX_LINES)
}

/// The import the layer of `relative` may not make, with what it means: a
/// driver no adapter, a controller no driver, any other file anything.
pub open spec fn forbidden_for(relative: Seq<char>) -> Option<(Seq<char>, Seq<char>)> {
    if starts_with_seq(relative, "src/driver/"@) {
        Some(("crate::adapter::"@, "a driver reaches an adapter"@))
    } else if starts_with_seq(relative, "src/controller/"@) {
        Some(("crate::driver::"@, "a controller reaches a driver"@))
    } else {
        None
    }
}

/// A `use` line that names `prefix`.
pub open spec fn bad_use(line: Seq<char>, prefix: Seq<char>) -> bool {
    starts_with_seq(trim_start_seq(line), "use "@) && contains_seq(line, prefix)
}

pub open spec fn use_violations(
    prefix: Seq<char>,
    why: Seq<char>,
    path: Seq<char>,
    lines: Seq<Seq<char>>,
) -> Seq<ViolationView>
    decreases lines.len(),
{
    if lines.len() == 0 {
        Seq::empty()
    } else {
        let before = use_violations(prefix, why, path, lines.drop_last());
        let line = lines.last();
        if bad_use(line, prefix) {
            before.push(
                violation(
                    "layers only depend downward"@,
                    path,
                    "line "@ + decimal(lines.len() as nat) + ": "@ + why + ": "@ + trim_seq(line),
                ),
            )
        } else {
            before
        }
    }
}

/// What `layer_imports` finds in a source.
pub open spec fn layer_findings(s: Source) -> Seq<ViolationView> {
    match forbidden_for(s.relative@) {
        Some((prefix, why)) => use_violations(prefix, why, s.relative@, lines_of(s.text@)),
        None => Seq::empty(),
    }
}

/// Every `use` line of a driver that names an adapter, and of a controller
/// that names a driver, is a violation.
pub fn layer_imports(source: &Source) -> (r: Vec<Violation>)
    ensures
        r.deep_view() == layer_findings(*source),
{
    let rel = chars_of(source.relative.as_str());
    let (prefix, why) = if starts_with(rel.as_slice(), chars_of("src/driver/").as_slice()) {
        ("crate::adapter::", "a driver reaches an adapter")
    } else if starts_with(rel.as_slice(), chars_of("src/controller/").as_slice()) {
        ("crate::driver::", "a controller reaches a driver")
    } else {
        return Vec::new();
    };
    let p = chars_of(prefix);
    let use_word = chars_of("use ");
    let text = chars_of(source.text.as_str());
    let lines = split_lines(text.as_slice());
    let ghost all = chars_view(lines@);
    let mut out: Vec<Violation> = Vec::new();
    let mut n: usize = 0;
    while n < lines.len()
        invariant
            n <= lines.len(),
            all == chars_view(lines@),
            all == lines_of(source.text@),
            forbidden_for(source.relative@) == Some((prefix@, why@)),
            p@ == prefix@,
            use_word@ == "use "@,
            out.deep_view() == use_violations(prefix@, why@, source.relative@, all.take(n as int)),
        decreases lines.len() - n,
    {
        proof {
            assert(all.take(n as int + 1).drop_last() == all.take(n as int));
            assert(all.take(n as int + 1).last() == lines@[n as int]@);
        }
        let line = &lines[n];
        let t = trim_start(line.as_slice());
        if starts_with(t.as_slice(), use_word.as_slice()) && contains(line.as_slice(), p.as_slice()) {
            let mut detail = owned("line ");
            let num = decimal_chars((n as u64) + 1);
            push_all(&mut detail, num.as_slice());
            push_str(&mut detail, ": ");
            push_str(&mut detail, why);
            push_str(&mut detail, ": ");
            let trimmed = trim(line.as_slice());
            push_all(&mut detail, trimmed.as_slice());
            let ghost before = out.deep_view();
            out.push(make_violation("layers only depend downward", &source.relative, detail));
            proof {
                assert(out.deep_view() =~= before.push(out@[out@.len() - 1]@));
            }
        }
        n = n + 1;
    }
    assert(all.take(lines.len() as int) == all);
    out
}

/// What one source contributes to the check.
pub open spec fn source_findings(s: Source) -> Seq<ViolationView> {
    if generated(s.relative@) {
        Seq::empty()
    } else if waived(s.relative@) {
        main_violations(s) + comment_violations(lines_of(s.text@), s.relative@)
    } else {
        main_violations(s) + comment_violations(lines_of(s.text@), s.relative@) + layer_findings(s)
            + fake_violations(lines_of(s.text@), s.relative@)
    }
}

pub open spec fn all_source_findings(sources: Seq<Source>) -> Seq<ViolationView>
    decreases sources.len(),
{
    if sources.len() == 0 {
        Seq::empty()
    } else {
        all_source_findings(sources.drop_last()) + source_findings(sources.last())
    }
}

/// What [`check`] finds: each source's own findings, then the undeclared
/// modules.
pub open spec fn check_findings(sources: Seq<Source>) -> Seq<ViolationView> {
    all_source_findings(sources) + undeclared(sources, all_declarations(sources))
}

/// Every rule over every source: generated files are left alone, and the
/// waived file still obeys the comment and main-size rules.
pub fn check(sources: &[Source]) -> (r: Vec<Violation>)
    ensures
        r.deep_view() == check_findings(sources@),
{
    let mut found: Vec<Violation> = Vec::new();
    let mut i: usize = 0;
    while i < sources.len()
        invariant
            i <= sources.len(),
            found.deep_view() == all_source_findings(sources@.take(i as int)),
        decreases sources.len() - i,
    {
        proof {
            assert(sources@.take(i as int + 1).drop_last() == sources@.take(i as int));
            assert(sources@.take(i as int + 1).last() == sources@[i as int]);
        }
        let s = &sources[i];
        let ghost start = found.deep_view();
        if !is_generated(s.relative.as_str()) {
            extend_violations(&mut found, main_is_only_wiring(s));
            extend_violations(&mut found, no_comments(s));
            if !is_waived(s.relative.as_str()) {
                extend_violations(&mut found, layer_imports(s));
                extend_violations(&mut found, hand_written_fakes(s));
            }
        }
        proof {
            assert(found.deep_view() =~= start + source_findings(sources@[i as int]));
        }
        i = i + 1;
    }
    assert(sources@.take(sources.len() as int) == sources@);
    extend_violations(&mut found, modules_are_declared(sources));
    found
}

} // verus!
