//! The outline of a TypeScript source: the functions it declares at the
//! top level, the script of a Vue component, and the Rust spelling of a
//! function's name.
use vstd::prelude::*;

use crate::arch::{
    ident_char, ident_end, leading_ident, leading_identifier,
};
use crate::order::{
    insert_sorted, strictly_sorted, strings_view,
};
use crate::scan::{
    is_uppercase, lowercase_chars, lowercase_form, uppercase_letter,
};
use crate::text::{
    chars_of, chars_view, extend_chars, find, find_seq, first_in, first_of, lemma_find_from, lines_of, slice_of, split_lines, split_once, split_once_seq, starts_with, starts_with_seq, strip_prefix, strip_prefix_seq, string_of,
};

verus! {

// ---------------------------------------------------------------------------
// Function declarations
// ---------------------------------------------------------------------------

/// A binding of an arrow function or function expression at the top
/// level, `const name = (...) => ...`: what follows `const`, when the name
/// is an identifier and the value opens with its arguments.
pub open spec fn arrow_rest(line: Seq<char>) -> Option<Seq<char>> {
    let rest = match strip_prefix_seq(line, "export const "@) {
        Some(r) => Some(r),
        None => strip_prefix_seq(line, "const "@),
    };
    match rest {
        None => None,
        Some(rest) => match split_once_seq(rest, " = "@) {
            None => None,
            Some((name, body)) => if name.len() == 0 || ident_end(name, 0) != name.len() {
                None
            } else {
                let body = match strip_prefix_seq(body, "async "@) {
                    Some(b) => b,
                    None => body,
                };
                let opens = starts_with_seq(body, "("@) || match split_once_seq(body, "=>"@) {
                    Some((before, _)) => first_in(before, "(.["@, 0) >= before.len(),
                    None => false,
                };
                if opens {
                    Some(rest)
                } else {
                    None
                }
            },
        },
    }
}

proof fn lemma_ident_end_bounds(s: Seq<char>, k: int)
    requires
        0 <= k <= s.len(),
    ensures
        k <= ident_end(s, k) <= s.len(),
    decreases s.len() - k,
{
    if k < s.len() && ident_char(s[k]) {
        lemma_ident_end_bounds(s, k + 1);
    }
}

fn arrow_binding_chars(line: &[char]) -> (r: Option<Vec<char>>)
    ensures
        match r {
            Some(v) => arrow_rest(line@) == Some(v@),
            None => arrow_rest(line@) is None,
        },
{
    let rest = match strip_prefix(line, chars_of("export const ").as_slice()) {
        Some(r) => r,
        None => match strip_prefix(line, chars_of("const ").as_slice()) {
            Some(r) => r,
            None => return None,
        },
    };
    let (name, body) = match split_once(rest.as_slice(), chars_of(" = ").as_slice()) {
        Some(pair) => pair,
        None => return None,
    };
    proof {
        lemma_ident_end_bounds(name@, 0);
    }
    if name.len() == 0 || leading_identifier(name.as_slice()).len() != name.len() {
        return None;
    }
    let body = match strip_prefix(body.as_slice(), chars_of("async ").as_slice()) {
        Some(b) => b,
        None => body,
    };
    let opens = if starts_with(body.as_slice(), chars_of("(").as_slice()) {
        true
    } else {
        match split_once(body.as_slice(), chars_of("=>").as_slice()) {
            Some((before, _)) => first_of(before.as_slice(), chars_of("(.[").as_slice())
                >= before.len(),
            None => false,
        }
    };
    if opens {
        Some(rest)
    } else {
        None
    }
}

/// What follows the binding's `const` when `line` binds a function at the
/// top level.
pub fn arrow_binding(line: &str) -> (r: Option<String>)
    ensures
        match r {
            Some(s) => arrow_rest(line@) == Some(s@),
            None => arrow_rest(line@) is None,
        },
{
    let cs = chars_of(line);
    match arrow_binding_chars(cs.as_slice()) {
        Some(v) => Some(string_of(v.as_slice())),
        None => None,
    }
}

/// What follows a top-level `function` keyword on `line`, if it opens with
/// one; with `arrows`, an arrow binding counts too.
pub open spec fn declared_rest(line: Seq<char>, arrows: bool) -> Option<Seq<char>> {
    match strip_prefix_seq(line, "export function "@) {
        Some(r) => Some(r),
        None => match strip_prefix_seq(line, "function "@) {
            Some(r) => Some(r),
            None => match strip_prefix_seq(line, "export function* "@) {
                Some(r) => Some(r),
                None => match strip_prefix_seq(line, "function* "@) {
                    Some(r) => Some(r),
                    None => if arrows {
                        arrow_rest(line)
                    } else {
                        None
                    },
                },
            },
        },
    }
}

/// The name a line declares at the top level, if any.
pub open spec fn declared_name(line: Seq<char>, arrows: bool) -> Option<Seq<char>> {
    match declared_rest(line, arrows) {
        Some(rest) => if leading_ident(rest).len() > 0 {
            Some(leading_ident(rest))
        } else {
            None
        },
        None => None,
    }
}

/// Whether some line of `lines` declares `name`.
pub open spec fn declares(lines: Seq<Seq<char>>, arrows: bool, name: Seq<char>) -> bool {
    exists|k: int| 0 <= k < lines.len() && declared_name(#[trigger] lines[k], arrows) == Some(name)
}

fn declared_rest_chars(line: &[char], arrows: bool) -> (r: Option<Vec<char>>)
    ensures
        match r {
            Some(v) => declared_rest(line@, arrows) == Some(v@),
            None => declared_rest(line@, arrows) is None,
        },
{
    if let Some(r) = strip_prefix(line, chars_of("export function ").as_slice()) {
        return Some(r);
    }
    if let Some(r) = strip_prefix(line, chars_of("function ").as_slice()) {
        return Some(r);
    }
    if let Some(r) = strip_prefix(line, chars_of("export function* ").as_slice()) {
        return Some(r);
    }
    if let Some(r) = strip_prefix(line, chars_of("function* ").as_slice()) {
        return Some(r);
    }
    if arrows {
        arrow_binding_chars(line)
    } else {
        None
    }
}

/// The names `text` declares at the top level, sorted and each once.
fn functions_in(text: &str, arrows: bool) -> (r: Vec<String>)
    ensures
        strictly_sorted(strings_view(r@)),
        forall|h: Seq<char>|
            strings_view(r@).contains(h) <==> declares(lines_of(text@), arrows, h),
{
    let cs = chars_of(text);
    let lines = split_lines(cs.as_slice());
    let ghost all = chars_view(lines@);
    let mut out: Vec<String> = Vec::new();
    let mut n: usize = 0;
    while n < lines.len()
        invariant
            n <= lines.len(),
            all == chars_view(lines@),
            all == lines_of(text@),
            strictly_sorted(strings_view(out@)),
            forall|h: Seq<char>|
                strings_view(out@).contains(h) <==> declares(all.take(n as int), arrows, h),
        decreases lines.len() - n,
    {
        let ghost before = strings_view(out@);
        let line = &lines[n];
        let found = declared_rest_chars(line.as_slice(), arrows);
        let ghost name_here = declared_name(all[n as int], arrows);
        assert(all[n as int] == line@);
        if let Some(rest) = found {
            let name = leading_identifier(rest.as_slice());
            if name.len() > 0 {
                insert_sorted(&mut out, name.as_slice());
            }
        }
        proof {
            let prefix = all.take(n as int);
            let longer = all.take(n as int + 1);
            assert forall|h: Seq<char>|
                strings_view(out@).contains(h) <==> declares(longer, arrows, h) by {
                if declares(longer, arrows, h) {
                    let k = choose|k: int|
                        0 <= k < longer.len() && declared_name(#[trigger] longer[k], arrows)
                            == Some(h);
                    if k < n {
                        assert(prefix[k] == longer[k]);
                        assert(declares(prefix, arrows, h));
                    } else {
                        assert(longer[k] == all[n as int]);
                    }
                }
                if declares(prefix, arrows, h) {
                    let k = choose|k: int|
                        0 <= k < prefix.len() && declared_name(#[trigger] prefix[k], arrows)
                            == Some(h);
                    assert(longer[k] == prefix[k]);
                }
                if name_here == Some(h) {
                    assert(longer[n as int] == all[n as int]);
                }
            }
        }
        n = n + 1;
    }
    assert(all.take(lines.len() as int) == all);
    out
}

/// The functions `text` declares at the top level, by `function` or by
/// binding an arrow function to a `const`, sorted and each once. An
/// indented declaration belongs to something else and is not counted.
pub fn top_level_functions(text: &str) -> (r: Vec<String>)
    ensures
        strictly_sorted(strings_view(r@)),
        forall|h: Seq<char>| strings_view(r@).contains(h) <==> declares(lines_of(text@), true, h),
{
    functions_in(text, true)
}

/// The functions `text` declares at the top level by `function` alone,
/// sorted and each once.
pub fn top_level_function_declarations(text: &str) -> (r: Vec<String>)
    ensures
        strictly_sorted(strings_view(r@)),
        forall|h: Seq<char>|
            strings_view(r@).contains(h) <==> declares(lines_of(text@), false, h),
{
    functions_in(text, false)
}

// ---------------------------------------------------------------------------
// Names
// ---------------------------------------------------------------------------

/// The Rust spelling of a camel-case name: each capital lowered, with an
/// underscore before it unless it opens the name.
pub open spec fn snake(name: Seq<char>) -> Seq<char>
    decreases name.len(),
{
    if name.len() == 0 {
        Seq::empty()
    } else {
        let c = name.last();
        let i = name.len() - 1;
        snake(name.drop_last()) + if uppercase_letter(c) {
            (if i > 0 {
                seq!['_']
            } else {
                Seq::empty()
            }) + lowercase_form(c)
        } else {
            seq![c]
        }
    }
}

pub fn to_snake_case(name: &str) -> (r: String)
    ensures
        r@ == snake(name@),
{
    let cs = chars_of(name);
    let mut out: Vec<char> = Vec::new();
    let mut i: usize = 0;
    while i < cs.len()
        invariant
            i <= cs.len(),
            cs@ == name@,
            out@ == snake(cs@.take(i as int)),
        decreases cs.len() - i,
    {
        proof {
            assert(cs@.take(i as int + 1).drop_last() == cs@.take(i as int));
            assert(cs@.take(i as int + 1).last() == cs@[i as int]);
        }
        let c = cs[i];
        if is_uppercase(c) {
            if i > 0 {
                out.push('_');
            }
            let lower = lowercase_chars(c);
            extend_chars(&mut out, lower.as_slice());
        } else {
            out.push(c);
        }
        i = i + 1;
    }
    assert(cs@.take(cs.len() as int) == cs@);
    string_of(out.as_slice())
}

/// The part of a path that says where a file sits in the component tree:
/// what follows `renderer/src/`, or the whole path when it has none.
pub open spec fn short(path: Seq<char>) -> Seq<char> {
    match find_seq(path, "renderer/src/"@) {
        Some(i) => path.skip(i + 13),
        None => path,
    }
}

pub fn short_path(path: &str) -> (r: String)
    ensures
        r@ == short(path@),
{
    proof {
        reveal_strlit("renderer/src/");
    }
    let cs = chars_of(path);
    let marker = chars_of("renderer/src/");
    match find(cs.as_slice(), marker.as_slice()) {
        Some(i) => {
            proof {
                lemma_find_from(cs@, marker@, 0);
            }
            let plen = marker.len();
            assert(i + plen <= cs.len());
            assert(plen == 13);
            string_of(slice_of(cs.as_slice(), i + plen, cs.len()).as_slice())
        },
        None => string_of(cs.as_slice()),
    }
}

// ---------------------------------------------------------------------------
// Vue components
// ---------------------------------------------------------------------------

/// The script of a Vue component read from `rest` on: each `<script ...>`
/// block's body, each ended by a newline; an unclosed block runs to the
/// end and ends the script.
pub open spec fn scripts(rest: Seq<char>) -> Seq<char>
    decreases rest.len(),
{
    match find_seq(rest, "<script"@) {
        None => Seq::empty(),
        Some(open) => {
            let after = rest.skip(open);
            match find_seq(after, ">"@) {
                None => Seq::empty(),
                Some(i) => {
                    let body = after.skip(i + 1);
                    match find_seq(body, "</script>"@) {
                        None => body,
                        Some(close) => {
                            proof {
                                lemma_find_from(rest, "<script"@, 0);
                                lemma_find_from(after, ">"@, 0);
                                lemma_find_from(body, "</script>"@, 0);
                            }
                            if close + 9 <= body.len() && i + 1 <= after.len() && open
                                <= rest.len() {
                                body.take(close) + seq!['\n'] + scripts(body.skip(close + 9))
                            } else {
                                body.take(close) + seq!['\n']
                            }
                        },
                    }
                },
            }
        },
    }
}

/// The script of a Vue component: the bodies of its `<script>` blocks.
pub fn script_block(text: &str) -> (r: String)
    ensures
        r@ == scripts(text@),
{
    proof {
        reveal_strlit("<script");
        reveal_strlit(">");
        reveal_strlit("</script>");
    }
    let open_tag = chars_of("<script");
    let gt = chars_of(">");
    let close_tag = chars_of("</script>");
    let mut out: Vec<char> = Vec::new();
    let mut rest = chars_of(text);
    loop
        invariant
            open_tag@ == "<script"@,
            gt@ == ">"@,
            gt@.len() == 1,
            close_tag@ == "</script>"@,
            close_tag@.len() == 9,
            out@ + scripts(rest@) == scripts(text@),
        decreases rest@.len(),
    {
        let open = match find(rest.as_slice(), open_tag.as_slice()) {
            None => {
                assert(scripts(rest@) == Seq::<char>::empty());
                assert(out@ + Seq::<char>::empty() == out@);
                return string_of(out.as_slice());
            },
            Some(open) => open,
        };
        proof {
            lemma_find_from(rest@, open_tag@, 0);
        }
        let after = slice_of(rest.as_slice(), open, rest.len());
        assert(after@ == rest@.skip(open as int));
        let i = match find(after.as_slice(), gt.as_slice()) {
            None => {
                assert(scripts(rest@) == Seq::<char>::empty());
                assert(out@ + Seq::<char>::empty() == out@);
                return string_of(out.as_slice());
            },
            Some(i) => i,
        };
        proof {
            lemma_find_from(after@, gt@, 0);
        }
        let glen = gt.len();
        assert(i + glen <= after.len());
        assert(glen == 1);
        let body = slice_of(after.as_slice(), i + glen, after.len());
        assert(body@ == after@.skip(i + 1));
        match find(body.as_slice(), close_tag.as_slice()) {
            None => {
                assert(scripts(rest@) == body@);
                extend_chars(&mut out, body.as_slice());
                return string_of(out.as_slice());
            },
            Some(close) => {
                proof {
                    lemma_find_from(body@, close_tag@, 0);
                }
                let ghost before = out@;
                let head = slice_of(body.as_slice(), 0, close);
                assert(head@ == body@.take(close as int));
                extend_chars(&mut out, head.as_slice());
                out.push('\n');
                let clen = close_tag.len();
                assert(close + clen <= body.len());
                let next = slice_of(body.as_slice(), close + clen, body.len());
                assert(next@ == body@.skip(close + 9));
                assert(scripts(rest@) == body@.take(close as int) + seq!['\n'] + scripts(next@));
                assert(out@ + scripts(next@) == before + scripts(rest@));
                rest = next;
            },
        }
    }
}

} // verus!
