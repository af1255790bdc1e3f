//! How the functions a list of files declares stand against a Rust source:
//! found there under their snake-case name or the name an alias gives,
//! waived, or missing; with the missing ones grouped by the shortened path
//! of the file that declares them.
use vstd::prelude::*;

use crate::datagen::ids_map;
use crate::keyed::{keyed_sorted, keys_of, lemma_map_of_at, lemma_map_of_dom, lemma_map_of_insert, lemma_map_of_update, locate};
use crate::order::strings_view;
use crate::outline::{short, short_path, snake, to_snake_case};
use crate::text::{chars_of, contains, contains_seq, owned, push_str};

verus! {

/// Where a listed function stands.
#[derive(Debug, Clone, Copy, PartialEq, Eq, Structural)]
pub enum Standing {
    /// The source defines it.
    Found,
    /// It is excused.
    Waived,
    /// Neither.
    Missing,
}

pub open spec fn strs(v: Seq<&str>) -> Seq<Seq<char>> {
    v.map_values(|s: &str| s@)
}

/// The name the first alias for `name` gives it, if any.
pub open spec fn alias_for(aliases: Seq<(&str, &str)>, name: Seq<char>) -> Option<Seq<char>>
    decreases aliases.len(),
{
    if aliases.len() == 0 {
        None
    } else {
        match alias_for(aliases.drop_last(), name) {
            Some(o) => Some(o),
            None => if aliases.last().0@ == name {
                Some(aliases.last().1@)
            } else {
                None
            },
        }
    }
}

/// The name a function should carry in the source: its alias, else its
/// name in snake case.
pub open spec fn our_name(aliases: Seq<(&str, &str)>, name: Seq<char>) -> Seq<char> {
    match alias_for(aliases, name) {
        Some(o) => o,
        None => snake(name),
    }
}

/// Where `name` stands: waived when it is listed as such, else found when
/// the source holds `fn ` and its name followed by `(` or `<`.
pub open spec fn standing_of(
    name: Seq<char>,
    source: Seq<char>,
    waived: Seq<&str>,
    aliases: Seq<(&str, &str)>,
) -> Standing {
    if strs(waived).contains(name) {
        Standing::Waived
    } else if contains_seq(source, "fn "@ + our_name(aliases, name) + "("@) || contains_seq(
        source,
        "fn "@ + our_name(aliases, name) + "<"@,
    ) {
        Standing::Found
    } else {
        Standing::Missing
    }
}

/// Where `name` stands against `source`.
pub fn status_of(name: &str, source: &str, waived: &[&str], aliases: &[(&str, &str)]) -> (r: Standing)
    ensures
        r == standing_of(name@, source@, waived@, aliases@),
{
    let nc = chars_of(name);
    let mut i: usize = 0;
    while i < waived.len()
        invariant
            i <= waived@.len(),
            nc@ == name@,
            forall|k: int| 0 <= k < i ==> strs(waived@)[k] != name@,
        decreases waived@.len() - i,
    {
        if crate::text::same(chars_of(waived[i]).as_slice(), nc.as_slice()) {
            assert(strs(waived@)[i as int] == name@);
            return Standing::Waived;
        }
        i = i + 1;
    }
    let mut ours: Option<&str> = None;
    let mut k: usize = 0;
    while k < aliases.len()
        invariant
            k <= aliases@.len(),
            nc@ == name@,
            alias_for(aliases@.take(k as int), name@) == match ours {
                Some(o) => Some(o@),
                None => None::<Seq<char>>,
            },
        decreases aliases@.len() - k,
    {
        proof {
            assert(aliases@.take(k + 1).drop_last() =~= aliases@.take(k as int));
        }
        if ours.is_none() && crate::text::same(chars_of(aliases[k].0).as_slice(), nc.as_slice()) {
            ours = Some(aliases[k].1);
        }
        k = k + 1;
    }
    assert(aliases@.take(k as int) =~= aliases@);
    let snake_name = match ours {
        Some(o) => owned(o),
        None => to_snake_case(name),
    };
    let mut call = owned("fn ");
    push_str(&mut call, snake_name.as_str());
    let mut generic = owned("fn ");
    push_str(&mut generic, snake_name.as_str());
    push_str(&mut call, "(");
    push_str(&mut generic, "<");
    let sc = chars_of(source);
    if contains(sc.as_slice(), chars_of(call.as_str()).as_slice()) || contains(
        sc.as_slice(),
        chars_of(generic.as_str()).as_slice(),
    ) {
        Standing::Found
    } else {
        Standing::Missing
    }
}

/// Each function the files declare, in order, with its file's shortened
/// path and where it stands.
pub open spec fn file_standings(
    path: Seq<char>,
    names: Seq<String>,
    source: Seq<char>,
    waived: Seq<&str>,
    aliases: Seq<(&str, &str)>,
) -> Seq<(Seq<char>, Seq<char>, Standing)> {
    names.map_values(|n: String| (short(path), n@, standing_of(n@, source, waived, aliases)))
}

pub open spec fn standings(
    files: Seq<(String, Vec<String>)>,
    source: Seq<char>,
    waived: Seq<&str>,
    aliases: Seq<(&str, &str)>,
) -> Seq<(Seq<char>, Seq<char>, Standing)>
    decreases files.len(),
{
    if files.len() == 0 {
        Seq::empty()
    } else {
        standings(files.drop_last(), source, waived, aliases) + file_standings(
            files.last().0@,
            files.last().1@,
            source,
            waived,
            aliases,
        )
    }
}

/// How many of the standings are `kind`.
pub open spec fn count_of(st: Seq<(Seq<char>, Seq<char>, Standing)>, kind: Standing) -> nat
    decreases st.len(),
{
    if st.len() == 0 {
        0
    } else {
        count_of(st.drop_last(), kind) + if st.last().2 == kind {
            1nat
        } else {
            0nat
        }
    }
}

/// The missing functions, by shortened path, in the order they came.
pub open spec fn missing_by_path(st: Seq<(Seq<char>, Seq<char>, Standing)>) -> Map<
    Seq<char>,
    Seq<Seq<char>>,
>
    decreases st.len(),
{
    if st.len() == 0 {
        Map::empty()
    } else {
        let m = missing_by_path(st.drop_last());
        if st.last().2 == Standing::Missing {
            let before = if m.dom().contains(st.last().0) {
                m[st.last().0]
            } else {
                Seq::empty()
            };
            m.insert(st.last().0, before.push(st.last().1))
        } else {
            m
        }
    }
}

/// How the listed functions stand: how many were found and waived, and
/// the missing ones by shortened path, paths in ascending order.
pub struct Tally {
    pub found: usize,
    pub waived: usize,
    pub missing: Vec<(String, Vec<String>)>,
}

proof fn lemma_count_bound(st: Seq<(Seq<char>, Seq<char>, Standing)>, kind: Standing)
    ensures
        count_of(st, kind) <= st.len(),
    decreases st.len(),
{
    if st.len() > 0 {
        lemma_count_bound(st.drop_last(), kind);
    }
}

/// Adds `name` to the missing functions of `path`.
fn add_missing(missing: &mut Vec<(String, Vec<String>)>, path: &str, name: &str)
    requires
        keyed_sorted(old(missing)@),
    ensures
        keyed_sorted(final(missing)@),
        ids_map(final(missing)@) == ids_map(old(missing)@).insert(
            path@,
            (if ids_map(old(missing)@).dom().contains(path@) {
                ids_map(old(missing)@)[path@]
            } else {
                Seq::empty()
            }).push(name@),
        ),
{
    let pc = chars_of(path);
    let ghost before = missing@;
    proof {
        lemma_map_of_dom(before, path@);
    }
    match locate(missing, pc.as_slice()) {
        Ok(i) => {
            proof {
                lemma_map_of_at(before, i as int);
            }
            let (k, mut names) = missing.remove(i);
            assert(k == before[i as int].0);
            names.push(owned(name));
            let ghost x = names;
            missing.insert(i, (k, names));
            proof {
                assert(missing@ =~= before.update(i as int, (before[i as int].0, x)));
                lemma_map_of_update(before, i as int, x);
                assert(strings_view(x@) =~= strings_view(before[i as int].1@).push(name@));
                assert(ids_map(missing@) =~= ids_map(before).insert(
                    path@,
                    ids_map(before)[path@].push(name@),
                ));
            }
        },
        Err(i) => {
            proof {
                if keys_of(before).contains(path@) {
                    let t = choose|t: int| 0 <= t < keys_of(before).len() && keys_of(before)[t] == path@;
                    assert(before[t].0@ == path@);
                    crate::order::lemma_lex_irreflexive(path@);
                }
            }
            let mut names: Vec<String> = Vec::new();
            names.push(owned(name));
            let k = owned(path);
            let ghost x = names;
            proof {
                lemma_map_of_insert(before, i as int, k, x);
                assert(strings_view(x@) =~= Seq::<Seq<char>>::empty().push(name@));
            }
            missing.insert(i, (k, names));
            assert(ids_map(missing@) =~= ids_map(before).insert(
                path@,
                Seq::<Seq<char>>::empty().push(name@),
            ));
        },
    }
}

/// Where every function the files declare stands against `source`: each
/// file is its path and the functions it declares.
pub fn tally(
    files: &[(String, Vec<String>)],
    source: &str,
    waived: &[&str],
    aliases: &[(&str, &str)],
) -> (r: Tally)
    requires
        standings(files@, source@, waived@, aliases@).len() < usize::MAX,
    ensures
        r.found == count_of(standings(files@, source@, waived@, aliases@), Standing::Found),
        r.waived == count_of(standings(files@, source@, waived@, aliases@), Standing::Waived),
        keyed_sorted(r.missing@),
        ids_map(r.missing@) == missing_by_path(standings(files@, source@, waived@, aliases@)),
{
    let ghost all = standings(files@, source@, waived@, aliases@);
    let mut found: usize = 0;
    let mut waived_count: usize = 0;
    let mut missing: Vec<(String, Vec<String>)> = Vec::new();
    let ghost mut done: Seq<(Seq<char>, Seq<char>, Standing)> = Seq::empty();
    proof {
        assert(ids_map(missing@) =~= Map::<Seq<char>, Seq<Seq<char>>>::empty());
    }
    let mut i: usize = 0;
    while i < files.len()
        invariant
            i <= files@.len(),
            all == standings(files@, source@, waived@, aliases@),
            all.len() < usize::MAX,
            done == standings(files@.take(i as int), source@, waived@, aliases@),
            done.len() <= all.len(),
            found == count_of(done, Standing::Found),
            waived_count == count_of(done, Standing::Waived),
            keyed_sorted(missing@),
            ids_map(missing@) == missing_by_path(done),
        decreases files@.len() - i,
    {
        let path = short_path(files[i].0.as_str());
        let names = &files[i].1;
        let ghost base = done;
        proof {
            assert(files@.take(i + 1).drop_last() =~= files@.take(i as int));
            lemma_standings_len(files@, i as int, source@, waived@, aliases@);
        }
        let mut j: usize = 0;
        while j < names.len()
            invariant
                i < files@.len(),
                *names == files@[i as int].1,
                path@ == short(files@[i as int].0@),
                j <= names@.len(),
                all.len() < usize::MAX,
                base.len() + names@.len() <= all.len(),
                done == base + file_standings(
                    files@[i as int].0@,
                    names@.take(j as int),
                    source@,
                    waived@,
                    aliases@,
                ),
                found == count_of(done, Standing::Found),
                waived_count == count_of(done, Standing::Waived),
                keyed_sorted(missing@),
                ids_map(missing@) == missing_by_path(done),
            decreases names@.len() - j,
        {
            let st = status_of(names[j].as_str(), source, waived, aliases);
            let ghost next = (path@, names@[j as int]@, st);
            proof {
                lemma_count_bound(done, Standing::Found);
                lemma_count_bound(done, Standing::Waived);
                assert(done.push(next).drop_last() =~= done);
            }
            match st {
                Standing::Found => {
                    found = found + 1;
                },
                Standing::Waived => {
                    waived_count = waived_count + 1;
                },
                Standing::Missing => {
                    add_missing(&mut missing, path.as_str(), names[j].as_str());
                },
            }
            proof {
                done = done.push(next);
                assert(done =~= base + file_standings(
                    files@[i as int].0@,
                    names@.take(j + 1),
                    source@,
                    waived@,
                    aliases@,
                ));
            }
            j = j + 1;
        }
        proof {
            assert(names@.take(j as int) =~= names@);
            assert(done =~= standings(files@.take(i + 1), source@, waived@, aliases@));
        }
        i = i + 1;
    }
    assert(files@.take(i as int) =~= files@);
    Tally { found, waived: waived_count, missing }
}

/// The standings of the first `i` files and the next file's functions fit
/// in the standings of all files.
proof fn lemma_standings_len(
    files: Seq<(String, Vec<String>)>,
    i: int,
    source: Seq<char>,
    waived: Seq<&str>,
    aliases: Seq<(&str, &str)>,
)
    requires
        0 <= i < files.len(),
    ensures
        standings(files.take(i), source, waived, aliases).len() + files[i].1@.len() <= standings(
            files,
            source,
            waived,
            aliases,
        ).len(),
    decreases files.len(),
{
    if i < files.len() - 1 {
        lemma_standings_len(files.drop_last(), i, source, waived, aliases);
        assert(files.drop_last().take(i) =~= files.take(i));
    } else {
        assert(files.take(i) =~= files.drop_last());
    }
}

} // verus!
