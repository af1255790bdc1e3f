//! The text of an architecture report: the violations grouped by rule,
//! the rules in order, a few of each shown, and the verdict against the
//! ceiling.
use vstd::prelude::*;

use crate::keyed::{
    keyed_sorted, keys_of, lemma_map_of_at, lemma_map_of_dom, lemma_map_of_insert, lemma_map_of_update, locate, map_of,
};
use crate::scan::Violation;
use crate::text::{
    chars_of, decimal, decimal_chars, owned, push_all, push_str,
};

verus! {

/// The positions in `found`, among its first `upto`, of the violations of
/// `rule`, in order.
pub open spec fn positions(found: Seq<Violation>, rule: Seq<char>, upto: int) -> Seq<usize>
    decreases upto,
{
    if upto <= 0 {
        Seq::empty()
    } else {
        positions(found, rule, upto - 1) + if found[upto - 1].rule@ == rule {
            seq![(upto - 1) as usize]
        } else {
            Seq::empty()
        }
    }
}

/// Some violation among the first `upto` of `found` breaks `rule`.
pub open spec fn broken(found: Seq<Violation>, rule: Seq<char>, upto: int) -> bool {
    exists|j: int| 0 <= j < upto && #[trigger] found[j].rule@ == rule
}

/// `groups` holds, sorted by rule, each rule broken among the first `upto`
/// violations, with the positions of its violations.
pub open spec fn groups_rules(groups: Seq<(String, Vec<usize>)>, found: Seq<Violation>, upto: int) -> bool {
    &&& keyed_sorted(groups)
    &&& forall|k: Seq<char>| map_of(groups).dom().contains(k) <==> broken(found, k, upto)
    &&& forall|k: Seq<char>|
        #![trigger map_of(groups)[k]]
        map_of(groups).dom().contains(k) ==> map_of(groups)[k]@ == positions(found, k, upto)
}

proof fn lemma_positions_empty(found: Seq<Violation>, rule: Seq<char>, upto: int)
    requires
        0 <= upto <= found.len(),
        !broken(found, rule, upto),
    ensures
        positions(found, rule, upto) == Seq::<usize>::empty(),
    decreases upto,
{
    if upto > 0 {
        assert(found[upto - 1].rule@ != rule);
        assert(!broken(found, rule, upto - 1)) by {
            if broken(found, rule, upto - 1) {
                let t = choose|t: int| 0 <= t < upto - 1 && #[trigger] found[t].rule@ == rule;
                assert(found[t].rule@ == rule);
            }
        }
        lemma_positions_empty(found, rule, upto - 1);
    }
}

proof fn lemma_positions_other(found: Seq<Violation>, rule: Seq<char>, j: int)
    requires
        0 <= j < found.len(),
        found[j].rule@ != rule,
    ensures
        positions(found, rule, j + 1) == positions(found, rule, j),
{
    assert(positions(found, rule, j + 1) =~= positions(found, rule, j));
}

/// The violations of `found` grouped by rule: each rule broken, sorted by
/// name, with the positions of its violations in order.
pub fn group_by_rule(found: &[Violation]) -> (r: Vec<(String, Vec<usize>)>)
    ensures
        groups_rules(r@, found@, found@.len() as int),
{
    let mut groups: Vec<(String, Vec<usize>)> = Vec::new();
    proof {
        assert forall|k: Seq<char>| map_of(groups@).dom().contains(k) <==> broken(found@, k, 0) by {
            lemma_map_of_dom(groups@, k);
        }
    }
    let mut j: usize = 0;
    while j < found.len()
        invariant
            j <= found.len(),
            groups_rules(groups@, found@, j as int),
        decreases found.len() - j,
    {
        let rule = chars_of(found[j].rule.as_str());
        let ghost before = groups@;
        let ghost key = found@[j as int].rule@;
        match locate(&groups, rule.as_slice()) {
            Ok(i) => {
                proof {
                    lemma_map_of_at(before, i as int);
                }
                let (k, mut at) = groups.remove(i);
                assert(at@ == positions(found@, key, j as int));
                at.push(j);
                let ghost x = at;
                groups.insert(i, (k, at));
                proof {
                    assert(groups@ =~= before.update(i as int, (before[i as int].0, x)));
                    lemma_map_of_update(before, i as int, x);
                    assert(positions(found@, key, j + 1) =~= positions(found@, key, j as int).push(j));
                    assert(map_of(groups@)[key]@ == positions(found@, key, j + 1));
                }
            },
            Err(i) => {
                proof {
                    lemma_map_of_dom(before, key);
                    if keys_of(before).contains(key) {
                        let t = choose|t: int| 0 <= t < keys_of(before).len() && keys_of(before)[t] == key;
                        assert(before[t].0@ == key);
                        crate::order::lemma_lex_irreflexive(key);
                    }
                }
                let mut at: Vec<usize> = Vec::new();
                at.push(j);
                let k = owned(found[j].rule.as_str());
                let ghost x = at;
                proof {
                    lemma_map_of_insert(before, i as int, k, x);
                    assert(!broken(found@, key, j as int));
                    lemma_positions_empty(found@, key, j as int);
                    assert(positions(found@, key, j + 1) =~= seq![j]);
                }
                groups.insert(i, (k, at));
                assert(map_of(groups@)[key]@ == positions(found@, key, j + 1));
            },
        }
        proof {
            let m = map_of(groups@);
            assert forall|k: Seq<char>| m.dom().contains(k) <==> broken(found@, k, j + 1) by {
                if broken(found@, k, j + 1) && k != key {
                    let t = choose|t: int| 0 <= t < j + 1 && #[trigger] found@[t].rule@ == k;
                    assert(broken(found@, k, j as int));
                }
                if broken(found@, k, j as int) {
                    let t = choose|t: int| 0 <= t < j && #[trigger] found@[t].rule@ == k;
                    assert(found@[t].rule@ == k);
                }
                assert(found@[j as int].rule@ == key);
            }
            assert forall|k: Seq<char>|
                #![trigger map_of(groups@)[k]]
                m.dom().contains(k) implies m[k]@ == positions(found@, k, j + 1) by {
                if k != key {
                    lemma_positions_other(found@, k, j as int);
                }
            }
        }
        j = j + 1;
    }
    groups
}

/// A violation as the report lists it: indented, its file, then what is
/// wrong.
pub open spec fn violation_line(found: Seq<Violation>, p: usize) -> Seq<char> {
    "  "@ + found[p as int].path@ + " "@ + found[p as int].detail@
}

/// The lines for one rule: its name and how often it is broken, the first
/// `shown` of its violations, how many more there are, and a blank line.
pub open spec fn section(found: Seq<Violation>, rule: Seq<char>, at: Seq<usize>, shown: nat) -> Seq<
    Seq<char>,
> {
    let listed = if at.len() <= shown {
        at
    } else {
        at.take(shown as int)
    };
    seq![rule + " ("@ + decimal(at.len()) + ")"@] + listed.map_values(
        |p: usize| violation_line(found, p),
    ) + if at.len() > shown {
        seq!["  and "@ + decimal((at.len() - shown) as nat) + " more"@]
    } else {
        Seq::empty()
    } + seq![Seq::empty()]
}

/// The sections of every group, in order.
pub open spec fn sections(found: Seq<Violation>, groups: Seq<(String, Vec<usize>)>, shown: nat) -> Seq<
    Seq<char>,
>
    decreases groups.len(),
{
    if groups.len() == 0 {
        Seq::empty()
    } else {
        sections(found, groups.drop_last(), shown) + section(
            found,
            groups.last().0@,
            groups.last().1@,
            shown,
        )
    }
}

fn section_lines(
    found: &[Violation],
    rule: &String,
    at: &Vec<usize>,
    shown: usize,
    out: &mut Vec<String>,
)
    requires
        forall|t: int| 0 <= t < at@.len() ==> #[trigger] at@[t] < found@.len(),
    ensures
        final(out)@.map_values(|s: String| s@) == old(out)@.map_values(|s: String| s@) + section(
            found@,
            rule@,
            at@,
            shown as nat,
        ),
{
    let ghost start = out@.map_values(|s: String| s@);
    let mut head = owned(rule.as_str());
    push_str(&mut head, " (");
    push_all(&mut head, decimal_chars(at.len() as u64).as_slice());
    push_str(&mut head, ")");
    out.push(head);
    let ghost listed = if at@.len() <= shown {
        at@
    } else {
        at@.take(shown as int)
    };
    let limit = if at.len() <= shown {
        at.len()
    } else {
        shown
    };
    let mut i: usize = 0;
    while i < limit
        invariant
            i <= limit,
            limit == listed.len(),
            limit <= at@.len(),
            listed == at@.take(limit as int),
            forall|t: int| 0 <= t < at@.len() ==> #[trigger] at@[t] < found@.len(),
            out@.map_values(|s: String| s@) == start + seq![
                rule@ + " ("@ + decimal(at@.len()) + ")"@,
            ] + listed.take(i as int).map_values(|q: usize| violation_line(found@, q)),
        decreases limit - i,
    {
        let p = at[i];
        let mut line = owned("  ");
        push_str(&mut line, found[p].path.as_str());
        push_str(&mut line, " ");
        push_str(&mut line, found[p].detail.as_str());
        let ghost before = out@.map_values(|s: String| s@);
        assert(line@ == violation_line(found@, p));
        out.push(line);
        proof {
            assert(listed.take(i as int + 1).map_values(|q: usize| violation_line(found@, q)) =~= listed.take(i as int).map_values(|q: usize| violation_line(found@, q)).push(violation_line(found@, p)));
            assert(out@.map_values(|s: String| s@) =~= before.push(violation_line(found@, p)));
        }
        i = i + 1;
    }
    assert(listed.take(limit as int) == listed);
    let ghost mid = out@.map_values(|s: String| s@);
    if at.len() > shown {
        let mut more = owned("  and ");
        push_all(&mut more, decimal_chars((at.len() - shown) as u64).as_slice());
        push_str(&mut more, " more");
        out.push(more);
    }
    let ghost tail = out@.map_values(|s: String| s@);
    assert(tail == mid + if at@.len() > shown {
        seq!["  and "@ + decimal((at@.len() - shown) as nat) + " more"@]
    } else {
        Seq::<Seq<char>>::empty()
    });
    out.push(String::new());
    proof {
        assert(out@.map_values(|s: String| s@) =~= tail.push(Seq::<char>::empty()));
        assert(out@.map_values(|s: String| s@) =~= start + section(found@, rule@, at@, shown as nat));
    }
}

/// The body of the report: one section per rule broken, the rules in
/// order, each listing at most `shown` of its violations.
pub fn report_body(found: &[Violation], shown: usize) -> (r: Vec<String>)
    ensures
        exists|groups: Seq<(String, Vec<usize>)>|
            groups_rules(groups, found@, found@.len() as int) && r@.map_values(|s: String| s@)
                == #[trigger] sections(found@, groups, shown as nat),
{
    let groups = group_by_rule(found);
    let mut out: Vec<String> = Vec::new();
    let mut g: usize = 0;
    while g < groups.len()
        invariant
            g <= groups.len(),
            groups_rules(groups@, found@, found@.len() as int),
            out@.map_values(|s: String| s@) == sections(found@, groups@.take(g as int), shown as nat),
        decreases groups.len() - g,
    {
        proof {
            assert(groups@.take(g as int + 1).drop_last() == groups@.take(g as int));
            assert(groups@.take(g as int + 1).last() == groups@[g as int]);
            lemma_map_of_at(groups@, g as int);
            let k = groups@[g as int].0@;
            assert(map_of(groups@)[k]@ == positions(found@, k, found@.len() as int));
            lemma_positions_bounded(found@, k, found@.len() as int);
        }
        section_lines(found, &groups[g].0, &groups[g].1, shown, &mut out);
        g = g + 1;
    }
    assert(groups@.take(groups.len() as int) == groups@);
    out
}

proof fn lemma_positions_bounded(found: Seq<Violation>, rule: Seq<char>, upto: int)
    requires
        0 <= upto <= found.len(),
    ensures
        forall|t: int|
            0 <= t < positions(found, rule, upto).len() ==> #[trigger] positions(found, rule, upto)[t]
                < upto,
    decreases upto,
{
    if upto > 0 {
        lemma_positions_bounded(found, rule, upto - 1);
        let before = positions(found, rule, upto - 1);
        let now = positions(found, rule, upto);
        assert forall|t: int| 0 <= t < now.len() implies #[trigger] now[t] < upto by {
            if t < before.len() {
                assert(now[t] == before[t]);
            }
        }
    }
}

/// The last line of the report: whether the violations stay within the
/// ceiling, and the sentence that says so.
pub open spec fn verdict_text(count: nat, ceiling: nat) -> Seq<char> {
    if count > ceiling {
        "FAIL: "@ + decimal(count) + " violations, ceiling is "@ + decimal(ceiling)
            + ". Move the code rather than raising it."@
    } else {
        "OK: "@ + decimal(count) + " violations, ceiling is "@ + decimal(ceiling)
    }
}

/// Whether `count` violations pass under `ceiling`, and the line saying so.
pub fn verdict(count: usize, ceiling: usize) -> (r: (bool, String))
    ensures
        r.0 == (count <= ceiling),
        r.1@ == verdict_text(count as nat, ceiling as nat),
{
    let mut line = if count > ceiling {
        owned("FAIL: ")
    } else {
        owned("OK: ")
    };
    push_all(&mut line, decimal_chars(count as u64).as_slice());
    push_str(&mut line, " violations, ceiling is ");
    push_all(&mut line, decimal_chars(ceiling as u64).as_slice());
    if count > ceiling {
        push_str(&mut line, ". Move the code rather than raising it.");
    }
    (count <= ceiling, line)
}

} // verus!
