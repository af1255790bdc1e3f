//! How a built record reads as one line of JSON, the shape the data loader
//! reads. Keys stand in ascending order and nothing is padded, as
//! `serde_json` writes an object.
use vstd::prelude::*;

use crate::datagen::{ItemRecord, StatRecord};
use crate::text::{
    contains_seq, decimal, decimal_chars, digit_char, ends_with_seq, lemma_contains_at, matches_at, owned, push_all, push_str,
    starts_with_seq,
};

verus! {

/// The hexadecimal digit of `d`, lowercase, as JSON's `\u` escapes write it.
pub open spec fn hex_digit(d: nat) -> char {
    seq!['0', '1', '2', '3', '4', '5', '6', '7', '8', '9', 'a', 'b', 'c', 'd', 'e', 'f'][d as int]
}

/// How JSON writes the character `c` inside a string: a quote and a
/// backslash behind a backslash; backspace, tab, newline, form feed and
/// carriage return as `\b`, `\t`, `\n`, `\f`, `\r`; any other control
/// character as `\u00` and its two hexadecimal digits; everything else as
/// it is.
pub open spec fn json_escaped_char(c: char) -> Seq<char> {
    if c == '"' {
        seq!['\\', '"']
    } else if c == '\\' {
        seq!['\\', '\\']
    } else if c == '\u{8}' {
        seq!['\\', 'b']
    } else if c == '\t' {
        seq!['\\', 't']
    } else if c == '\n' {
        seq!['\\', 'n']
    } else if c == '\u{c}' {
        seq!['\\', 'f']
    } else if c == '\r' {
        seq!['\\', 'r']
    } else if (c as u32) < 0x20 {
        seq!['\\', 'u', '0', '0', hex_digit((c as u32 / 16) as nat), hex_digit((c as u32 % 16) as nat)]
    } else {
        seq![c]
    }
}

/// The characters of `s`, each as JSON writes it inside a string.
pub open spec fn json_escaped(s: Seq<char>) -> Seq<char>
    decreases s.len(),
{
    if s.len() == 0 {
        Seq::empty()
    } else {
        json_escaped(s.drop_last()) + json_escaped_char(s.last())
    }
}

/// How JSON writes the string `s`: its escaped characters between double
/// quotes.
pub open spec fn json_quoted(s: Seq<char>) -> Seq<char> {
    seq!['"'] + json_escaped(s) + seq!['"']
}

/// `serde_json::Value::String` of `s`, written by its `Display`: the
/// string as JSON writes it, escaped character by character as
/// [`json_escaped_char`] says.
#[verifier::external_body]
fn serde_quoted(s: &str) -> (r: String)
    ensures
        r@ == json_quoted(s@),
{
    serde_json::Value::String(s.to_string()).to_string()
}

/// No character JSON writes for `s` is a newline.
proof fn lemma_json_escaped_one_line(s: Seq<char>)
    ensures
        one_line(json_escaped(s)),
    decreases s.len(),
{
    if s.len() > 0 {
        lemma_json_escaped_one_line(s.drop_last());
        let c = s.last();
        let e = json_escaped_char(c);
        assert(one_line(e)) by {
            if (c as u32) < 0x20 && c != '\u{8}' && c != '\t' && c != '\n' && c != '\u{c}' && c
                != '\r' {
                let hi = (c as u32 / 16) as nat;
                let lo = (c as u32 % 16) as nat;
                assert(hi < 2);
                assert(hex_digit(hi) != '\n');
                assert(hex_digit(lo) != '\n');
            }
            assert forall|k: int| 0 <= k < e.len() implies e[k] != '\n' by {}
        }
        lemma_one_line_add(json_escaped(s.drop_last()), e);
    }
}

/// `s` as a JSON string. It opens and closes with a quote and stands on
/// one line.
fn json_string(s: &str) -> (r: String)
    ensures
        r@ == json_quoted(s@),
        r@.len() >= 2,
        r@[0] == '"',
        r@.last() == '"',
        !r@.contains('\n'),
{
    let r = serde_quoted(s);
    proof {
        lemma_json_escaped_one_line(s@);
        lemma_one_line_add(seq!['"'], json_escaped(s@));
        lemma_one_line_add(seq!['"'] + json_escaped(s@), seq!['"']);
    }
    r
}

/// The parts, with a comma between each two.
pub open spec fn comma_joined(parts: Seq<Seq<char>>) -> Seq<char>
    decreases parts.len(),
{
    if parts.len() == 0 {
        Seq::empty()
    } else if parts.len() == 1 {
        parts[0]
    } else {
        comma_joined(parts.drop_last()) + seq![','] + parts.last()
    }
}

/// A JSON array of the strings `items`.
pub open spec fn string_array(items: Seq<Seq<char>>) -> Seq<char> {
    seq!['['] + comma_joined(items.map_values(|s: Seq<char>| json_quoted(s))) + seq![']']
}

/// A member of an object: the quoted key, a colon, the value.
pub open spec fn member(key: Seq<char>, value: Seq<char>) -> Seq<char> {
    json_quoted(key) + seq![':'] + value
}

pub open spec fn bool_text(b: bool) -> Seq<char> {
    if b {
        "true"@
    } else {
        "false"@
    }
}

/// The text holds no newline, so it stands on one line.
pub open spec fn one_line(s: Seq<char>) -> bool {
    !s.contains('\n')
}

proof fn lemma_one_line_add(a: Seq<char>, b: Seq<char>)
    requires
        one_line(a),
        one_line(b),
    ensures
        one_line(a + b),
{
    assert forall|k: int| 0 <= k < (a + b).len() implies (a + b)[k] != '\n' by {
        if k < a.len() {
            assert((a + b)[k] == a[k]);
        } else {
            assert((a + b)[k] == b[k - a.len()]);
        }
    }
}

proof fn lemma_one_line_joined(parts: Seq<Seq<char>>)
    requires
        forall|i: int| 0 <= i < parts.len() ==> one_line(#[trigger] parts[i]),
    ensures
        one_line(comma_joined(parts)),
    decreases parts.len(),
{
    if parts.len() == 1 {
        assert(one_line(parts[0]));
    } else if parts.len() > 1 {
        let rest = parts.drop_last();
        assert forall|i: int| 0 <= i < rest.len() implies one_line(#[trigger] rest[i]) by {
            assert(rest[i] == parts[i]);
        }
        lemma_one_line_joined(rest);
        assert(one_line(seq![',']));
        lemma_one_line_add(comma_joined(rest), seq![',']);
        assert(one_line(parts[parts.len() - 1]));
        lemma_one_line_add(comma_joined(rest) + seq![','], parts.last());
    }
}

proof fn lemma_one_line_decimal(n: nat)
    ensures
        one_line(decimal(n)),
    decreases n,
{
    if n < 10 {
        assert(decimal(n)[0] == digit_char(n));
    } else {
        lemma_one_line_decimal(n / 10);
        lemma_one_line_add(decimal(n / 10), seq![digit_char(n % 10)]);
        assert(decimal(n / 10).push(digit_char(n % 10)) =~= decimal(n / 10) + seq![digit_char(n % 10)]);
    }
}

/// Text of the given characters, none a newline, stands on one line.
proof fn lemma_one_line_text(s: Seq<char>)
    requires
        forall|k: int| 0 <= k < s.len() ==> #[trigger] s[k] != '\n',
    ensures
        one_line(s),
{
}

/// The trade ids of a stat: an object from each namespace to its ids.
pub open spec fn ids_object(ids: Seq<(String, Vec<String>)>) -> Seq<char> {
    seq!['{'] + comma_joined(
        ids.map_values(
            |p: (String, Vec<String>)| member(p.0@, string_array(p.1@.map_values(|s: String| s@))),
        ),
    ) + seq!['}']
}

/// The line of a stat: how much better a higher roll is, its one matcher,
/// its reference text, and its trade ids with whether it offers a list.
pub open spec fn stat_line(r: StatRecord) -> Seq<char> {
    seq!['{'] + comma_joined(
        seq![
            member("better"@, "1"@),
            member("matchers"@, "[{"@ + member("string"@, json_quoted(r.reference@)) + "}]"@),
            member("ref"@, json_quoted(r.reference@)),
            member(
                "trade"@,
                seq!['{'] + member("ids"@, ids_object(r.trade_ids@)) + seq![','] + member(
                    "option"@,
                    bool_text(r.option),
                ) + seq!['}'],
            ),
        ],
    ) + seq!['}']
}

/// A text of plain characters (no quote, no backslash, no control
/// character) is written by JSON as it is, between quotes.
proof fn lemma_plain_quoted(s: Seq<char>)
    requires
        forall|i: int|
            0 <= i < s.len() ==> #[trigger] s[i] != '"' && s[i] != '\\' && (s[i] as u32) >= 0x20,
    ensures
        json_escaped(s) == s,
        json_quoted(s) == seq!['"'] + s + seq!['"'],
    decreases s.len(),
{
    if s.len() > 0 {
        lemma_plain_quoted(s.drop_last());
        let c = s.last();
        assert(s[s.len() - 1] == c);
        assert(json_escaped_char(c) == seq![c]);
        assert(s =~= s.drop_last() + seq![c]);
    } else {
        assert(json_escaped(s) =~= s);
    }
}

proof fn lemma_comma_joined_four(a: Seq<char>, b: Seq<char>, c: Seq<char>, d: Seq<char>)
    ensures
        comma_joined(seq![a, b, c, d]) == a + seq![','] + b + seq![','] + c + seq![','] + d,
{
    assert(seq![a, b, c, d].drop_last() =~= seq![a, b, c]);
    assert(seq![a, b, c].drop_last() =~= seq![a, b]);
    assert(seq![a, b].drop_last() =~= seq![a]);
    assert(comma_joined(seq![a]) == a);
    assert(comma_joined(seq![a, b]) == a + seq![','] + b);
    assert(comma_joined(seq![a, b, c]) == a + seq![','] + b + seq![','] + c);
}

/// The members of a stat's line, in order.
spec fn stat_parts(r: StatRecord) -> Seq<Seq<char>> {
    seq![
        member("better"@, "1"@),
        member("matchers"@, "[{"@ + member("string"@, json_quoted(r.reference@)) + "}]"@),
        member("ref"@, json_quoted(r.reference@)),
        member(
            "trade"@,
            seq!['{'] + member("ids"@, ids_object(r.trade_ids@)) + seq![','] + member(
                "option"@,
                bool_text(r.option),
            ) + seq!['}'],
        ),
    ]
}

proof fn lemma_stat_line_joined(r: StatRecord)
    ensures
        stat_line(r) == seq!['{'] + stat_parts(r)[0] + seq![','] + stat_parts(r)[1] + seq![',']
            + stat_parts(r)[2] + seq![','] + stat_parts(r)[3] + seq!['}'],
{
    let p = stat_parts(r);
    assert(p =~= seq![p[0], p[1], p[2], p[3]]);
    lemma_comma_joined_four(p[0], p[1], p[2], p[3]);
    assert(stat_line(r) == seq!['{'] + comma_joined(p) + seq!['}']);
}

proof fn lemma_stat_keys()
    ensures
        json_quoted("better"@) == "\"better\""@,
        json_quoted("matchers"@) == "\"matchers\""@,
        json_quoted("string"@) == "\"string\""@,
        json_quoted("ref"@) == "\"ref\""@,
        json_quoted("trade"@) == "\"trade\""@,
        json_quoted("ids"@) == "\"ids\""@,
        json_quoted("option"@) == "\"option\""@,
{
    reveal_strlit("better");
    reveal_strlit("matchers");
    reveal_strlit("string");
    reveal_strlit("ref");
    reveal_strlit("trade");
    reveal_strlit("ids");
    reveal_strlit("option");
    reveal_strlit("\"better\"");
    reveal_strlit("\"better\"");
    reveal_strlit("\"matchers\"");
    reveal_strlit("\"string\"");
    reveal_strlit("\"ref\"");
    reveal_strlit("\"trade\"");
    reveal_strlit("\"ids\"");
    reveal_strlit("\"option\"");
    lemma_plain_quoted("better"@);
    lemma_plain_quoted("matchers"@);
    lemma_plain_quoted("string"@);
    lemma_plain_quoted("ref"@);
    lemma_plain_quoted("trade"@);
    lemma_plain_quoted("ids"@);
    lemma_plain_quoted("option"@);
    assert(json_quoted("better"@) =~= "\"better\""@);
    assert(json_quoted("matchers"@) =~= "\"matchers\""@);
    assert(json_quoted("string"@) =~= "\"string\""@);
    assert(json_quoted("ref"@) =~= "\"ref\""@);
    assert(json_quoted("trade"@) =~= "\"trade\""@);
    assert(json_quoted("ids"@) =~= "\"ids\""@);
    assert(json_quoted("option"@) =~= "\"option\""@);
}

/// The line of a stat opens with a better-is-higher of 1 and its
/// reference as its one matcher's string, names the reference again under
/// `ref`, then its trade ids; and it ends with whether it offers a fixed
/// list of options: `"option":true}}` when it does, `"option":false}}`
/// when it does not.
#[verifier::rlimit(40)]
pub proof fn a_stat_line_carries_its_fields(r: StatRecord)
    ensures
        starts_with_seq(
            stat_line(r),
            "{\"better\":1,\"matchers\":[{\"string\":"@ + json_quoted(r.reference@) + "}],\"ref\":"@
                + json_quoted(r.reference@) + ",\"trade\":{\"ids\":"@ + ids_object(r.trade_ids@) + ","@,
        ),
        r.option ==> ends_with_seq(stat_line(r), "\"option\":true}}"@),
        !r.option ==> ends_with_seq(stat_line(r), "\"option\":false}}"@),
{
    lemma_stat_line_joined(r);
    lemma_stat_keys();
    reveal_strlit("1");
    reveal_strlit("[{");
    reveal_strlit("}]");
    reveal_strlit(",");
    reveal_strlit("true");
    reveal_strlit("false");
    reveal_strlit("{\"better\":1,\"matchers\":[{\"string\":");
    reveal_strlit("}],\"ref\":");
    reveal_strlit(",\"trade\":{\"ids\":");
    reveal_strlit("\"option\":true}}");
    reveal_strlit("\"option\":false}}");
    reveal_strlit("\"matchers\"");
    reveal_strlit("\"string\"");
    reveal_strlit("\"ref\"");
    reveal_strlit("\"trade\"");
    reveal_strlit("\"ids\"");
    reveal_strlit("\"option\":");
    reveal_strlit("\"better\"");
    reveal_strlit("}}");
    reveal_strlit("\"option\"");
    let p = stat_parts(r);
    let q = json_quoted(r.reference@);
    let ids = ids_object(r.trade_ids@);
    let flag = bool_text(r.option);
    let p1 = "{\"better\":1,\"matchers\":[{\"string\":"@;
    let p2 = "}],\"ref\":"@;
    let p3 = ",\"trade\":{\"ids\":"@;
    let tail = "\"option\":"@ + flag + "}}"@;
    assert(p1 =~= seq!['{'] + p[0] + seq![','] + "\"matchers\""@ + seq![':'] + "[{"@ + "\"string\""@
        + seq![':']);
    assert(p[1] =~= "\"matchers\""@ + seq![':'] + "[{"@ + "\"string\""@ + seq![':'] + q + "}]"@);
    assert(p[2] =~= "\"ref\""@ + seq![':'] + q);
    assert(p2 =~= "}]"@ + seq![','] + "\"ref\""@ + seq![':']);
    assert(p3 =~= seq![','] + "\"trade\""@ + seq![':'] + seq!['{'] + "\"ids\""@ + seq![':']);
    assert(p[3] =~= "\"trade\""@ + seq![':'] + seq!['{'] + "\"ids\""@ + seq![':'] + ids + seq![',']
        + "\"option\""@ + seq![':'] + flag + seq!['}']);
    let front = p1 + q + p2 + q + p3 + ids + ","@;
    let line = stat_line(r);
    let s1 = seq!['{'] + p[0] + seq![','] + p[1];
    assert(s1 =~= p1 + q + "}]"@);
    let s2 = s1 + seq![','] + p[2];
    assert(s2 =~= p1 + q + p2 + q);
    assert("\"option\":"@ =~= "\"option\""@ + seq![':']);
    let m = seq![','] + p[3] + seq!['}'];
    assert(m =~= p3 + ids + ","@ + tail);
    assert(s2 + seq![','] + p[3] + seq!['}'] =~= s2 + m);
    assert(s2 + m =~= front + tail);
    assert(line =~= front + tail);
    assert(line.take(front.len() as int) =~= front);
    if r.option {
        assert(tail =~= "\"option\":true}}"@);
        assert(line.skip(line.len() - 15) =~= "\"option\":true}}"@);
    } else {
        assert(tail =~= "\"option\":false}}"@);
        assert(line.skip(line.len() - 16) =~= "\"option\":false}}"@);
    }
}

/// Parts joined with commas open with the first part.
proof fn lemma_comma_joined_opens(parts: Seq<Seq<char>>)
    requires
        parts.len() > 0,
    ensures
        starts_with_seq(comma_joined(parts), parts[0]),
    decreases parts.len(),
{
    if parts.len() > 1 {
        let rest = parts.drop_last();
        lemma_comma_joined_opens(rest);
        assert(rest[0] == parts[0]);
        let j = comma_joined(rest);
        let all = j + seq![','] + parts.last();
        assert(all.take(parts[0].len() as int) =~= j.take(parts[0].len() as int));
    } else {
        assert(comma_joined(parts).take(parts[0].len() as int) =~= parts[0]);
    }
}

/// The line of an item opens with a top-level `category` member, holding
/// the record's category, exactly when the record has one; the members
/// stand in key order, so without a category the line opens with another
/// key.
pub proof fn an_item_line_opens_with_its_category(r: ItemRecord)
    ensures
        r.category matches Some(c) ==> starts_with_seq(item_line(r), "{\"category\":"@ + json_quoted(c@)),
        r.category is None ==> !starts_with_seq(item_line(r), "{\"category\""@),
{
    reveal_strlit("category");
    reveal_strlit("craftable");
    reveal_strlit("map");
    reveal_strlit("name");
    reveal_strlit("{\"category\":");
    reveal_strlit("{\"category\"");
    lemma_plain_quoted("category"@);
    lemma_plain_quoted("craftable"@);
    lemma_plain_quoted("map"@);
    lemma_plain_quoted("name"@);
    let members = item_members(r);
    assert(members.len() > 0);
    lemma_comma_joined_opens(members);
    let first = members[0];
    let line = item_line(r);
    assert(line.take(first.len() + 1int) =~= seq!['{'] + first);
    match r.category {
        Some(c) => {
            let v = json_quoted(c@);
            assert(optional_member("category"@, r.category) == seq![member("category"@, v)]);
            assert(first == member("category"@, v));
            let want = "{\"category\":"@ + v;
            assert(want =~= seq!['{'] + first);
            assert(line.take(want.len() as int) =~= want);
        },
        None => {
            assert(optional_member("category"@, r.category) =~= Seq::<Seq<char>>::empty());
            assert(first[0] == '"');
            if r.craftable {
                assert(first == member("craftable"@, craft_value(r.category)));
                assert(first[2] == 'r');
                assert(line[3] == 'r');
            } else if r.map_tier is Some {
                assert(first[1] == 'm');
                assert(line[2] == 'm');
            } else {
                assert(first == member("name"@, json_quoted(r.name@)));
                assert(first[1] == 'n');
                assert(line[2] == 'n');
            }
            assert("{\"category\""@[2] == 'c' && "{\"category\""@[3] == 'a');
        },
    }
}

/// Joining two nonempty runs of parts joins their joinings with a comma.
proof fn lemma_comma_joined_split(x: Seq<Seq<char>>, y: Seq<Seq<char>>)
    requires
        x.len() > 0,
        y.len() > 0,
    ensures
        comma_joined(x + y) == comma_joined(x) + seq![','] + comma_joined(y),
    decreases y.len(),
{
    let xy = x + y;
    assert(xy.drop_last() =~= x + y.drop_last());
    assert(xy.last() == y.last());
    if y.len() == 1 {
        assert(y.drop_last() =~= Seq::<Seq<char>>::empty());
        assert(x + y.drop_last() =~= x);
        assert(comma_joined(y) == y[0]);
    } else {
        lemma_comma_joined_split(x, y.drop_last());
        assert(comma_joined(xy) =~= comma_joined(x) + seq![','] + comma_joined(y));
    }
}

/// Parts joined with commas open with the joining of their first parts.
proof fn lemma_comma_joined_opens_with(w: Seq<Seq<char>>, after: Seq<Seq<char>>)
    requires
        w.len() > 0,
    ensures
        starts_with_seq(comma_joined(w + after), comma_joined(w)),
{
    let cw = comma_joined(w);
    if after.len() > 0 {
        lemma_comma_joined_split(w, after);
        let all = cw + seq![','] + comma_joined(after);
        assert(all.take(cw.len() as int) =~= cw);
    } else {
        assert(w + after =~= w);
        assert(cw.take(cw.len() as int) =~= cw);
    }
}

/// The joining of consecutive parts occurs in the joining of them all.
proof fn lemma_comma_joined_window(parts: Seq<Seq<char>>, i: int, k: int) -> (at: int)
    requires
        0 <= i,
        1 <= k,
        i + k <= parts.len(),
    ensures
        matches_at(comma_joined(parts), comma_joined(parts.subrange(i, i + k)), at),
{
    let w = parts.subrange(i, i + k);
    let rest = parts.skip(i);
    let cw = comma_joined(w);
    assert(w + parts.skip(i + k) =~= rest);
    lemma_comma_joined_opens_with(w, parts.skip(i + k));
    let cr = comma_joined(rest);
    assert(cr.subrange(0, cw.len() as int) == cw);
    if i > 0 {
        let before = parts.take(i);
        lemma_comma_joined_split(before, rest);
        assert(before + rest =~= parts);
        let cb = comma_joined(before);
        let whole = cb + seq![','] + cr;
        let at: int = cb.len() + 1int;
        assert(whole.subrange(at, at + cw.len() as int) =~= cr.subrange(0, cw.len() as int));
        at
    } else {
        assert(rest =~= parts);
        0
    }
}

proof fn lemma_comma_joined_three(a: Seq<char>, b: Seq<char>, c: Seq<char>)
    ensures
        comma_joined(seq![a, b, c]) == a + seq![','] + b + seq![','] + c,
{
    assert(seq![a, b, c].drop_last() =~= seq![a, b]);
    assert(seq![a, b].drop_last() =~= seq![a]);
    assert(comma_joined(seq![a]) == a);
    assert(comma_joined(seq![a, b]) == a + seq![','] + b);
}

/// The line of an item names it, its namespace and its reference name
/// (the name again), side by side and in that order.
pub proof fn an_item_line_names_the_item(r: ItemRecord)
    ensures
        contains_seq(
            item_line(r),
            "\"name\":"@ + json_quoted(r.name@) + ",\"namespace\":"@ + json_quoted(r.namespace@)
                + ",\"refName\":"@ + json_quoted(r.name@),
        ),
{
    reveal_strlit("name");
    reveal_strlit("namespace");
    reveal_strlit("refName");
    reveal_strlit("\"name\":");
    reveal_strlit(",\"namespace\":");
    reveal_strlit(",\"refName\":");
    lemma_plain_quoted("name"@);
    lemma_plain_quoted("namespace"@);
    lemma_plain_quoted("refName"@);
    let members = item_members(r);
    let n = member("name"@, json_quoted(r.name@));
    let ns = member("namespace"@, json_quoted(r.namespace@));
    let rf = member("refName"@, json_quoted(r.name@));
    let head = optional_member("category"@, r.category) + (if r.craftable {
        seq![member("craftable"@, craft_value(r.category))]
    } else {
        Seq::empty()
    }) + (match r.map_tier {
        Some(t) => seq![member("map"@, seq!['{'] + member("tier"@, decimal(t as nat)) + seq!['}'])],
        None => Seq::empty(),
    });
    let i = head.len() as int;
    assert(members[i] == n);
    assert(members[i + 1] == ns);
    assert(members[i + 2] == rf);
    assert(members.subrange(i, i + 3) =~= seq![n, ns, rf]);
    let at = lemma_comma_joined_window(members, i, 3);
    let w = seq![n, ns, rf];
    lemma_comma_joined_three(n, ns, rf);
    let cw = comma_joined(w);
    let want = "\"name\":"@ + json_quoted(r.name@) + ",\"namespace\":"@ + json_quoted(r.namespace@)
        + ",\"refName\":"@ + json_quoted(r.name@);
    assert(want =~= cw);
    let joined = comma_joined(members);
    let line = item_line(r);
    assert(line =~= seq!['{'] + joined + seq!['}']);
    assert(line.subrange(at + 1, at + 1 + cw.len()) =~= joined.subrange(at, at + cw.len()));
    lemma_contains_at(line, want, at + 1);
}

/// Each member of an item's line occurs in it.
proof fn lemma_item_member_in_line(r: ItemRecord, i: int)
    requires
        0 <= i < item_members(r).len(),
    ensures
        contains_seq(item_line(r), item_members(r)[i]),
{
    let members = item_members(r);
    let at = lemma_comma_joined_window(members, i, 1);
    assert(members.subrange(i, i + 1) =~= seq![members[i]]);
    let m = members[i];
    assert(comma_joined(seq![m]) == m);
    let joined = comma_joined(members);
    let line = item_line(r);
    assert(line =~= seq!['{'] + joined + seq!['}']);
    assert(line.subrange(at + 1, at + 1 + m.len()) =~= joined.subrange(at, at + m.len()));
    lemma_contains_at(line, m, at + 1);
}

/// The members of an item's line up to its map tier.
spec fn item_head(r: ItemRecord) -> Seq<Seq<char>> {
    optional_member("category"@, r.category) + (if r.craftable {
        seq![member("craftable"@, craft_value(r.category))]
    } else {
        Seq::empty()
    }) + (match r.map_tier {
        Some(t) => seq![member("map"@, seq!['{'] + member("tier"@, decimal(t as nat)) + seq!['}'])],
        None => Seq::empty(),
    })
}

/// The line of a craftable item says so, with the item's category, or an
/// empty object when it has none.
pub proof fn a_craftable_item_line_says_so(r: ItemRecord)
    ensures
        r.craftable && r.category is None ==> contains_seq(item_line(r), "\"craftable\":{}"@),
        r.category matches Some(c) ==> (r.craftable ==> contains_seq(
            item_line(r),
            "\"craftable\":{\"category\":"@ + json_quoted(c@) + "}"@,
        )),
{
    if r.craftable {
        reveal_strlit("craftable");
        reveal_strlit("category");
        reveal_strlit("{}");
        reveal_strlit("}");
        reveal_strlit("\"craftable\":{}");
        reveal_strlit("\"craftable\":{\"category\":");
        lemma_plain_quoted("craftable"@);
        lemma_plain_quoted("category"@);
        let i = optional_member("category"@, r.category).len() as int;
        let m = member("craftable"@, craft_value(r.category));
        assert(item_members(r)[i] == m);
        lemma_item_member_in_line(r, i);
        match r.category {
            Some(c) => {
                assert(m =~= "\"craftable\":{\"category\":"@ + json_quoted(c@) + "}"@);
            },
            None => {
                assert(m =~= "\"craftable\":{}"@);
            },
        }
    }
}

/// The line of a map base carries its tier.
pub proof fn a_map_item_line_carries_its_tier(r: ItemRecord)
    ensures
        r.map_tier matches Some(t) ==> contains_seq(
            item_line(r),
            "\"map\":{\"tier\":"@ + decimal(t as nat) + "}"@,
        ),
{
    if let Some(t) = r.map_tier {
        reveal_strlit("map");
        reveal_strlit("tier");
        reveal_strlit("}");
        reveal_strlit("\"map\":{\"tier\":");
        lemma_plain_quoted("map"@);
        lemma_plain_quoted("tier"@);
        let head = item_head(r);
        let i = head.len() - 1;
        let m = member("map"@, seq!['{'] + member("tier"@, decimal(t as nat)) + seq!['}']);
        assert(head[i] == m);
        assert(item_members(r)[i] == head[i]);
        lemma_item_member_in_line(r, i);
        assert(m =~= "\"map\":{\"tier\":"@ + decimal(t as nat) + "}"@);
    }
}

/// The line of an item carries its trade discriminator and its trade tag
/// when it has them.
pub proof fn an_item_line_carries_its_trade_names(r: ItemRecord)
    ensures
        r.trade_discriminator matches Some(d) ==> contains_seq(item_line(r), "\"tradeDisc\":"@ + json_quoted(d@)),
        r.trade_tag matches Some(g) ==> contains_seq(item_line(r), "\"tradeTag\":"@ + json_quoted(g@)),
{
    reveal_strlit("tradeDisc");
    reveal_strlit("tradeTag");
    reveal_strlit("\"tradeDisc\":");
    reveal_strlit("\"tradeTag\":");
    lemma_plain_quoted("tradeDisc"@);
    lemma_plain_quoted("tradeTag"@);
    let head = item_head(r);
    let disc = optional_member("tradeDisc"@, r.trade_discriminator);
    let tag = optional_member("tradeTag"@, r.trade_tag);
    let names = seq![
        member("name"@, json_quoted(r.name@)),
        member("namespace"@, json_quoted(r.namespace@)),
        member("refName"@, json_quoted(r.name@)),
    ];
    assert(item_members(r) =~= head + names + disc + tag);
    if let Some(d) = r.trade_discriminator {
        let i = (head.len() + 3) as int;
        assert(item_members(r)[i] == disc[0]);
        lemma_item_member_in_line(r, i);
        assert(disc[0] =~= "\"tradeDisc\":"@ + json_quoted(d@));
    }
    if let Some(g) = r.trade_tag {
        let i = (head.len() + 3 + disc.len()) as int;
        assert(item_members(r)[i] == tag[0]);
        lemma_item_member_in_line(r, i);
        assert(tag[0] =~= "\"tradeTag\":"@ + json_quoted(g@));
    }
}

/// One member when `o` holds a value, none otherwise.
pub open spec fn optional_member(key: Seq<char>, o: Option<String>) -> Seq<Seq<char>> {
    match o {
        Some(v) => seq![member(key, json_quoted(v@))],
        None => Seq::empty(),
    }
}

/// The members of an item's line, in key order: its category, whether it
/// can be crafted (with its category when it has one), its map tier, its
/// name twice, its namespace, and its trade discriminator and tag.
pub open spec fn item_members(r: ItemRecord) -> Seq<Seq<char>> {
    optional_member("category"@, r.category) + (if r.craftable {
        seq![member("craftable"@, craft_value(r.category))]
    } else {
        Seq::empty()
    }) + (match r.map_tier {
        Some(t) => seq![member("map"@, seq!['{'] + member("tier"@, decimal(t as nat)) + seq!['}'])],
        None => Seq::empty(),
    }) + seq![
        member("name"@, json_quoted(r.name@)),
        member("namespace"@, json_quoted(r.namespace@)),
        member("refName"@, json_quoted(r.name@)),
    ] + optional_member("tradeDisc"@, r.trade_discriminator) + optional_member(
        "tradeTag"@,
        r.trade_tag,
    )
}

pub open spec fn item_line(r: ItemRecord) -> Seq<char> {
    seq!['{'] + comma_joined(item_members(r)) + seq!['}']
}

/// The texts of a list after a push: the old texts and the new one.
pub proof fn lemma_views_push(v: Seq<String>, x: String)
    ensures
        v.push(x).map_values(|s: String| s@) == v.map_values(|s: String| s@).push(x@),
{
    assert(v.push(x).map_values(|s: String| s@) =~= v.map_values(|s: String| s@).push(x@));
}

/// The parts with a comma between each two.
fn join_commas(parts: &Vec<String>) -> (r: String)
    ensures
        r@ == comma_joined(parts@.map_values(|s: String| s@)),
        (forall|i: int| 0 <= i < parts@.len() ==> one_line(#[trigger] parts@[i]@)) ==> one_line(r@),
{
    let ghost all = parts@.map_values(|s: String| s@);
    let mut out = String::new();
    let mut i: usize = 0;
    while i < parts.len()
        invariant
            i <= parts@.len(),
            all == parts@.map_values(|s: String| s@),
            out@ == comma_joined(all.take(i as int)),
        decreases parts@.len() - i,
    {
        proof {
            assert(all.take(i + 1).drop_last() =~= all.take(i as int));
        }
        if i > 0 {
            push_str(&mut out, ",");
        }
        push_str(&mut out, parts[i].as_str());
        proof {
            reveal_strlit(",");
            if i == 0 {
                assert(out@ =~= all.take(1)[0]);
            } else {
                assert(out@ =~= comma_joined(all.take(i as int)) + seq![','] + all.take(i + 1).last());
            }
        }
        i = i + 1;
    }
    assert(all.take(i as int) =~= all);
    proof {
        if forall|i: int| 0 <= i < parts@.len() ==> one_line(#[trigger] parts@[i]@) {
            assert forall|k: int| 0 <= k < all.len() implies one_line(#[trigger] all[k]) by {
                assert(all[k] == parts@[k]@);
            }
            lemma_one_line_joined(all);
        }
    }
    out
}

/// A member of an object, its value already written.
fn member_text(key: &str, value: &str) -> (r: String)
    ensures
        r@ == member(key@, value@),
        one_line(value@) ==> one_line(r@),
{
    let mut r = json_string(key);
    let ghost q = r@;
    push_str(&mut r, ":");
    push_str(&mut r, value);
    proof {
        reveal_strlit(":");
        if one_line(value@) {
            lemma_one_line_add(q, seq![':']);
            lemma_one_line_add(q + seq![':'], value@);
            assert(r@ =~= q + seq![':'] + value@);
        }
    }
    r
}

/// `{`, the text, `}`: on one line when the text is.
proof fn lemma_one_line_braced(open: char, s: Seq<char>, close: char)
    requires
        one_line(s),
        open != '\n',
        close != '\n',
    ensures
        one_line(seq![open] + s + seq![close]),
{
    lemma_one_line_add(seq![open], s);
    lemma_one_line_add(seq![open] + s, seq![close]);
}

fn string_array_text(items: &Vec<String>) -> (r: String)
    ensures
        r@ == string_array(items@.map_values(|s: String| s@)),
        one_line(r@),
{
    let mut quoted: Vec<String> = Vec::new();
    let mut i: usize = 0;
    while i < items.len()
        invariant
            i <= items@.len(),
            quoted@.map_values(|s: String| s@) == items@.map_values(|s: String| s@).map_values(
                |s: Seq<char>| json_quoted(s),
            ).take(i as int),
            forall|k: int| 0 <= k < quoted@.len() ==> one_line(#[trigger] quoted@[k]@),
        decreases items@.len() - i,
    {
        let ghost before = quoted@;
        let q = json_string(items[i].as_str());
        quoted.push(q);
        proof {
            lemma_views_push(before, q);
            let target = items@.map_values(|s: String| s@).map_values(|s: Seq<char>| json_quoted(s));
            assert(target.take(i + 1) =~= target.take(i as int).push(target[i as int]));
            assert(target[i as int] == json_quoted(items@[i as int]@));
        }
        i = i + 1;
    }
    assert(items@.map_values(|s: String| s@).map_values(|s: Seq<char>| json_quoted(s)).take(
        i as int,
    ) =~= items@.map_values(|s: String| s@).map_values(|s: Seq<char>| json_quoted(s)));
    let joined = join_commas(&quoted);
    let mut r = owned("[");
    push_str(&mut r, joined.as_str());
    push_str(&mut r, "]");
    proof {
        reveal_strlit("[");
        reveal_strlit("]");
        assert(r@ =~= string_array(items@.map_values(|s: String| s@)));
        lemma_one_line_braced('[', joined@, ']');
        assert(r@ =~= seq!['['] + joined@ + seq![']']);
    }
    r
}

fn ids_text(ids: &Vec<(String, Vec<String>)>) -> (r: String)
    ensures
        r@ == ids_object(ids@),
        one_line(r@),
{
    let ghost want = ids@.map_values(
        |p: (String, Vec<String>)| member(p.0@, string_array(p.1@.map_values(|s: String| s@))),
    );
    let mut members: Vec<String> = Vec::new();
    let mut i: usize = 0;
    while i < ids.len()
        invariant
            i <= ids@.len(),
            want == ids@.map_values(
                |p: (String, Vec<String>)| member(p.0@, string_array(p.1@.map_values(|s: String| s@))),
            ),
            members@.map_values(|s: String| s@) == want.take(i as int),
            forall|k: int| 0 <= k < members@.len() ==> one_line(#[trigger] members@[k]@),
        decreases ids@.len() - i,
    {
        let arr = string_array_text(&ids[i].1);
        let m = member_text(ids[i].0.as_str(), arr.as_str());
        let ghost before = members@;
        members.push(m);
        proof {
            lemma_views_push(before, m);
            assert(want.take(i + 1) =~= want.take(i as int).push(want[i as int]));
            assert(want[i as int] == member(
                ids@[i as int].0@,
                string_array(ids@[i as int].1@.map_values(|s: String| s@)),
            ));
        }
        i = i + 1;
    }
    assert(want.take(i as int) =~= want);
    let joined = join_commas(&members);
    let mut r = owned("{");
    push_str(&mut r, joined.as_str());
    push_str(&mut r, "}");
    proof {
        reveal_strlit("{");
        reveal_strlit("}");
        assert(r@ =~= ids_object(ids@));
        lemma_one_line_braced('{', joined@, '}');
        assert(r@ =~= seq!['{'] + joined@ + seq!['}']);
    }
    r
}

/// The record of a stat as one line of JSON.
pub fn stat_to_ndjson(record: &StatRecord) -> (r: String)
    ensures
        r@ == stat_line(*record),
        one_line(r@),
{
    let reference = json_string(record.reference.as_str());
    let matcher = member_text("string", reference.as_str());
    let mut matchers = owned("[{");
    push_str(&mut matchers, matcher.as_str());
    push_str(&mut matchers, "}]");
    let ids = ids_text(&record.trade_ids);
    let m_ids = member_text("ids", ids.as_str());
    let option = if record.option {
        "true"
    } else {
        "false"
    };
    let m_option = member_text("option", option);
    let mut trade = owned("{");
    push_str(&mut trade, m_ids.as_str());
    push_str(&mut trade, ",");
    push_str(&mut trade, m_option.as_str());
    push_str(&mut trade, "}");
    let p1 = member_text("better", "1");
    let p2 = member_text("matchers", matchers.as_str());
    let p3 = member_text("ref", reference.as_str());
    let p4 = member_text("trade", trade.as_str());
    proof {
        reveal_strlit("[{");
        reveal_strlit("}]");
        reveal_strlit("{");
        reveal_strlit("}");
        reveal_strlit(",");
        reveal_strlit("true");
        reveal_strlit("false");
        reveal_strlit("1");
        assert("1"@ =~= seq!['1']);
        lemma_one_line_text(seq!['1']);
        assert(matchers@ =~= seq!['[', '{'] + matcher@ + seq!['}', ']']);
        lemma_one_line_text(seq!['[', '{']);
        lemma_one_line_text(seq!['}', ']']);
        lemma_one_line_add(seq!['[', '{'], matcher@);
        lemma_one_line_add(seq!['[', '{'] + matcher@, seq!['}', ']']);
        if record.option {
            assert(option@ =~= seq!['t', 'r', 'u', 'e']);
            lemma_one_line_text(seq!['t', 'r', 'u', 'e']);
        } else {
            assert(option@ =~= seq!['f', 'a', 'l', 's', 'e']);
            lemma_one_line_text(seq!['f', 'a', 'l', 's', 'e']);
        }
        assert(trade@ =~= seq!['{'] + (m_ids@ + seq![','] + m_option@) + seq!['}']);
        lemma_one_line_add(m_ids@, seq![',']);
        lemma_one_line_add(m_ids@ + seq![','], m_option@);
        lemma_one_line_braced('{', m_ids@ + seq![','] + m_option@, '}');
    }
    let mut parts: Vec<String> = Vec::new();
    parts.push(p1);
    parts.push(p2);
    parts.push(p3);
    parts.push(p4);
    let ghost pv = parts@;
    let joined = join_commas(&parts);
    let mut r = owned("{");
    push_str(&mut r, joined.as_str());
    push_str(&mut r, "}");
    proof {
        assert(matchers@ =~= "[{"@ + member("string"@, json_quoted(record.reference@)) + "}]"@);
        assert(trade@ =~= seq!['{'] + member("ids"@, ids_object(record.trade_ids@)) + seq![',']
            + member("option"@, bool_text(record.option)) + seq!['}']);
        assert(pv.len() == 4);
        assert(parts@.map_values(|s: String| s@) =~= seq![
            member("better"@, "1"@),
            member("matchers"@, "[{"@ + member("string"@, json_quoted(record.reference@)) + "}]"@),
            member("ref"@, json_quoted(record.reference@)),
            member(
                "trade"@,
                seq!['{'] + member("ids"@, ids_object(record.trade_ids@)) + seq![','] + member(
                    "option"@,
                    bool_text(record.option),
                ) + seq!['}'],
            ),
        ]);
        assert(r@ =~= stat_line(*record));
        assert forall|i: int| 0 <= i < parts@.len() implies one_line(#[trigger] parts@[i]@) by {
            assert(i == 0 || i == 1 || i == 2 || i == 3);
        }
        lemma_one_line_braced('{', joined@, '}');
        assert(r@ =~= seq!['{'] + joined@ + seq!['}']);
    }
    r
}

/// Every text of `v` stands on one line.
pub open spec fn each_one_line(v: Seq<String>) -> bool {
    forall|i: int| 0 <= i < v.len() ==> one_line(#[trigger] v[i]@)
}

proof fn lemma_each_one_line_push(v: Seq<String>, x: String)
    requires
        each_one_line(v),
        one_line(x@),
    ensures
        each_one_line(v.push(x)),
{
    assert forall|i: int| 0 <= i < v.push(x).len() implies one_line(#[trigger] v.push(x)[i]@) by {
        if i < v.len() {
            assert(v.push(x)[i] == v[i]);
        }
    }
}

/// Adds the member `key` with the string `value`, when there is one.
fn push_optional(parts: &mut Vec<String>, key: &str, value: &Option<String>)
    ensures
        final(parts)@.map_values(|s: String| s@) == old(parts)@.map_values(|s: String| s@)
            + optional_member(key@, *value),
        each_one_line(old(parts)@) ==> each_one_line(final(parts)@),
{
    let ghost before = parts@.map_values(|s: String| s@);
    let ghost old_parts = parts@;
    match value {
        Some(v) => {
            let quoted = json_string(v.as_str());
            let m = member_text(key, quoted.as_str());
            parts.push(m);
            proof {
                if each_one_line(old_parts) {
                    lemma_each_one_line_push(old_parts, m);
                }
            }
            assert(parts@.map_values(|s: String| s@) =~= before + optional_member(key@, *value));
        },
        None => {
            assert(parts@.map_values(|s: String| s@) =~= before + optional_member(key@, *value));
        },
    }
}

/// What the craftable member holds: the item's category, when it has one.
pub open spec fn craft_value(category: Option<String>) -> Seq<char> {
    match category {
        Some(c) => seq!['{'] + member("category"@, json_quoted(c@)) + seq!['}'],
        None => "{}"@,
    }
}

/// The record of an item as one line of JSON.
pub fn item_to_ndjson(record: &ItemRecord) -> (r: String)
    ensures
        r@ == item_line(*record),
        one_line(r@),
{
    let mut parts: Vec<String> = Vec::new();
    assert(parts@.map_values(|s: String| s@) =~= Seq::<Seq<char>>::empty());
    assert(each_one_line(parts@));
    push_optional(&mut parts, "category", &record.category);
    let ghost after_category = parts@.map_values(|s: String| s@);
    proof {
        reveal_strlit("category");
        assert(after_category =~= optional_member("category"@, record.category));
    }
    if record.craftable {
        let value = match &record.category {
            Some(c) => {
                let q = json_string(c.as_str());
                let inner = member_text("category", q.as_str());
                let mut v = owned("{");
                push_str(&mut v, inner.as_str());
                push_str(&mut v, "}");
                proof {
                    reveal_strlit("{");
                    reveal_strlit("}");
                    assert(v@ =~= craft_value(record.category));
                    assert(v@ =~= seq!['{'] + inner@ + seq!['}']);
                    lemma_one_line_braced('{', inner@, '}');
                }
                v
            },
            None => {
                let v = owned("{}");
                proof {
                    reveal_strlit("{}");
                    assert(v@ =~= seq!['{', '}']);
                    lemma_one_line_text(seq!['{', '}']);
                }
                assert(v@ == craft_value(record.category));
                v
            },
        };
        let m = member_text("craftable", value.as_str());
        let ghost before = parts@;
        parts.push(m);
        proof {
            lemma_views_push(before, m);
            lemma_each_one_line_push(before, m);
        }
    }
    let ghost after_craft = parts@.map_values(|s: String| s@);
    proof {
        if record.craftable {
            assert(after_craft =~= after_category + seq![member("craftable"@, craft_value(record.category))]);
        } else {
            assert(after_craft =~= after_category + Seq::<Seq<char>>::empty());
        }
    }
    match record.map_tier {
        Some(t) => {
            let mut v = owned("{");
            let digits = decimal_chars(t as u64);
            let mut tier = String::new();
            push_all(&mut tier, digits.as_slice());
            proof {
                assert(tier@ =~= decimal(t as nat));
                lemma_one_line_decimal(t as nat);
            }
            let inner = member_text("tier", tier.as_str());
            push_str(&mut v, inner.as_str());
            push_str(&mut v, "}");
            proof {
                reveal_strlit("{");
                reveal_strlit("}");
                assert(v@ =~= seq!['{'] + member("tier"@, decimal(t as nat)) + seq!['}']);
                assert(v@ =~= seq!['{'] + inner@ + seq!['}']);
                lemma_one_line_braced('{', inner@, '}');
            }
            let m = member_text("map", v.as_str());
            let ghost before = parts@;
            parts.push(m);
            proof {
                lemma_views_push(before, m);
                lemma_each_one_line_push(before, m);
            }
        },
        None => {},
    }
    let ghost after_map = parts@.map_values(|s: String| s@);
    proof {
        match record.map_tier {
            Some(t) => {
                assert(after_map =~= after_craft + seq![
                    member("map"@, seq!['{'] + member("tier"@, decimal(t as nat)) + seq!['}']),
                ]);
            },
            None => {
                assert(after_map =~= after_craft + Seq::<Seq<char>>::empty());
            },
        }
    }
    let name = json_string(record.name.as_str());
    let m1 = member_text("name", name.as_str());
    let ghost b1 = parts@;
    parts.push(m1);
    let namespace = json_string(record.namespace.as_str());
    let m2 = member_text("namespace", namespace.as_str());
    let ghost b2 = parts@;
    parts.push(m2);
    let m3 = member_text("refName", name.as_str());
    let ghost b3 = parts@;
    parts.push(m3);
    let ghost after_names = parts@.map_values(|s: String| s@);
    proof {
        lemma_views_push(b1, m1);
        lemma_views_push(b2, m2);
        lemma_views_push(b3, m3);
        lemma_each_one_line_push(b1, m1);
        lemma_each_one_line_push(b2, m2);
        lemma_each_one_line_push(b3, m3);
        assert(after_names =~= after_map + seq![
            member("name"@, json_quoted(record.name@)),
            member("namespace"@, json_quoted(record.namespace@)),
            member("refName"@, json_quoted(record.name@)),
        ]);
    }
    push_optional(&mut parts, "tradeDisc", &record.trade_discriminator);
    push_optional(&mut parts, "tradeTag", &record.trade_tag);
    let ghost pv = parts@.map_values(|s: String| s@);
    let joined = join_commas(&parts);
    let mut r = owned("{");
    push_str(&mut r, joined.as_str());
    push_str(&mut r, "}");
    proof {
        reveal_strlit("{");
        reveal_strlit("}");
        lemma_one_line_braced('{', joined@, '}');
        assert(r@ =~= seq!['{'] + joined@ + seq!['}']);
        reveal_strlit("{");
        reveal_strlit("}");
        let craft: Seq<Seq<char>> = if record.craftable {
            seq![member("craftable"@, craft_value(record.category))]
        } else {
            Seq::empty()
        };
        let map: Seq<Seq<char>> = match record.map_tier {
            Some(t) => seq![member("map"@, seq!['{'] + member("tier"@, decimal(t as nat)) + seq!['}'])],
            None => Seq::empty(),
        };
        assert(item_members(*record) =~= optional_member("category"@, record.category) + craft + map
            + seq![
            member("name"@, json_quoted(record.name@)),
            member("namespace"@, json_quoted(record.namespace@)),
            member("refName"@, json_quoted(record.name@)),
        ] + optional_member("tradeDisc"@, record.trade_discriminator) + optional_member(
            "tradeTag"@,
            record.trade_tag,
        ));
        assert(pv =~= item_members(*record));
        assert(r@ =~= item_line(*record));
    }
    r
}

} // verus!
