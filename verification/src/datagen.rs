//! Turning the trade site's tables into the app's data files: one record
//! per stat, merging every namespace it appears in; one record per item
//! base, with the table it is filed in, its category, whether it can be
//! crafted, its map tier and its trade tag.
//!
//! The tables come in decoded: what the site answered, as plain values.
use vstd::prelude::*;

use crate::keyed::{
    keyed_sorted, keys_of, lemma_map_of_at, lemma_map_of_dom, lemma_map_of_insert,
    lemma_map_of_update, locate, map_of,
};
use crate::order::{lex_lt, strictly_sorted, strings_view};
use crate::text::{
    all_digits, chars_of, is_ascii_digit, is_blank, is_blank_chars, owned, parse_u32,
    parse_u32_seq, ends_with_seq, matches_at, rfind, rfind_seq, rsplit_once, rsplit_once_seq, same, slice_of, strip_suffix,
    strip_suffix_seq,
};

verus! {

// ---------------------------------------------------------------------------
// What the site answered
// ---------------------------------------------------------------------------

/// What goes wrong building a table.
#[derive(Debug, Clone, PartialEq, Eq)]
pub enum DatagenError {
    /// The site's answer for `table` could not be read; `message` says why.
    Decode { table: &'static str, message: String },
    /// The site's answer for `table` held no usable record.
    Empty { table: &'static str },
}

/// What a [`DatagenError`] says.
pub open spec fn datagen_error_text(e: DatagenError) -> Seq<char> {
    match e {
        DatagenError::Decode { table, .. } => "reading the "@ + table@ + " table"@,
        DatagenError::Empty { table } => "the "@ + table@ + " table held no usable records"@,
    }
}

impl DatagenError {
    /// The error as a sentence.
    pub fn message(&self) -> (r: String)
        ensures
            r@ == datagen_error_text(*self),
    {
        match self {
            DatagenError::Decode { table, .. } => {
                let mut r = crate::text::owned("reading the ");
                crate::text::push_str(&mut r, table);
                crate::text::push_str(&mut r, " table");
                r
            },
            DatagenError::Empty { table } => {
                let mut r = crate::text::owned("the ");
                crate::text::push_str(&mut r, table);
                crate::text::push_str(&mut r, " table held no usable records");
                r
            },
        }
    }
}

/// A stat as the site lists it: its id, its text, and how many fixed
/// options it offers, if it offers a list.
#[derive(Debug, Clone)]
pub struct StatEntry {
    pub id: String,
    pub text: String,
    pub options: Option<usize>,
}

/// A namespace of stats: `explicit`, `implicit`, `pseudo` and the like.
#[derive(Debug, Clone)]
pub struct StatGroup {
    pub id: String,
    pub entries: Vec<StatEntry>,
}

/// An item base as the site lists it.
#[derive(Debug, Clone)]
pub struct ItemEntry {
    pub base_type: Option<String>,
    pub name: Option<String>,
    pub disc: Option<String>,
    pub unique: Option<bool>,
}

/// A group of item bases: `accessory`, `weapon`, `gem` and the like.
#[derive(Debug, Clone)]
pub struct ItemGroup {
    pub id: String,
    pub entries: Vec<ItemEntry>,
}

/// An entry of the static table: a trade tag and the text it stands for.
#[derive(Debug, Clone)]
pub struct StaticEntry {
    pub id: Option<String>,
    pub text: Option<String>,
}

#[derive(Debug, Clone)]
pub struct StaticGroup {
    pub entries: Vec<StaticEntry>,
}

// ---------------------------------------------------------------------------
// Small decisions about an item
// ---------------------------------------------------------------------------

/// The category of an item, as the data files name it.
#[derive(Debug, Clone, Copy, PartialEq, Eq, Structural)]
pub enum ItemCategory {
    Flask,
    Jewel,
    MapItem,
    Currency,
    DivinationCard,
    SanctumRelic,
    Wombgift,
    Ring,
    Amulet,
    Belt,
}

pub open spec fn category_name(c: ItemCategory) -> Seq<char> {
    match c {
        ItemCategory::Flask => "Flask"@,
        ItemCategory::Jewel => "Jewel"@,
        ItemCategory::MapItem => "Map"@,
        ItemCategory::Currency => "Currency"@,
        ItemCategory::DivinationCard => "DivinationCard"@,
        ItemCategory::SanctumRelic => "SanctumRelic"@,
        ItemCategory::Wombgift => "Wombgift"@,
        ItemCategory::Ring => "Ring"@,
        ItemCategory::Amulet => "Amulet"@,
        ItemCategory::Belt => "Belt"@,
    }
}

impl ItemCategory {
    pub fn as_str(self) -> (r: &'static str)
        ensures
            r@ == category_name(self),
    {
        match self {
            ItemCategory::Flask => "Flask",
            ItemCategory::Jewel => "Jewel",
            ItemCategory::MapItem => "Map",
            ItemCategory::Currency => "Currency",
            ItemCategory::DivinationCard => "DivinationCard",
            ItemCategory::SanctumRelic => "SanctumRelic",
            ItemCategory::Wombgift => "Wombgift",
            ItemCategory::Ring => "Ring",
            ItemCategory::Amulet => "Amulet",
            ItemCategory::Belt => "Belt",
        }
    }
}

fn named_as(s: &[char], word: &str) -> (r: bool)
    ensures
        r == (s@ == word@),
{
    same(s, chars_of(word).as_slice())
}

/// The map tier a base name carries at its end, as `Waystone (Tier 16)`.
pub open spec fn tier_of(name: Seq<char>) -> Option<u32> {
    match strip_suffix_seq(name, ")"@) {
        None => None,
        Some(head) => match rsplit_once_seq(head, " (Tier "@) {
            None => None,
            Some((_, digits)) => if digits.len() == 0 || !all_digits(digits) {
                None
            } else {
                parse_u32_seq(digits)
            },
        },
    }
}

pub fn map_tier_in(name: &str) -> (r: Option<u32>)
    ensures
        r == tier_of(name@),
{
    let cs = chars_of(name);
    let head = match strip_suffix(cs.as_slice(), chars_of(")").as_slice()) {
        Some(h) => h,
        None => return None,
    };
    let digits = match rsplit_once(head.as_slice(), chars_of(" (Tier ").as_slice()) {
        Some((_, d)) => d,
        None => return None,
    };
    if digits.len() == 0 {
        return None;
    }
    assert(tier_of(name@) == if all_digits(digits@) {
        parse_u32_seq(digits@)
    } else {
        None
    });
    let mut i: usize = 0;
    while i < digits.len()
        invariant
            i <= digits.len(),
            tier_of(name@) == if all_digits(digits@) {
                parse_u32_seq(digits@)
            } else {
                None
            },
            forall|k: int| 0 <= k < i ==> crate::text::is_digit(#[trigger] digits@[k]),
        decreases digits.len() - i,
    {
        if !is_ascii_digit(digits[i]) {
            assert(!crate::text::is_digit(digits@[i as int]));
            assert(!all_digits(digits@));
            return None;
        }
        i = i + 1;
    }
    parse_u32(digits.as_slice())
}

/// The groups whose bases can be crafted on.
pub open spec fn craftable_group(group: Seq<char>) -> bool {
    ||| group == "accessory"@
    ||| group == "armour"@
    ||| group == "weapon"@
    ||| group == "flask"@
    ||| group == "jewel"@
    ||| group == "map"@
    ||| group == "tincture"@
    ||| group == "idol"@
    ||| group == "heistequipment"@
}

pub fn is_craftable(group_id: &str) -> (r: bool)
    ensures
        r == craftable_group(group_id@),
{
    let g = chars_of(group_id);
    let g = g.as_slice();
    named_as(g, "accessory") || named_as(g, "armour") || named_as(g, "weapon") || named_as(g, "flask") || named_as(g, "jewel")
        || named_as(g, "map") || named_as(g, "tincture") || named_as(g, "idol") || named_as(g, "heistequipment")
}

/// The data table a base is filed in: uniques in their own, gems, cards
/// and beasts in theirs, everything else with the items.
pub open spec fn namespace_of(group: Seq<char>, unique: bool) -> Seq<char> {
    if unique {
        "UNIQUE"@
    } else if group == "gem"@ {
        "GEM"@
    } else if group == "card"@ {
        "DIVINATION_CARD"@
    } else if group == "monster"@ {
        "CAPTURED_BEAST"@
    } else {
        "ITEM"@
    }
}

pub fn namespace_for(group_id: &str, is_unique: bool) -> (r: &'static str)
    ensures
        r@ == namespace_of(group_id@, is_unique),
{
    if is_unique {
        return "UNIQUE";
    }
    let g = chars_of(group_id);
    if named_as(g.as_slice(), "gem") {
        "GEM"
    } else if named_as(g.as_slice(), "card") {
        "DIVINATION_CARD"
    } else if named_as(g.as_slice(), "monster") {
        "CAPTURED_BEAST"
    } else {
        "ITEM"
    }
}

/// The category a whole group is, where it is one.
pub open spec fn group_category(group: Seq<char>) -> Option<ItemCategory> {
    if group == "flask"@ {
        Some(ItemCategory::Flask)
    } else if group == "jewel"@ {
        Some(ItemCategory::Jewel)
    } else if group == "map"@ {
        Some(ItemCategory::MapItem)
    } else if group == "currency"@ {
        Some(ItemCategory::Currency)
    } else if group == "card"@ {
        Some(ItemCategory::DivinationCard)
    } else if group == "sanctum"@ {
        Some(ItemCategory::SanctumRelic)
    } else if group == "wombgift"@ {
        Some(ItemCategory::Wombgift)
    } else {
        None
    }
}

/// A group's bases are filed as divination cards exactly when the group
/// as a whole is the divination cards' category.
pub proof fn card_groups_are_divination_cards(group: Seq<char>)
    ensures
        namespace_of(group, false) == "DIVINATION_CARD"@ <==> group_category(group) == Some(
            ItemCategory::DivinationCard,
        ),
{
    lemma_group_words();
}

/// The words groups and tables are named by, spelled out.
proof fn lemma_group_words()
    ensures
        "DIVINATION_CARD"@ == seq!['D', 'I', 'V', 'I', 'N', 'A', 'T', 'I', 'O', 'N', '_', 'C', 'A', 'R', 'D'],
        "GEM"@ == seq!['G', 'E', 'M'],
        "CAPTURED_BEAST"@ == seq!['C', 'A', 'P', 'T', 'U', 'R', 'E', 'D', '_', 'B', 'E', 'A', 'S', 'T'],
        "ITEM"@ == seq!['I', 'T', 'E', 'M'],
        "gem"@ == seq!['g', 'e', 'm'],
        "card"@ == seq!['c', 'a', 'r', 'd'],
        "monster"@ == seq!['m', 'o', 'n', 's', 't', 'e', 'r'],
        "flask"@ == seq!['f', 'l', 'a', 's', 'k'],
        "jewel"@ == seq!['j', 'e', 'w', 'e', 'l'],
        "map"@ == seq!['m', 'a', 'p'],
        "currency"@ == seq!['c', 'u', 'r', 'r', 'e', 'n', 'c', 'y'],
        "sanctum"@ == seq!['s', 'a', 'n', 'c', 't', 'u', 'm'],
        "wombgift"@ == seq!['w', 'o', 'm', 'b', 'g', 'i', 'f', 't'],
{
    reveal_strlit("DIVINATION_CARD");
    assert("DIVINATION_CARD"@ =~= seq!['D', 'I', 'V', 'I', 'N', 'A', 'T', 'I', 'O', 'N', '_', 'C', 'A', 'R', 'D']);
    reveal_strlit("GEM");
    assert("GEM"@ =~= seq!['G', 'E', 'M']);
    reveal_strlit("CAPTURED_BEAST");
    assert("CAPTURED_BEAST"@ =~= seq!['C', 'A', 'P', 'T', 'U', 'R', 'E', 'D', '_', 'B', 'E', 'A', 'S', 'T']);
    reveal_strlit("ITEM");
    assert("ITEM"@ =~= seq!['I', 'T', 'E', 'M']);
    reveal_strlit("gem");
    assert("gem"@ =~= seq!['g', 'e', 'm']);
    reveal_strlit("card");
    assert("card"@ =~= seq!['c', 'a', 'r', 'd']);
    reveal_strlit("monster");
    assert("monster"@ =~= seq!['m', 'o', 'n', 's', 't', 'e', 'r']);
    reveal_strlit("flask");
    assert("flask"@ =~= seq!['f', 'l', 'a', 's', 'k']);
    reveal_strlit("jewel");
    assert("jewel"@ =~= seq!['j', 'e', 'w', 'e', 'l']);
    reveal_strlit("map");
    assert("map"@ =~= seq!['m', 'a', 'p']);
    reveal_strlit("currency");
    assert("currency"@ =~= seq!['c', 'u', 'r', 'r', 'e', 'n', 'c', 'y']);
    reveal_strlit("sanctum");
    assert("sanctum"@ =~= seq!['s', 'a', 'n', 'c', 't', 'u', 'm']);
    reveal_strlit("wombgift");
    assert("wombgift"@ =~= seq!['w', 'o', 'm', 'b', 'g', 'i', 'f', 't']);
}

/// Each category that a whole group has belongs to exactly one group; the
/// categories told from a name (ring, amulet, belt) belong to none.
pub proof fn each_whole_group_category_has_one_group(c: ItemCategory, g1: Seq<char>, g2: Seq<char>)
    ensures
        !(c is Ring || c is Amulet || c is Belt) ==> exists|g: Seq<char>| #[trigger] group_category(g)
            == Some(c),
        (c is Ring || c is Amulet || c is Belt) ==> group_category(g1) != Some(c),
        group_category(g1) == Some(c) && group_category(g2) == Some(c) ==> g1 == g2,
{
    lemma_group_words();
    match c {
        ItemCategory::Flask => assert(group_category("flask"@) == Some(c)),
        ItemCategory::Jewel => assert(group_category("jewel"@) == Some(c)),
        ItemCategory::MapItem => assert(group_category("map"@) == Some(c)),
        ItemCategory::Currency => assert(group_category("currency"@) == Some(c)),
        ItemCategory::DivinationCard => assert(group_category("card"@) == Some(c)),
        ItemCategory::SanctumRelic => assert(group_category("sanctum"@) == Some(c)),
        ItemCategory::Wombgift => assert(group_category("wombgift"@) == Some(c)),
        _ => {},
    }
}

pub fn category_for_group(group_id: &str) -> (r: Option<ItemCategory>)
    ensures
        r == group_category(group_id@),
{
    let g = chars_of(group_id);
    let g = g.as_slice();
    if named_as(g, "flask") {
        Some(ItemCategory::Flask)
    } else if named_as(g, "jewel") {
        Some(ItemCategory::Jewel)
    } else if named_as(g, "map") {
        Some(ItemCategory::MapItem)
    } else if named_as(g, "currency") {
        Some(ItemCategory::Currency)
    } else if named_as(g, "card") {
        Some(ItemCategory::DivinationCard)
    } else if named_as(g, "sanctum") {
        Some(ItemCategory::SanctumRelic)
    } else if named_as(g, "wombgift") {
        Some(ItemCategory::Wombgift)
    } else {
        None
    }
}

/// The last word of a name: what follows its last space.
pub open spec fn last_word(name: Seq<char>) -> Seq<char> {
    match rfind_seq(name, " "@) {
        Some(i) => name.skip(i + 1),
        None => name,
    }
}

/// The category an accessory's name gives away by its last word; other
/// groups are not guessed from.
pub open spec fn name_category(group: Seq<char>, name: Seq<char>) -> Option<ItemCategory> {
    if group != "accessory"@ {
        None
    } else {
        let tail = last_word(name);
        if tail == "Ring"@ {
            Some(ItemCategory::Ring)
        } else if tail == "Amulet"@ {
            Some(ItemCategory::Amulet)
        } else if tail == "Belt"@ {
            Some(ItemCategory::Belt)
        } else {
            None
        }
    }
}

/// The last word of `p` followed by a space and a word without spaces is
/// that word.
proof fn lemma_last_word_after_space(p: Seq<char>, w: Seq<char>)
    requires
        w.len() > 0,
        !w.contains(' '),
    ensures
        last_word(p + " "@ + w) == w,
{
    reveal_strlit(" ");
    let s = p + " "@ + w;
    let sp = " "@;
    crate::text::lemma_rfind_from(s, sp, s.len() - sp.len());
    let i = p.len() as int;
    assert(s.subrange(i, i + 1) =~= sp);
    assert(matches_at(s, sp, i));
    match rfind_seq(s, sp) {
        Some(j) => {
            if j > i {
                assert(s.subrange(j, j + 1)[0] == s[j]);
                assert(s[j] == ' ');
                assert(w[j - i - 1] == s[j]);
            }
            assert(j == i);
            assert(s.skip(i + 1) =~= w);
        },
        None => {},
    }
}

/// A base of the accessory group whose name ends in the word Ring,
/// Amulet or Belt is a ring, an amulet or a belt; a category told from a
/// name is only ever one of those three, only for accessories, and the
/// name ends with it.
pub proof fn an_accessory_is_told_by_its_last_word(group: Seq<char>, name: Seq<char>, p: Seq<char>)
    ensures
        name_category("accessory"@, p + " Ring"@) == Some(ItemCategory::Ring),
        name_category("accessory"@, p + " Amulet"@) == Some(ItemCategory::Amulet),
        name_category("accessory"@, p + " Belt"@) == Some(ItemCategory::Belt),
        name_category(group, name) matches Some(c) ==> group == "accessory"@ && (c is Ring || c is Amulet
            || c is Belt) && ends_with_seq(name, category_name(c)),
{
    reveal_strlit(" Ring");
    reveal_strlit(" Amulet");
    reveal_strlit(" Belt");
    reveal_strlit("Ring");
    reveal_strlit("Amulet");
    reveal_strlit("Belt");
    reveal_strlit(" ");
    assert(p + " Ring"@ =~= p + " "@ + "Ring"@);
    assert(p + " Amulet"@ =~= p + " "@ + "Amulet"@);
    assert(p + " Belt"@ =~= p + " "@ + "Belt"@);
    lemma_last_word_after_space(p, "Ring"@);
    lemma_last_word_after_space(p, "Amulet"@);
    lemma_last_word_after_space(p, "Belt"@);
    assert("Belt"@[0] != "Ring"@[0]);
    assert("Belt"@ != "Ring"@);
    assert("Belt"@ != "Amulet"@);
    assert("Amulet"@ != "Ring"@);
    if let Some(c) = name_category(group, name) {
        let w = last_word(name);
        match rfind_seq(name, " "@) {
            Some(i) => {
                crate::text::lemma_rfind_from(name, " "@, name.len() - 1);
                assert(name.skip(name.len() - w.len()) =~= w);
            },
            None => {
                assert(name.skip(0) =~= name);
            },
        }
    }
}

pub fn category_from_name(group_id: &str, name: &str) -> (r: Option<ItemCategory>)
    ensures
        r == name_category(group_id@, name@),
{
    let g = chars_of(group_id);
    if !named_as(g.as_slice(), "accessory") {
        return None;
    }
    let cs = chars_of(name);
    let space = chars_of(" ");
    let tail = match rfind(cs.as_slice(), space.as_slice()) {
        Some(i) => {
            proof {
                crate::text::lemma_rfind_from(cs@, space@, cs@.len() - space@.len());
            }
            let slen = space.len();
            assert(i + slen <= cs.len());
            proof {
                reveal_strlit(" ");
            }
            assert(slen == 1);
            slice_of(cs.as_slice(), i + slen, cs.len())
        },
        None => cs,
    };
    if named_as(tail.as_slice(), "Ring") {
        Some(ItemCategory::Ring)
    } else if named_as(tail.as_slice(), "Amulet") {
        Some(ItemCategory::Amulet)
    } else if named_as(tail.as_slice(), "Belt") {
        Some(ItemCategory::Belt)
    } else {
        None
    }
}

// ---------------------------------------------------------------------------
// Trade tags
// ---------------------------------------------------------------------------

/// The tag a static entry names, with the text it stands for: both given,
/// and neither blank.
pub open spec fn tag_entry(e: StaticEntry) -> Option<(Seq<char>, Seq<char>)> {
    match e.text {
        Some(t) => match e.id {
            Some(i) => if is_blank(t@) || is_blank(i@) {
                None
            } else {
                Some((t@, i@))
            },
            None => None,
        },
        None => None,
    }
}

/// The tags after one more entry: the first tag named for a text is the
/// one kept.
pub open spec fn tag_step(m: Map<Seq<char>, Seq<char>>, e: StaticEntry) -> Map<Seq<char>, Seq<char>> {
    match tag_entry(e) {
        Some((t, i)) => if m.dom().contains(t) {
            m
        } else {
            m.insert(t, i)
        },
        None => m,
    }
}

pub open spec fn tags_in(m: Map<Seq<char>, Seq<char>>, entries: Seq<StaticEntry>) -> Map<
    Seq<char>,
    Seq<char>,
>
    decreases entries.len(),
{
    if entries.len() == 0 {
        m
    } else {
        tag_step(tags_in(m, entries.drop_last()), entries.last())
    }
}

/// The trade tag of each text the static table names, the first one
/// named winning.
pub open spec fn tags_of(groups: Seq<StaticGroup>) -> Map<Seq<char>, Seq<char>>
    decreases groups.len(),
{
    if groups.len() == 0 {
        Map::empty()
    } else {
        tags_in(tags_of(groups.drop_last()), groups.last().entries@)
    }
}

/// Sorted tag entries as the map of texts to tags they make.
pub open spec fn tag_map(v: Seq<(String, String)>) -> Map<Seq<char>, Seq<char>> {
    map_of(v).map_values(|s: String| s@)
}

fn add_tag(tags: &mut Vec<(String, String)>, e: &StaticEntry)
    requires
        keyed_sorted(old(tags)@),
    ensures
        keyed_sorted(final(tags)@),
        tag_map(final(tags)@) == tag_step(tag_map(old(tags)@), *e),
{
    let (text, id) = match (&e.text, &e.id) {
        (Some(t), Some(i)) => (t, i),
        _ => return,
    };
    let tc = chars_of(text.as_str());
    let ic = chars_of(id.as_str());
    if is_blank_chars(tc.as_slice()) || is_blank_chars(ic.as_slice()) {
        return;
    }
    match locate(tags, tc.as_slice()) {
        Ok(i) => {
            proof {
                lemma_map_of_at(tags@, i as int);
            }
        },
        Err(i) => {
            proof {
                lemma_map_of_dom(tags@, tc@);
                if keys_of(tags@).contains(tc@) {
                    let t = choose|t: int| 0 <= t < keys_of(tags@).len() && keys_of(tags@)[t] == tc@;
                    assert(tags@[t].0@ == tc@);
                    crate::order::lemma_lex_irreflexive(tc@);
                }
            }
            let ghost before = tags@;
            let k = owned(text.as_str());
            let x = owned(id.as_str());
            proof {
                lemma_map_of_insert(before, i as int, k, x);
            }
            tags.insert(i, (k, x));
            assert(tag_map(tags@) =~= tag_step(tag_map(before), *e));
        },
    }
}

/// The trade tag of each text the static table names, sorted by text.
pub fn build_trade_tags(groups: &[StaticGroup]) -> (r: Result<Vec<(String, String)>, DatagenError>)
    ensures
        match r {
            Ok(tags) => keyed_sorted(tags@) && tag_map(tags@) == tags_of(groups@) && tags@.len()
                > 0,
            Err(e) => e == DatagenError::Empty { table: "static" } && tags_of(groups@).dom()
                =~= Set::<Seq<char>>::empty(),
        },
{
    let mut tags: Vec<(String, String)> = Vec::new();
    assert(tag_map(tags@) =~= Map::<Seq<char>, Seq<char>>::empty());
    let mut g: usize = 0;
    while g < groups.len()
        invariant
            g <= groups.len(),
            keyed_sorted(tags@),
            tag_map(tags@) == tags_of(groups@.take(g as int)),
        decreases groups.len() - g,
    {
        proof {
            assert(groups@.take(g as int + 1).drop_last() == groups@.take(g as int));
            assert(groups@.take(g as int + 1).last() == groups@[g as int]);
        }
        let entries = &groups[g].entries;
        let ghost start = tag_map(tags@);
        let mut k: usize = 0;
        while k < entries.len()
            invariant
                k <= entries.len(),
                keyed_sorted(tags@),
                tag_map(tags@) == tags_in(start, entries@.take(k as int)),
            decreases entries.len() - k,
        {
            proof {
                assert(entries@.take(k as int + 1).drop_last() == entries@.take(k as int));
                assert(entries@.take(k as int + 1).last() == entries@[k as int]);
            }
            add_tag(&mut tags, &entries[k]);
            k = k + 1;
        }
        assert(entries@.take(entries.len() as int) == entries@);
        g = g + 1;
    }
    assert(groups@.take(groups.len() as int) == groups@);
    if tags.len() == 0 {
        proof {
            assert(tags@ =~= Seq::<(String, String)>::empty());
            assert(tag_map(tags@).dom() =~= Set::<Seq<char>>::empty());
        }
        return Err(DatagenError::Empty { table: "static" });
    }
    Ok(tags)
}

/// The tag named for `text`, if any.
pub fn tag_for(tags: &Vec<(String, String)>, text: &str) -> (r: Option<String>)
    requires
        keyed_sorted(tags@),
    ensures
        match r {
            Some(t) => tag_map(tags@).dom().contains(text@) && tag_map(tags@)[text@] == t@,
            None => !tag_map(tags@).dom().contains(text@),
        },
{
    let tc = chars_of(text);
    match locate(tags, tc.as_slice()) {
        Ok(i) => {
            proof {
                lemma_map_of_at(tags@, i as int);
            }
            Some(owned(tags[i].1.as_str()))
        },
        Err(i) => {
            proof {
                lemma_map_of_dom(tags@, text@);
                if keys_of(tags@).contains(text@) {
                    let t = choose|t: int| 0 <= t < keys_of(tags@).len() && keys_of(tags@)[t] == text@;
                    assert(tags@[t].0@ == text@);
                    crate::order::lemma_lex_irreflexive(text@);
                }
            }
            None
        },
    }
}

// ---------------------------------------------------------------------------
// Stats
// ---------------------------------------------------------------------------

/// A stat of the data file: its text, the trade ids it has in each
/// namespace (sorted by namespace), and whether it offers a fixed list.
#[derive(Debug, Clone, PartialEq, Eq)]
pub struct StatRecord {
    pub reference: String,
    pub trade_ids: Vec<(String, Vec<String>)>,
    pub option: bool,
}

/// What is known of one stat: its trade ids in each namespace, in the
/// order they were met, and whether it offers a fixed list.
pub struct StatModel {
    pub ids: Map<Seq<char>, Seq<Seq<char>>>,
    pub option: bool,
}

/// The trade ids of sorted namespace entries, as a map.
pub open spec fn ids_map(v: Seq<(String, Vec<String>)>) -> Map<Seq<char>, Seq<Seq<char>>> {
    map_of(v).map_values(|x: Vec<String>| strings_view(x@))
}

/// `id` added to the ids of namespace `ns`, unless it is there already.
pub open spec fn with_id(m: Map<Seq<char>, Seq<Seq<char>>>, ns: Seq<char>, id: Seq<char>) -> Map<
    Seq<char>,
    Seq<Seq<char>>,
> {
    let ids = if m.dom().contains(ns) {
        m[ns]
    } else {
        Seq::empty()
    };
    m.insert(
        ns,
        if ids.contains(id) {
            ids
        } else {
            ids.push(id)
        },
    )
}

/// The stats after one more entry of namespace `ns`: an entry with blank
/// text is dropped; otherwise its stat gains the entry's id in `ns`, and
/// is flagged when the entry offers options.
pub open spec fn stat_step(m: Map<Seq<char>, StatModel>, ns: Seq<char>, e: StatEntry) -> Map<
    Seq<char>,
    StatModel,
> {
    let t = e.text@;
    if is_blank(t) {
        m
    } else {
        let r = if m.dom().contains(t) {
            m[t]
        } else {
            StatModel { ids: Map::empty(), option: false }
        };
        let offers = e.options matches Some(n) && n > 0;
        m.insert(t, StatModel { ids: with_id(r.ids, ns, e.id@), option: r.option || offers })
    }
}

pub open spec fn stats_in(m: Map<Seq<char>, StatModel>, ns: Seq<char>, entries: Seq<StatEntry>) -> Map<
    Seq<char>,
    StatModel,
>
    decreases entries.len(),
{
    if entries.len() == 0 {
        m
    } else {
        stat_step(stats_in(m, ns, entries.drop_last()), ns, entries.last())
    }
}

/// Every stat the namespaces list, by its text.
pub open spec fn stats_of(groups: Seq<StatGroup>) -> Map<Seq<char>, StatModel>
    decreases groups.len(),
{
    if groups.len() == 0 {
        Map::empty()
    } else {
        stats_in(stats_of(groups.drop_last()), groups.last().id@, groups.last().entries@)
    }
}

/// Some entry of `entries` has the text `t` and offers a non-empty list
/// of options.
pub open spec fn offered_among(entries: Seq<StatEntry>, t: Seq<char>) -> bool {
    exists|i: int| 0 <= i < entries.len() && (#[trigger] entries[i]).text@ == t && offers_options(entries[i])
}

/// The entry offers a non-empty list of options.
pub open spec fn offers_options(e: StatEntry) -> bool {
    match e.options {
        Some(n) => n > 0,
        None => false,
    }
}

/// Some entry of `entries` has the text `t`.
pub open spec fn listed_among(entries: Seq<StatEntry>, t: Seq<char>) -> bool {
    exists|i: int| 0 <= i < entries.len() && (#[trigger] entries[i]).text@ == t
}

proof fn lemma_stats_in_flag(m: Map<Seq<char>, StatModel>, ns: Seq<char>, entries: Seq<StatEntry>, t: Seq<char>)
    ensures
        stats_in(m, ns, entries).dom().contains(t) <==> (m.dom().contains(t) || (!is_blank(t)
            && listed_among(entries, t))),
        stats_in(m, ns, entries).dom().contains(t) ==> (stats_in(m, ns, entries)[t].option <==> ((
        m.dom().contains(t) && m[t].option) || (!is_blank(t) && offered_among(entries, t)))),
    decreases entries.len(),
{
    if entries.len() > 0 {
        let rest = entries.drop_last();
        let e = entries.last();
        lemma_stats_in_flag(m, ns, rest, t);
        assert forall|i: int| 0 <= i < rest.len() implies #[trigger] rest[i] == entries[i] by {}
        if listed_among(entries, t) && !listed_among(rest, t) {
            let i = choose|i: int| 0 <= i < entries.len() && (#[trigger] entries[i]).text@ == t;
            if i < rest.len() {
                assert(rest[i] == entries[i]);
            }
        }
        if listed_among(rest, t) {
            let i = choose|i: int| 0 <= i < rest.len() && (#[trigger] rest[i]).text@ == t;
            assert(entries[i] == rest[i]);
        }
        if offered_among(entries, t) && !offered_among(rest, t) {
            let i = choose|i: int|
                0 <= i < entries.len() && (#[trigger] entries[i]).text@ == t && offers_options(entries[i]);
            if i < rest.len() {
                assert(rest[i] == entries[i]);
            }
        }
        if offered_among(rest, t) {
            let i = choose|i: int|
                0 <= i < rest.len() && (#[trigger] rest[i]).text@ == t && offers_options(rest[i]);
            assert(entries[i] == rest[i]);
        }
        if e.text@ == t {
            assert(entries[entries.len() - 1] == e);
        }
    }
}

/// A stat offers a fixed list of options exactly when some entry with its
/// text, in any namespace, offers a non-empty one: a later entry without
/// options never clears what an earlier one set. A text is listed exactly
/// when some entry has it and it is not blank.
pub proof fn a_stat_offers_options_when_any_entry_does(groups: Seq<StatGroup>, t: Seq<char>)
    ensures
        stats_of(groups).dom().contains(t) <==> (!is_blank(t) && exists|g: int|
            0 <= g < groups.len() && listed_among((#[trigger] groups[g]).entries@, t)),
        stats_of(groups).dom().contains(t) ==> (stats_of(groups)[t].option <==> exists|g: int|
            0 <= g < groups.len() && offered_among((#[trigger] groups[g]).entries@, t)),
    decreases groups.len(),
{
    if groups.len() > 0 {
        let rest = groups.drop_last();
        let last = groups.last();
        a_stat_offers_options_when_any_entry_does(rest, t);
        lemma_stats_in_flag(stats_of(rest), last.id@, last.entries@, t);
        assert(groups[groups.len() - 1] == last);
        if exists|g: int| 0 <= g < rest.len() && listed_among((#[trigger] rest[g]).entries@, t) {
            let g = choose|g: int| 0 <= g < rest.len() && listed_among((#[trigger] rest[g]).entries@, t);
            assert(groups[g] == rest[g]);
        }
        if exists|g: int| 0 <= g < groups.len() && listed_among((#[trigger] groups[g]).entries@, t) {
            let g = choose|g: int| 0 <= g < groups.len() && listed_among((#[trigger] groups[g]).entries@, t);
            if g < rest.len() {
                assert(groups[g] == rest[g]);
            }
        }
        if exists|g: int| 0 <= g < rest.len() && offered_among((#[trigger] rest[g]).entries@, t) {
            let g = choose|g: int| 0 <= g < rest.len() && offered_among((#[trigger] rest[g]).entries@, t);
            assert(groups[g] == rest[g]);
        }
        if exists|g: int| 0 <= g < groups.len() && offered_among((#[trigger] groups[g]).entries@, t) {
            let g = choose|g: int| 0 <= g < groups.len() && offered_among((#[trigger] groups[g]).entries@, t);
            if g < rest.len() {
                assert(groups[g] == rest[g]);
            }
        }
    }
}

/// The stat of text `t` holds the trade id `id` in namespace `ns`.
pub open spec fn holds_id(m: Map<Seq<char>, StatModel>, t: Seq<char>, ns: Seq<char>, id: Seq<char>) -> bool {
    m.dom().contains(t) && m[t].ids.dom().contains(ns) && m[t].ids[ns].contains(id)
}

/// Some entry of `entries` has the text `t` and the trade id `id`.
pub open spec fn named_among(entries: Seq<StatEntry>, t: Seq<char>, id: Seq<char>) -> bool {
    exists|i: int| 0 <= i < entries.len() && (#[trigger] entries[i]).text@ == t && entries[i].id@ == id
}

/// No stat lists an id twice in one namespace.
pub open spec fn ids_once(m: Map<Seq<char>, StatModel>) -> bool {
    forall|t: Seq<char>, ns: Seq<char>|
        #![trigger m[t].ids[ns]]
        m.dom().contains(t) && m[t].ids.dom().contains(ns) ==> m[t].ids[ns].no_duplicates()
}

proof fn lemma_stat_step_ids(
    m: Map<Seq<char>, StatModel>,
    ns: Seq<char>,
    e: StatEntry,
    t: Seq<char>,
    n: Seq<char>,
    id: Seq<char>,
)
    requires
        ids_once(m),
    ensures
        ids_once(stat_step(m, ns, e)),
        holds_id(stat_step(m, ns, e), t, n, id) <==> (holds_id(m, t, n, id) || (n == ns && !is_blank(t)
            && e.text@ == t && e.id@ == id)),
{
    let m2 = stat_step(m, ns, e);
    let et = e.text@;
    if !is_blank(et) {
        let r = if m.dom().contains(et) {
            m[et]
        } else {
            StatModel { ids: Map::empty(), option: false }
        };
        let old_ids = if r.ids.dom().contains(ns) {
            r.ids[ns]
        } else {
            Seq::empty()
        };
        assert(old_ids.no_duplicates()) by {
            if r.ids.dom().contains(ns) {
                assert(m[et].ids[ns].no_duplicates());
            }
        }
        let new_ids = m2[et].ids[ns];
        assert(new_ids =~= if old_ids.contains(e.id@) {
            old_ids
        } else {
            old_ids.push(e.id@)
        });
        assert forall|a: Seq<char>| new_ids.contains(a) <==> (old_ids.contains(a) || a == e.id@) by {
            if !old_ids.contains(e.id@) {
                if new_ids.contains(a) {
                    let k = choose|k: int| 0 <= k < new_ids.len() && new_ids[k] == a;
                    if k < old_ids.len() {
                        assert(old_ids[k] == a);
                    }
                }
                if old_ids.contains(a) {
                    let k = choose|k: int| 0 <= k < old_ids.len() && old_ids[k] == a;
                    assert(new_ids[k] == a);
                }
                assert(new_ids[old_ids.len() as int] == e.id@);
            }
        }
        assert(new_ids.no_duplicates()) by {
            if !old_ids.contains(e.id@) {
                assert forall|i: int, j: int| 0 <= i < j < new_ids.len() implies new_ids[i] != new_ids[j] by {
                    if j == old_ids.len() {
                        assert(old_ids[i] == new_ids[i]);
                    }
                }
            }
        }
        assert forall|t2: Seq<char>, n2: Seq<char>|
            #![trigger m2[t2].ids[n2]]
            m2.dom().contains(t2) && m2[t2].ids.dom().contains(n2) implies m2[t2].ids[n2].no_duplicates() by {
            if t2 != et {
                assert(m2[t2] == m[t2]);
                assert(m[t2].ids[n2].no_duplicates());
            } else if n2 != ns {
                assert(m2[et].ids[n2] == r.ids[n2]);
                assert(m[et].ids[n2].no_duplicates());
            }
        }
        if t != et {
            assert(m2.dom().contains(t) == m.dom().contains(t));
        } else if n != ns {
            assert(m2[t].ids.dom().contains(n) == r.ids.dom().contains(n));
        } else {
            assert(holds_id(m, t, n, id) <==> old_ids.contains(id));
        }
    }
}

proof fn lemma_stats_in_ids(
    m: Map<Seq<char>, StatModel>,
    ns: Seq<char>,
    entries: Seq<StatEntry>,
    t: Seq<char>,
    n: Seq<char>,
    id: Seq<char>,
)
    requires
        ids_once(m),
    ensures
        ids_once(stats_in(m, ns, entries)),
        holds_id(stats_in(m, ns, entries), t, n, id) <==> (holds_id(m, t, n, id) || (n == ns
            && !is_blank(t) && named_among(entries, t, id))),
    decreases entries.len(),
{
    if entries.len() > 0 {
        let rest = entries.drop_last();
        let e = entries.last();
        lemma_stats_in_ids(m, ns, rest, t, n, id);
        lemma_stat_step_ids(stats_in(m, ns, rest), ns, e, t, n, id);
        if named_among(entries, t, id) && !named_among(rest, t, id) {
            let i = choose|i: int| 0 <= i < entries.len() && (#[trigger] entries[i]).text@ == t && entries[i].id@ == id;
            if i < rest.len() {
                assert(rest[i] == entries[i]);
            }
        }
        if named_among(rest, t, id) {
            let i = choose|i: int| 0 <= i < rest.len() && (#[trigger] rest[i]).text@ == t && rest[i].id@ == id;
            assert(entries[i] == rest[i]);
        }
        if e.text@ == t && e.id@ == id {
            assert(entries[entries.len() - 1] == e);
        }
    }
}

/// A stat holds a trade id in a namespace exactly when some entry of a
/// group of that namespace has the stat's text and that id; and no stat
/// holds an id twice in one namespace.
pub proof fn a_stat_holds_the_ids_its_entries_name(groups: Seq<StatGroup>, t: Seq<char>, ns: Seq<char>, id: Seq<char>)
    ensures
        ids_once(stats_of(groups)),
        holds_id(stats_of(groups), t, ns, id) <==> (!is_blank(t) && exists|g: int|
            0 <= g < groups.len() && (#[trigger] groups[g]).id@ == ns && named_among(groups[g].entries@, t, id)),
    decreases groups.len(),
{
    if groups.len() > 0 {
        let rest = groups.drop_last();
        let last = groups.last();
        a_stat_holds_the_ids_its_entries_name(rest, t, ns, id);
        lemma_stats_in_ids(stats_of(rest), last.id@, last.entries@, t, ns, id);
        assert(groups[groups.len() - 1] == last);
        if exists|g: int| 0 <= g < rest.len() && (#[trigger] rest[g]).id@ == ns && named_among(rest[g].entries@, t, id) {
            let g = choose|g: int| 0 <= g < rest.len() && (#[trigger] rest[g]).id@ == ns && named_among(rest[g].entries@, t, id);
            assert(groups[g] == rest[g]);
        }
        if exists|g: int| 0 <= g < groups.len() && (#[trigger] groups[g]).id@ == ns && named_among(groups[g].entries@, t, id) {
            let g = choose|g: int| 0 <= g < groups.len() && (#[trigger] groups[g]).id@ == ns && named_among(groups[g].entries@, t, id);
            if g < rest.len() {
                assert(groups[g] == rest[g]);
            }
        }
    } else {
        assert(ids_once(stats_of(groups)));
    }
}

/// A stat as it is being built.
struct Merged {
    trade_ids: Vec<(String, Vec<String>)>,
    option: bool,
}

spec fn merged_model(b: Merged) -> StatModel {
    StatModel { ids: ids_map(b.trade_ids@), option: b.option }
}

spec fn merged_map(v: Seq<(String, Merged)>) -> Map<Seq<char>, StatModel> {
    map_of(v).map_values(|b: Merged| merged_model(b))
}

spec fn bodies_sorted(v: Seq<(String, Merged)>) -> bool {
    forall|i: int| 0 <= i < v.len() ==> keyed_sorted(#[trigger] v[i].1.trade_ids@)
}

fn merge_trade_ids_into(trade_ids: &mut Vec<(String, Vec<String>)>, ns: &str, id: &str)
    requires
        keyed_sorted(old(trade_ids)@),
    ensures
        keyed_sorted(final(trade_ids)@),
        ids_map(final(trade_ids)@) == with_id(ids_map(old(trade_ids)@), ns@, id@),
{
    let nc = chars_of(ns);
    let ic = chars_of(id);
    let ghost before = trade_ids@;
    match locate(trade_ids, nc.as_slice()) {
        Ok(i) => {
            proof {
                lemma_map_of_at(before, i as int);
            }
            let (k, mut ids) = trade_ids.remove(i);
            assert(k == before[i as int].0);
            assert(strings_view(ids@) == ids_map(before)[ns@]);
            if !crate::order::holds_string(&ids, ic.as_slice()) {
                ids.push(owned(id));
                assert(strings_view(ids@) =~= ids_map(before)[ns@].push(id@));
            }
            let ghost x = ids;
            trade_ids.insert(i, (k, ids));
            proof {
                assert(trade_ids@ =~= before.update(i as int, (before[i as int].0, x)));
                lemma_map_of_update(before, i as int, x);
                assert(ids_map(trade_ids@) =~= with_id(ids_map(before), ns@, id@));
            }
        },
        Err(i) => {
            proof {
                lemma_map_of_dom(before, ns@);
                if keys_of(before).contains(ns@) {
                    let t = choose|t: int| 0 <= t < keys_of(before).len() && keys_of(before)[t] == ns@;
                    assert(before[t].0@ == ns@);
                    crate::order::lemma_lex_irreflexive(ns@);
                }
            }
            let mut ids: Vec<String> = Vec::new();
            ids.push(owned(id));
            assert(strings_view(ids@) =~= Seq::<Seq<char>>::empty().push(id@));
            let k = owned(ns);
            let ghost x = ids;
            proof {
                lemma_map_of_insert(before, i as int, k, x);
            }
            trade_ids.insert(i, (k, ids));
            assert(ids_map(trade_ids@) =~= with_id(ids_map(before), ns@, id@));
        },
    }
}

fn add_stat(by_text: &mut Vec<(String, Merged)>, ns: &str, e: &StatEntry)
    requires
        keyed_sorted(old(by_text)@),
        bodies_sorted(old(by_text)@),
    ensures
        keyed_sorted(final(by_text)@),
        bodies_sorted(final(by_text)@),
        merged_map(final(by_text)@) == stat_step(merged_map(old(by_text)@), ns@, *e),
{
    let tc = chars_of(e.text.as_str());
    if is_blank_chars(tc.as_slice()) {
        return;
    }
    let offers = match e.options {
        Some(n) => n > 0,
        None => false,
    };
    let ghost before = by_text@;
    match locate(by_text, tc.as_slice()) {
        Ok(i) => {
            proof {
                lemma_map_of_at(before, i as int);
            }
            let (k, mut body) = by_text.remove(i);
            assert(k == before[i as int].0);
            assert(keyed_sorted(body.trade_ids@));
            merge_trade_ids_into(&mut body.trade_ids, ns, e.id.as_str());
            if offers {
                body.option = true;
            }
            let ghost x = body;
            by_text.insert(i, (k, body));
            proof {
                assert(by_text@ =~= before.update(i as int, (before[i as int].0, x)));
                lemma_map_of_update(before, i as int, x);
                assert(merged_map(by_text@) =~= stat_step(merged_map(before), ns@, *e));
                assert forall|j: int| 0 <= j < by_text@.len() implies keyed_sorted(
                    #[trigger] by_text@[j].1.trade_ids@,
                ) by {
                    if j != i {
                        assert(by_text@[j] == before[j]);
                    }
                }
            }
        },
        Err(i) => {
            proof {
                lemma_map_of_dom(before, e.text@);
                if keys_of(before).contains(e.text@) {
                    let t = choose|t: int|
                        0 <= t < keys_of(before).len() && keys_of(before)[t] == e.text@;
                    assert(before[t].0@ == e.text@);
                    crate::order::lemma_lex_irreflexive(e.text@);
                }
            }
            let mut body = Merged { trade_ids: Vec::new(), option: false };
            assert(ids_map(body.trade_ids@) =~= Map::<Seq<char>, Seq<Seq<char>>>::empty());
            merge_trade_ids_into(&mut body.trade_ids, ns, e.id.as_str());
            if offers {
                body.option = true;
            }
            let k = owned(e.text.as_str());
            let ghost x = body;
            proof {
                lemma_map_of_insert(before, i as int, k, x);
            }
            by_text.insert(i, (k, body));
            proof {
                assert(merged_map(by_text@) =~= stat_step(merged_map(before), ns@, *e));
                assert forall|j: int| 0 <= j < by_text@.len() implies keyed_sorted(
                    #[trigger] by_text@[j].1.trade_ids@,
                ) by {
                    if j < i {
                        assert(by_text@[j] == before[j]);
                    } else if j > i {
                        assert(by_text@[j] == before[j - 1]);
                    }
                }
            }
        },
    }
}

pub open spec fn record_model(r: StatRecord) -> StatModel {
    StatModel { ids: ids_map(r.trade_ids@), option: r.option }
}

/// Sorted stat records as the map of texts to stats they make.
pub open spec fn records_map(rs: Seq<StatRecord>) -> Map<Seq<char>, StatModel>
    decreases rs.len(),
{
    if rs.len() == 0 {
        Map::empty()
    } else {
        records_map(rs.drop_last()).insert(rs.last().reference@, record_model(rs.last()))
    }
}

/// The texts of stat records, in order.
pub open spec fn references(rs: Seq<StatRecord>) -> Seq<Seq<char>> {
    rs.map_values(|r: StatRecord| r.reference@)
}

proof fn lemma_records_match(v: Seq<(String, Merged)>, rs: Seq<StatRecord>)
    requires
        v.len() == rs.len(),
        forall|i: int|
            0 <= i < v.len() ==> (#[trigger] rs[i]).reference == v[i].0 && rs[i].trade_ids
                == v[i].1.trade_ids && rs[i].option == v[i].1.option,
    ensures
        records_map(rs) == merged_map(v),
        references(rs) == keys_of(v),
    decreases v.len(),
{
    if v.len() > 0 {
        lemma_records_match(v.drop_last(), rs.drop_last());
        assert(records_map(rs) =~= merged_map(v));
    }
    assert(references(rs) =~= keys_of(v));
}

/// One record per stat the namespaces list, by its text: the ids it has
/// in each namespace, each once, and whether any entry offered options.
/// The records are sorted by text, so two runs write the same file.
pub fn build_stats(groups: &[StatGroup]) -> (r: Result<Vec<StatRecord>, DatagenError>)
    ensures
        match r {
            Ok(rs) => rs@.len() > 0 && strictly_sorted(references(rs@)) && (forall|i: int|
                0 <= i < rs@.len() ==> keyed_sorted(#[trigger] rs@[i].trade_ids@)) && records_map(
                rs@,
            ) == stats_of(groups@),
            Err(e) => e == DatagenError::Empty { table: "stats" } && stats_of(groups@).dom()
                =~= Set::<Seq<char>>::empty(),
        },
{
    let mut by_text: Vec<(String, Merged)> = Vec::new();
    assert(merged_map(by_text@) =~= Map::<Seq<char>, StatModel>::empty());
    let mut g: usize = 0;
    while g < groups.len()
        invariant
            g <= groups.len(),
            keyed_sorted(by_text@),
            bodies_sorted(by_text@),
            merged_map(by_text@) == stats_of(groups@.take(g as int)),
        decreases groups.len() - g,
    {
        proof {
            assert(groups@.take(g as int + 1).drop_last() == groups@.take(g as int));
            assert(groups@.take(g as int + 1).last() == groups@[g as int]);
        }
        let group = &groups[g];
        let ghost start = merged_map(by_text@);
        let mut k: usize = 0;
        while k < group.entries.len()
            invariant
                k <= group.entries.len(),
                keyed_sorted(by_text@),
                bodies_sorted(by_text@),
                merged_map(by_text@) == stats_in(start, group.id@, group.entries@.take(k as int)),
            decreases group.entries.len() - k,
        {
            proof {
                assert(group.entries@.take(k as int + 1).drop_last() == group.entries@.take(
                    k as int,
                ));
                assert(group.entries@.take(k as int + 1).last() == group.entries@[k as int]);
            }
            add_stat(&mut by_text, group.id.as_str(), &group.entries[k]);
            k = k + 1;
        }
        assert(group.entries@.take(group.entries.len() as int) == group.entries@);
        g = g + 1;
    }
    assert(groups@.take(groups.len() as int) == groups@);
    if by_text.len() == 0 {
        proof {
            assert(by_text@ =~= Seq::<(String, Merged)>::empty());
            assert(merged_map(by_text@).dom() =~= Set::<Seq<char>>::empty());
        }
        return Err(DatagenError::Empty { table: "stats" });
    }
    let ghost full = by_text@;
    let mut out: Vec<StatRecord> = Vec::new();
    while by_text.len() > 0
        invariant
            by_text@.len() <= full.len(),
            by_text@ == full.take(by_text@.len() as int),
            out@.len() + by_text@.len() == full.len(),
            forall|i: int|
                0 <= i < out@.len() ==> (#[trigger] out@[i]).reference == full[by_text@.len() + i].0
                    && out@[i].trade_ids == full[by_text@.len() + i].1.trade_ids && out@[i].option
                    == full[by_text@.len() + i].1.option,
        decreases by_text@.len(),
    {
        let ghost n = by_text@.len();
        let (k, body) = by_text.pop().unwrap();
        assert(by_text@ == full.take(n - 1));
        out.insert(0, StatRecord { reference: k, trade_ids: body.trade_ids, option: body.option });
    }
    proof {
        lemma_records_match(full, out@);
        assert forall|i: int| 0 <= i < out@.len() implies keyed_sorted(#[trigger] out@[i].trade_ids@) by {
            assert(keyed_sorted(full[i].1.trade_ids@));
        }
    }
    Ok(out)
}

// ---------------------------------------------------------------------------
// Items
// ---------------------------------------------------------------------------

/// An item base of the data file.
#[derive(Debug, Clone, PartialEq, Eq)]
pub struct ItemRecord {
    pub name: String,
    pub namespace: String,
    pub trade_discriminator: Option<String>,
    pub category: Option<String>,
    pub craftable: bool,
    pub map_tier: Option<u32>,
    pub trade_tag: Option<String>,
}

/// An [`ItemRecord`] as characters.
pub struct ItemView {
    pub name: Seq<char>,
    pub namespace: Seq<char>,
    pub disc: Option<Seq<char>>,
    pub category: Option<Seq<char>>,
    pub craftable: bool,
    pub map_tier: Option<u32>,
    pub trade_tag: Option<Seq<char>>,
}

pub open spec fn opt_chars(o: Option<String>) -> Option<Seq<char>> {
    match o {
        Some(s) => Some(s@),
        None => None,
    }
}

impl View for ItemRecord {
    type V = ItemView;

    open spec fn view(&self) -> ItemView {
        ItemView {
            name: self.name@,
            namespace: self.namespace@,
            disc: opt_chars(self.trade_discriminator),
            category: opt_chars(self.category),
            craftable: self.craftable,
            map_tier: self.map_tier,
            trade_tag: opt_chars(self.trade_tag),
        }
    }
}

/// The order of optional text: none first, then by the text.
pub open spec fn opt_lt(a: Option<Seq<char>>, b: Option<Seq<char>>) -> bool {
    match (a, b) {
        (None, Some(_)) => true,
        (Some(x), Some(y)) => lex_lt(x, y),
        _ => false,
    }
}

pub open spec fn tier_lt(a: Option<u32>, b: Option<u32>) -> bool {
    match (a, b) {
        (None, Some(_)) => true,
        (Some(x), Some(y)) => x < y,
        _ => false,
    }
}

/// The order of item records: field by field in the order they are
/// declared, the first field that differs deciding.
pub open spec fn item_lt(a: ItemView, b: ItemView) -> bool {
    if a.name != b.name {
        lex_lt(a.name, b.name)
    } else if a.namespace != b.namespace {
        lex_lt(a.namespace, b.namespace)
    } else if a.disc != b.disc {
        opt_lt(a.disc, b.disc)
    } else if a.category != b.category {
        opt_lt(a.category, b.category)
    } else if a.craftable != b.craftable {
        !a.craftable && b.craftable
    } else if a.map_tier != b.map_tier {
        tier_lt(a.map_tier, b.map_tier)
    } else {
        opt_lt(a.trade_tag, b.trade_tag)
    }
}

proof fn lemma_opt_order(a: Option<Seq<char>>, b: Option<Seq<char>>, c: Option<Seq<char>>)
    ensures
        !opt_lt(a, a),
        a != b ==> opt_lt(a, b) || opt_lt(b, a),
        opt_lt(a, b) && opt_lt(b, c) ==> opt_lt(a, c),
{
    if let Some(x) = a {
        crate::order::lemma_lex_irreflexive(x);
        if let Some(y) = b {
            crate::order::lemma_lex_total(x, y);
            if let Some(z) = c {
                if lex_lt(x, y) && lex_lt(y, z) {
                    crate::order::lemma_lex_transitive(x, y, z);
                }
            }
        }
    }
}

proof fn lemma_item_order(a: ItemView, b: ItemView, c: ItemView)
    ensures
        !item_lt(a, a),
        a != b ==> item_lt(a, b) || item_lt(b, a),
        item_lt(a, b) && item_lt(b, c) ==> item_lt(a, c),
{
    crate::order::lemma_lex_irreflexive(a.name);
    crate::order::lemma_lex_irreflexive(a.namespace);
    crate::order::lemma_lex_total(a.name, b.name);
    crate::order::lemma_lex_total(a.namespace, b.namespace);
    crate::order::lemma_lex_total(b.name, c.name);
    crate::order::lemma_lex_total(b.namespace, c.namespace);
    crate::order::lemma_lex_total(a.name, c.name);
    crate::order::lemma_lex_total(a.namespace, c.namespace);
    lemma_opt_order(a.disc, b.disc, c.disc);
    lemma_opt_order(a.category, b.category, c.category);
    lemma_opt_order(a.trade_tag, b.trade_tag, c.trade_tag);
    lemma_opt_order(b.disc, a.disc, c.disc);
    lemma_opt_order(b.category, a.category, c.category);
    lemma_opt_order(b.trade_tag, a.trade_tag, c.trade_tag);
    if item_lt(a, b) && item_lt(b, c) {
        if a.name != b.name && b.name != c.name {
            crate::order::lemma_lex_transitive(a.name, b.name, c.name);
        } else if a.name == b.name && b.name == c.name && a.namespace != b.namespace
            && b.namespace != c.namespace {
            crate::order::lemma_lex_transitive(a.namespace, b.namespace, c.namespace);
        }
    }
    if a != b {
        if a.name == b.name && a.namespace == b.namespace && a.disc == b.disc && a.category
            == b.category && a.craftable == b.craftable && a.map_tier == b.map_tier {
            assert(a.trade_tag != b.trade_tag);
        }
    }
}

fn opt_same(a: &Option<String>, b: &Option<String>) -> (r: bool)
    ensures
        r == (opt_chars(*a) == opt_chars(*b)),
{
    match (a, b) {
        (Some(x), Some(y)) => same(chars_of(x.as_str()).as_slice(), chars_of(y.as_str()).as_slice()),
        (None, None) => true,
        _ => false,
    }
}

fn opt_less(a: &Option<String>, b: &Option<String>) -> (r: bool)
    ensures
        r == opt_lt(opt_chars(*a), opt_chars(*b)),
{
    match (a, b) {
        (None, Some(_)) => true,
        (Some(x), Some(y)) => crate::order::lex_less(
            chars_of(x.as_str()).as_slice(),
            chars_of(y.as_str()).as_slice(),
        ),
        _ => false,
    }
}

fn text_same(a: &String, b: &String) -> (r: bool)
    ensures
        r == (a@ == b@),
{
    same(chars_of(a.as_str()).as_slice(), chars_of(b.as_str()).as_slice())
}

fn item_less(a: &ItemRecord, b: &ItemRecord) -> (r: bool)
    ensures
        r == item_lt(a@, b@),
{
    if !text_same(&a.name, &b.name) {
        crate::order::lex_less(chars_of(a.name.as_str()).as_slice(), chars_of(b.name.as_str()).as_slice())
    } else if !text_same(&a.namespace, &b.namespace) {
        crate::order::lex_less(
            chars_of(a.namespace.as_str()).as_slice(),
            chars_of(b.namespace.as_str()).as_slice(),
        )
    } else if !opt_same(&a.trade_discriminator, &b.trade_discriminator) {
        opt_less(&a.trade_discriminator, &b.trade_discriminator)
    } else if !opt_same(&a.category, &b.category) {
        opt_less(&a.category, &b.category)
    } else if a.craftable != b.craftable {
        !a.craftable && b.craftable
    } else if a.map_tier != b.map_tier {
        match (a.map_tier, b.map_tier) {
            (None, Some(_)) => true,
            (Some(x), Some(y)) => x < y,
            _ => false,
        }
    } else {
        opt_less(&a.trade_tag, &b.trade_tag)
    }
}

fn item_same(a: &ItemRecord, b: &ItemRecord) -> (r: bool)
    ensures
        r == (a@ == b@),
{
    text_same(&a.name, &b.name) && text_same(&a.namespace, &b.namespace) && opt_same(
        &a.trade_discriminator,
        &b.trade_discriminator,
    ) && opt_same(&a.category, &b.category) && a.craftable == b.craftable && a.map_tier
        == b.map_tier && opt_same(&a.trade_tag, &b.trade_tag)
}

pub open spec fn item_views(v: Seq<ItemRecord>) -> Seq<ItemView> {
    v.map_values(|r: ItemRecord| r@)
}

/// Every record sorts strictly before the ones after it: sorted, and each
/// once.
pub open spec fn items_sorted(s: Seq<ItemView>) -> bool {
    forall|i: int, j: int| 0 <= i < j < s.len() ==> item_lt(#[trigger] s[i], #[trigger] s[j])
}

fn insert_item(v: &mut Vec<ItemRecord>, item: ItemRecord)
    requires
        items_sorted(item_views(old(v)@)),
    ensures
        items_sorted(item_views(final(v)@)),
        forall|h: ItemView|
            item_views(final(v)@).contains(h) <==> (item_views(old(v)@).contains(h) || h == item@),
{
    let ghost before = item_views(v@);
    let mut p: usize = 0;
    while p < v.len() && item_less(&v[p], &item)
        invariant
            p <= v.len(),
            v@ == old(v)@,
            before == item_views(v@),
            items_sorted(before),
            forall|t: int| 0 <= t < p ==> item_lt(#[trigger] before[t], item@),
        decreases v.len() - p,
    {
        p = p + 1;
    }
    if p < v.len() && item_same(&v[p], &item) {
        assert(before[p as int] == item@);
        return;
    }
    proof {
        if p < v.len() {
            lemma_item_order(before[p as int], item@, item@);
            assert(item_lt(item@, before[p as int]));
            assert forall|t: int| p < t < before.len() implies item_lt(item@, #[trigger] before[t]) by {
                lemma_item_order(item@, before[p as int], before[t]);
            }
        }
    }
    let ghost x = item@;
    v.insert(p, item);
    proof {
        let after = item_views(v@);
        assert(after =~= before.insert(p as int, x));
        assert forall|i: int, j: int| 0 <= i < j < after.len() implies item_lt(
            #[trigger] after[i],
            #[trigger] after[j],
        ) by {
            if i < p && j == p {
            } else if i == p && j > p {
                assert(after[j] == before[j - 1]);
            } else if i < p && j > p {
                assert(after[j] == before[j - 1]);
                lemma_item_order(before[i], x, after[j]);
            } else if j < p {
            } else {
                assert(after[i] == before[i - 1]);
                assert(after[j] == before[j - 1]);
            }
        }
        assert forall|h: ItemView| after.contains(h) <==> (before.contains(h) || h == x) by {
            if after.contains(h) {
                let k = choose|k: int| 0 <= k < after.len() && after[k] == h;
                if k < p {
                    assert(before[k] == h);
                } else if k > p {
                    assert(before[k - 1] == h);
                }
            }
            if before.contains(h) {
                let k = choose|k: int| 0 <= k < before.len() && before[k] == h;
                if k < p {
                    assert(after[k] == h);
                } else {
                    assert(after[k + 1] == h);
                }
            }
            if h == x {
                assert(after[p as int] == h);
            }
        }
    }
}

/// The name a base is filed under: a unique by its own name, anything
/// else by its base type, each falling back on the other.
pub open spec fn chosen_name(e: ItemEntry) -> Option<Seq<char>> {
    let unique = e.unique == Some(true);
    let first = if unique {
        e.name
    } else {
        e.base_type
    };
    let second = if unique {
        e.base_type
    } else {
        e.name
    };
    match first {
        Some(n) => Some(n@),
        None => opt_chars(second),
    }
}

/// The record an entry of group `group` makes, if it names a base.
pub open spec fn item_for(group: Seq<char>, e: ItemEntry, tags: Map<Seq<char>, Seq<char>>) -> Option<
    ItemView,
> {
    let unique = e.unique == Some(true);
    match chosen_name(e) {
        None => None,
        Some(name) => if is_blank(name) {
            None
        } else {
            let category = match group_category(group) {
                Some(c) => Some(c),
                None => name_category(group, name),
            };
            Some(
                ItemView {
                    name,
                    namespace: namespace_of(group, unique),
                    disc: opt_chars(e.disc),
                    category: match category {
                        Some(c) => Some(category_name(c)),
                        None => None,
                    },
                    craftable: craftable_group(group),
                    map_tier: tier_of(name),
                    trade_tag: if tags.dom().contains(name) {
                        Some(tags[name])
                    } else {
                        None
                    },
                },
            )
        },
    }
}

/// A base filed as a divination card is categorized as one.
pub proof fn a_card_base_is_a_divination_card(
    group: Seq<char>,
    e: ItemEntry,
    tags: Map<Seq<char>, Seq<char>>,
)
    ensures
        item_for(group, e, tags) matches Some(x) ==> (x.namespace == "DIVINATION_CARD"@ ==> x.category
            == Some("DivinationCard"@)),
{
    lemma_group_words();
    reveal_strlit("UNIQUE");
    reveal_strlit("DivinationCard");
    assert("UNIQUE"@ =~= seq!['U', 'N', 'I', 'Q', 'U', 'E']);
    card_groups_are_divination_cards(group);
}

/// A record is made for an entry exactly when it names a base that is not
/// blank. A unique is filed in the unique table under its own name when it
/// has one; any other base is filed outside it under its base type when it
/// has one.
pub proof fn an_item_record_names_its_base(group: Seq<char>, e: ItemEntry, tags: Map<Seq<char>, Seq<char>>)
    ensures
        item_for(group, e, tags) is Some <==> (chosen_name(e) matches Some(n) && !is_blank(n)),
        item_for(group, e, tags) matches Some(x) ==> ((x.namespace == "UNIQUE"@ <==> e.unique == Some(
            true,
        )) && (e.unique == Some(true) ==> (e.name matches Some(n) ==> x.name == n@)) && (e.unique
            != Some(true) ==> (e.base_type matches Some(b) ==> x.name == b@)) && !is_blank(x.name)),
{
    lemma_group_words();
    reveal_strlit("UNIQUE");
    assert("UNIQUE"@ =~= seq!['U', 'N', 'I', 'Q', 'U', 'E']);
}

pub open spec fn items_in(group: Seq<char>, entries: Seq<ItemEntry>, tags: Map<Seq<char>, Seq<char>>) -> Seq<
    ItemView,
>
    decreases entries.len(),
{
    if entries.len() == 0 {
        Seq::empty()
    } else {
        items_in(group, entries.drop_last(), tags) + match item_for(group, entries.last(), tags) {
            Some(x) => seq![x],
            None => Seq::empty(),
        }
    }
}

/// Every record the groups make, in the order the site lists them.
pub open spec fn items_of(groups: Seq<ItemGroup>, tags: Map<Seq<char>, Seq<char>>) -> Seq<ItemView>
    decreases groups.len(),
{
    if groups.len() == 0 {
        Seq::empty()
    } else {
        items_of(groups.drop_last(), tags) + items_in(
            groups.last().id@,
            groups.last().entries@,
            tags,
        )
    }
}

fn copy_opt(o: &Option<String>) -> (r: Option<String>)
    ensures
        opt_chars(r) == opt_chars(*o),
{
    match o {
        Some(s) => Some(owned(s.as_str())),
        None => None,
    }
}

fn make_item(group: &str, e: &ItemEntry, tags: &Vec<(String, String)>) -> (r: Option<ItemRecord>)
    requires
        keyed_sorted(tags@),
    ensures
        match r {
            Some(x) => item_for(group@, *e, tag_map(tags@)) == Some(x@),
            None => item_for(group@, *e, tag_map(tags@)) is None,
        },
{
    let unique = match e.unique {
        Some(u) => u,
        None => false,
    };
    let (first, second) = if unique {
        (&e.name, &e.base_type)
    } else {
        (&e.base_type, &e.name)
    };
    let name = match first {
        Some(n) => owned(n.as_str()),
        None => match second {
            Some(n) => owned(n.as_str()),
            None => return None,
        },
    };
    assert(chosen_name(*e) == Some(name@));
    let nc = chars_of(name.as_str());
    if is_blank_chars(nc.as_slice()) {
        return None;
    }
    let category = match category_for_group(group) {
        Some(c) => Some(c),
        None => category_from_name(group, name.as_str()),
    };
    let category_text = match category {
        Some(c) => Some(owned(c.as_str())),
        None => None,
    };
    let map_tier = map_tier_in(name.as_str());
    let trade_tag = tag_for(tags, name.as_str());
    let record = ItemRecord {
        name,
        namespace: owned(namespace_for(group, unique)),
        trade_discriminator: copy_opt(&e.disc),
        category: category_text,
        craftable: is_craftable(group),
        map_tier,
        trade_tag,
    };
    Some(record)
}

/// One record per base the groups list, sorted and each once, so two runs
/// write the same file. An entry naming no base is dropped.
pub fn build_items(groups: &[ItemGroup], trade_tags: &Vec<(String, String)>) -> (r: Result<
    Vec<ItemRecord>,
    DatagenError,
>)
    requires
        keyed_sorted(trade_tags@),
    ensures
        match r {
            Ok(items) => items@.len() > 0 && items_sorted(item_views(items@)) && forall|h: ItemView|
                item_views(items@).contains(h) <==> items_of(groups@, tag_map(trade_tags@)).contains(
                    h,
                ),
            Err(e) => e == DatagenError::Empty { table: "items" } && items_of(
                groups@,
                tag_map(trade_tags@),
            ).len() == 0,
        },
{
    let ghost tags = tag_map(trade_tags@);
    let mut out: Vec<ItemRecord> = Vec::new();
    let mut g: usize = 0;
    while g < groups.len()
        invariant
            g <= groups.len(),
            keyed_sorted(trade_tags@),
            tags == tag_map(trade_tags@),
            items_sorted(item_views(out@)),
            forall|h: ItemView|
                item_views(out@).contains(h) <==> items_of(groups@.take(g as int), tags).contains(h),
        decreases groups.len() - g,
    {
        proof {
            assert(groups@.take(g as int + 1).drop_last() == groups@.take(g as int));
            assert(groups@.take(g as int + 1).last() == groups@[g as int]);
        }
        let group = &groups[g];
        let ghost done = items_of(groups@.take(g as int), tags);
        let mut k: usize = 0;
        while k < group.entries.len()
            invariant
                k <= group.entries.len(),
                keyed_sorted(trade_tags@),
                tags == tag_map(trade_tags@),
                items_sorted(item_views(out@)),
                forall|h: ItemView|
                    item_views(out@).contains(h) <==> (done + items_in(
                        group.id@,
                        group.entries@.take(k as int),
                        tags,
                    )).contains(h),
            decreases group.entries.len() - k,
        {
            let ghost es = group.entries@.take(k as int + 1);
            proof {
                assert(es.drop_last() == group.entries@.take(k as int));
                assert(es.last() == group.entries@[k as int]);
            }
            let ghost prev = done + items_in(group.id@, group.entries@.take(k as int), tags);
            let ghost next = done + items_in(group.id@, es, tags);
            match make_item(group.id.as_str(), &group.entries[k], trade_tags) {
                Some(x) => {
                    let ghost xv = x@;
                    insert_item(&mut out, x);
                    proof {
                        assert(next =~= prev + seq![xv]);
                        assert forall|h: ItemView| item_views(out@).contains(h) <==> next.contains(h) by {
                            if next.contains(h) {
                                let t = choose|t: int| 0 <= t < next.len() && next[t] == h;
                                if t < prev.len() {
                                    assert(prev[t] == h);
                                }
                            }
                            if prev.contains(h) {
                                let t = choose|t: int| 0 <= t < prev.len() && prev[t] == h;
                                assert(next[t] == h);
                            }
                            if h == xv {
                                assert(next[prev.len() as int] == h);
                            }
                        }
                    }
                },
                None => {
                    proof {
                        assert(next =~= prev);
                    }
                },
            }
            k = k + 1;
        }
        proof {
            assert(group.entries@.take(group.entries.len() as int) == group.entries@);
        }
        g = g + 1;
    }
    assert(groups@.take(groups.len() as int) == groups@);
    if out.len() == 0 {
        proof {
            let all = items_of(groups@, tags);
            if all.len() > 0 {
                assert(all.contains(all[0]));
                assert(item_views(out@).contains(all[0]));
            }
        }
        return Err(DatagenError::Empty { table: "items" });
    }
    Ok(out)
}

} // verus!
