//! When the cached trade data is due for a refresh, where the refresh is
//! stamped, and how the rebuilt tables are framed as NDJSON.
//!
//! Instants are nanoseconds since the Unix epoch.
use vstd::prelude::*;

use crate::datagen::{
    build_items, build_stats, build_trade_tags, item_views, items_of, items_sorted,
    records_map, references, stats_of, tag_map, tags_of, DatagenError, ItemGroup, ItemRecord,
    ItemView, StatGroup, StatRecord, StaticGroup,
};
use crate::keyed::keyed_sorted;
use crate::ndjson::{item_line, item_to_ndjson, lemma_views_push, one_line, stat_line, stat_to_ndjson};
use crate::order::strictly_sorted;
use crate::paths::{is_join, join_path, kept_dir, plain_name};
use crate::text::{owned, push_str};

verus! {

/// How old the cached data may grow before it is refreshed: seven days, in
/// nanoseconds.
pub const MAX_AGE: u128 = 604_800_000_000_000;

/// The file whose time stamp says when the cache was last refreshed.
pub const STAMP: &'static str = "refreshed-at";

/// A refresh is due when none was ever made, or the last one is at least
/// [`MAX_AGE`] old; a stamp later than the clock is left alone, so a clock
/// change does not turn into a refresh on every launch.
pub open spec fn due(last: Option<u128>, now: u128) -> bool {
    match last {
        None => true,
        Some(last) => now >= last && now - last >= MAX_AGE,
    }
}

/// A cache never refreshed is always due, and a stamp later than the clock
/// is never due, however far the clock went back.
pub proof fn a_stamp_from_the_future_is_never_due(last: u128, now: u128)
    requires
        now < last,
    ensures
        due(None, now),
        !due(Some(last), now),
{
}

/// Once due, a cache stays due as the clock moves on until it is
/// refreshed.
pub proof fn a_due_cache_stays_due(last: u128, now: u128, later: u128)
    requires
        due(Some(last), now),
        now <= later,
    ensures
        due(Some(last), later),
{
}

pub fn refresh_due(last: Option<u128>, now: u128) -> (r: bool)
    ensures
        r == due(last, now),
{
    match last {
        None => true,
        Some(last) => if now >= last {
            now - last >= MAX_AGE
        } else {
            false
        },
    }
}

/// The stamp file, inside the cache directory.
pub fn stamp_path(cache: &str) -> (r: String)
    ensures
        kept_dir(cache@) ==> is_join(cache@, STAMP@, r@),
{
    proof {
        reveal_strlit("refreshed-at");
        assert(plain_name(STAMP@));
    }
    join_path(cache, STAMP)
}

/// `lines`, each ended by a newline.
pub open spec fn ndjson(lines: Seq<Seq<char>>) -> Seq<char>
    decreases lines.len(),
{
    if lines.len() == 0 {
        Seq::empty()
    } else {
        ndjson(lines.drop_last()) + lines.last() + seq!['\n']
    }
}

/// Framing records one after another is framing them all at once, and one
/// record is framed as itself followed by a newline.
pub proof fn records_are_framed_one_per_line(a: Seq<Seq<char>>, b: Seq<Seq<char>>, line: Seq<char>)
    ensures
        ndjson(a + b) == ndjson(a) + ndjson(b),
        ndjson(seq![line]) == line + seq!['\n'],
    decreases b.len(),
{
    assert(seq![line].drop_last() =~= Seq::<Seq<char>>::empty());
    assert(seq![line].last() == line);
    assert(ndjson(Seq::<Seq<char>>::empty()) == Seq::<char>::empty());
    assert(ndjson(seq![line]) == ndjson(seq![line].drop_last()) + line + seq!['\n']);
    assert(ndjson(seq![line]) =~= line + seq!['\n']);
    if b.len() == 0 {
        assert(a + b =~= a);
        assert(ndjson(a) + ndjson(b) =~= ndjson(a));
    } else {
        records_are_framed_one_per_line(a, b.drop_last(), line);
        assert((a + b).drop_last() =~= a + b.drop_last());
        assert((a + b).last() == b.last());
        assert(ndjson(a + b) =~= ndjson(a) + ndjson(b));
    }
}

/// Frames rendered records as NDJSON: one per line, each line ended, and
/// nothing at all for no records.
pub fn to_ndjson(lines: &[String]) -> (r: String)
    ensures
        r@ == ndjson(lines@.map_values(|s: String| s@)),
{
    let ghost all = lines@.map_values(|s: String| s@);
    let mut out = String::new();
    let mut i: usize = 0;
    while i < lines.len()
        invariant
            i <= lines.len(),
            all == lines@.map_values(|s: String| s@),
            out@ == ndjson(all.take(i as int)),
        decreases lines.len() - i,
    {
        proof {
            assert(all.take(i as int + 1).drop_last() == all.take(i as int));
            assert(all.take(i as int + 1).last() == lines@[i as int]@);
        }
        crate::text::push_str(&mut out, lines[i].as_str());
        crate::text::push_char(&mut out, '\n');
        i = i + 1;
    }
    assert(all.take(lines.len() as int) == all);
    out
}

/// Why a refresh wrote nothing.
#[derive(Debug, Clone, PartialEq, Eq)]
pub enum RefreshError {
    /// Building `table` from the site's answer failed.
    Build { table: &'static str, source: DatagenError },
    /// The site's answer held no `table`.
    Empty { table: &'static str },
}

pub open spec fn refresh_error_text(e: RefreshError) -> Seq<char> {
    match e {
        RefreshError::Build { table, .. } => "building "@ + table@
            + " from what the trade api returned"@,
        RefreshError::Empty { table } => "the trade api returned no "@ + table@,
    }
}

impl RefreshError {
    /// The error as a sentence, naming the table.
    pub fn message(&self) -> (r: String)
        ensures
            r@ == refresh_error_text(*self),
    {
        match self {
            RefreshError::Build { table, .. } => {
                let mut r = owned("building ");
                push_str(&mut r, table);
                push_str(&mut r, " from what the trade api returned");
                r
            },
            RefreshError::Empty { table } => {
                let mut r = owned("the trade api returned no ");
                push_str(&mut r, table);
                r
            },
        }
    }
}

/// The site's three answers as read: each the table's groups, or why the
/// answer could not be read.
pub struct Answers {
    pub stats: Result<Vec<StatGroup>, String>,
    pub items: Result<Vec<ItemGroup>, String>,
    pub statics: Result<Vec<StaticGroup>, String>,
}

/// The rebuilt tables.
pub struct Tables {
    pub stats: Vec<StatRecord>,
    pub items: Vec<ItemRecord>,
}

/// The first thing wrong with the answers, checked in the order the
/// tables are built: the trade tags, the stats, the items.
pub open spec fn refresh_failure(a: Answers) -> Option<RefreshError> {
    match a.statics {
        Err(m) => Some(
            RefreshError::Build {
                table: "trade tags",
                source: DatagenError::Decode { table: "static", message: m },
            },
        ),
        Ok(statics) => if tags_of(statics@).dom() =~= Set::<Seq<char>>::empty() {
            Some(
                RefreshError::Build {
                    table: "trade tags",
                    source: DatagenError::Empty { table: "static" },
                },
            )
        } else {
            match a.stats {
                Err(m) => Some(
                    RefreshError::Build {
                        table: "stats",
                        source: DatagenError::Decode { table: "stats", message: m },
                    },
                ),
                Ok(stats) => if stats_of(stats@).dom() =~= Set::<Seq<char>>::empty() {
                    Some(
                        RefreshError::Build {
                            table: "stats",
                            source: DatagenError::Empty { table: "stats" },
                        },
                    )
                } else {
                    match a.items {
                        Err(m) => Some(
                            RefreshError::Build {
                                table: "items",
                                source: DatagenError::Decode { table: "items", message: m },
                            },
                        ),
                        Ok(items) => if items_of(items@, tags_of(statics@)).len() == 0 {
                            Some(
                                RefreshError::Build {
                                    table: "items",
                                    source: DatagenError::Empty { table: "items" },
                                },
                            )
                        } else {
                            None
                        },
                    }
                },
            }
        },
    }
}

/// Rebuilds both tables from the site's answers: the stats, and the items
/// with the trade tags the static table names. The first table that
/// cannot be read or holds nothing stops the refresh, so an empty file is
/// never written over a good one.
pub fn build(answers: Answers) -> (r: Result<Tables, RefreshError>)
    ensures
        match r {
            Err(e) => refresh_failure(answers) == Some(e),
            Ok(t) => refresh_failure(answers) is None && t.stats@.len() > 0 && strictly_sorted(
                references(t.stats@),
            ) && (forall|i: int|
                0 <= i < t.stats@.len() ==> keyed_sorted(#[trigger] t.stats@[i].trade_ids@))
                && records_map(t.stats@) == stats_of(answers.stats->Ok_0@) && t.items@.len() > 0
                && items_sorted(item_views(t.items@)) && forall|h: ItemView|
                item_views(t.items@).contains(h) <==> items_of(
                    answers.items->Ok_0@,
                    tags_of(answers.statics->Ok_0@),
                ).contains(h),
        },
{
    let ghost a = answers;
    let Answers { stats, items, statics } = answers;
    let statics = match statics {
        Err(message) => {
            return Err(
                RefreshError::Build {
                    table: "trade tags",
                    source: DatagenError::Decode { table: "static", message },
                },
            );
        },
        Ok(g) => g,
    };
    let tags = match build_trade_tags(statics.as_slice()) {
        Err(source) => return Err(RefreshError::Build { table: "trade tags", source }),
        Ok(tags) => tags,
    };
    proof {
        if tags_of(statics@).dom() =~= Set::<Seq<char>>::empty() {
            crate::keyed::lemma_map_of_dom(tags@, tags@[0].0@);
            assert(crate::keyed::keys_of(tags@)[0] == tags@[0].0@);
            assert(tag_map(tags@).dom().contains(tags@[0].0@));
        }
    }
    let stats = match stats {
        Err(message) => {
            return Err(
                RefreshError::Build {
                    table: "stats",
                    source: DatagenError::Decode { table: "stats", message },
                },
            );
        },
        Ok(g) => g,
    };
    let stat_records = match build_stats(stats.as_slice()) {
        Err(source) => return Err(RefreshError::Build { table: "stats", source }),
        Ok(records) => records,
    };
    proof {
        if stats_of(stats@).dom() =~= Set::<Seq<char>>::empty() {
            let rs = stat_records@;
            assert(records_map(rs) == records_map(rs.drop_last()).insert(
                rs.last().reference@,
                crate::datagen::record_model(rs.last()),
            ));
            assert(records_map(rs).dom().contains(rs.last().reference@));
        }
    }
    let items = match items {
        Err(message) => {
            return Err(
                RefreshError::Build {
                    table: "items",
                    source: DatagenError::Decode { table: "items", message },
                },
            );
        },
        Ok(g) => g,
    };
    let item_records = match build_items(items.as_slice(), &tags) {
        Err(source) => return Err(RefreshError::Build { table: "items", source }),
        Ok(records) => records,
    };
    proof {
        let all = items_of(items@, tags_of(statics@));
        let first = item_views(item_records@)[0];
        assert(item_views(item_records@).contains(first));
        assert(all.contains(first));
    }
    Ok(Tables { stats: stat_records, items: item_records })
}

/// Two tables rendered as NDJSON, with how many records each holds.
#[derive(Debug, PartialEq, Eq)]
pub struct Built {
    pub stats: String,
    pub items: String,
    pub stat_count: usize,
    pub item_count: usize,
}

impl Built {
    /// The tables written out: each stat and each item as one line of JSON,
    /// in table order.
    pub fn from_tables(tables: &Tables) -> (b: Built)
        ensures
            b.stats@ == ndjson(tables.stats@.map_values(|r: StatRecord| stat_line(r))),
            b.items@ == ndjson(tables.items@.map_values(|r: ItemRecord| item_line(r))),
            b.stat_count == tables.stats@.len(),
            b.item_count == tables.items@.len(),
            forall|i: int| 0 <= i < tables.stats@.len() ==> one_line(stat_line(#[trigger] tables.stats@[i])),
            forall|i: int| 0 <= i < tables.items@.len() ==> one_line(item_line(#[trigger] tables.items@[i])),
    {
        let mut stat_lines: Vec<String> = Vec::new();
        let mut i: usize = 0;
        while i < tables.stats.len()
            invariant
                i <= tables.stats@.len(),
                stat_lines@.map_values(|s: String| s@) == tables.stats@.map_values(
                    |r: StatRecord| stat_line(r),
                ).take(i as int),
                forall|k: int| 0 <= k < i ==> one_line(stat_line(#[trigger] tables.stats@[k])),
            decreases tables.stats@.len() - i,
        {
            let line = stat_to_ndjson(&tables.stats[i]);
            let ghost before = stat_lines@;
            stat_lines.push(line);
            proof {
                lemma_views_push(before, line);
                let all = tables.stats@.map_values(|r: StatRecord| stat_line(r));
                assert(all.take(i + 1) =~= all.take(i as int).push(all[i as int]));
            }
            i = i + 1;
        }
        assert(tables.stats@.map_values(|r: StatRecord| stat_line(r)).take(i as int)
            =~= tables.stats@.map_values(|r: StatRecord| stat_line(r)));
        let mut item_lines: Vec<String> = Vec::new();
        let mut i: usize = 0;
        while i < tables.items.len()
            invariant
                i <= tables.items@.len(),
                item_lines@.map_values(|s: String| s@) == tables.items@.map_values(
                    |r: ItemRecord| item_line(r),
                ).take(i as int),
                forall|k: int| 0 <= k < i ==> one_line(item_line(#[trigger] tables.items@[k])),
                forall|k: int| 0 <= k < tables.stats@.len() ==> one_line(stat_line(#[trigger] tables.stats@[k])),
            decreases tables.items@.len() - i,
        {
            let line = item_to_ndjson(&tables.items[i]);
            let ghost before = item_lines@;
            item_lines.push(line);
            proof {
                lemma_views_push(before, line);
                let all = tables.items@.map_values(|r: ItemRecord| item_line(r));
                assert(all.take(i + 1) =~= all.take(i as int).push(all[i as int]));
            }
            i = i + 1;
        }
        assert(tables.items@.map_values(|r: ItemRecord| item_line(r)).take(i as int)
            =~= tables.items@.map_values(|r: ItemRecord| item_line(r)));
        Built::framed(stat_lines.as_slice(), item_lines.as_slice())
    }

    /// Frames the rendered stat and item records, one per line.
    pub fn framed(stat_lines: &[String], item_lines: &[String]) -> (b: Built)
        ensures
            b.stats@ == ndjson(stat_lines@.map_values(|s: String| s@)),
            b.items@ == ndjson(item_lines@.map_values(|s: String| s@)),
            b.stat_count == stat_lines@.len(),
            b.item_count == item_lines@.len(),
    {
        Built {
            stats: to_ndjson(stat_lines),
            items: to_ndjson(item_lines),
            stat_count: stat_lines.len(),
            item_count: item_lines.len(),
        }
    }
}

} // verus!
