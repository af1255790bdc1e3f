//! Whether a source tree shows a capability: code that does the work, and
//! a driver that puts it in front of the player. Test modules count for
//! neither.
use vstd::prelude::*;

use crate::arch::{production, production_of};
use crate::text::{chars_of, contains, contains_seq};

verus! {

/// A capability and the evidence it asks for: symbols of the code that
/// does the work, and symbols a driver must use.
pub struct Capability {
    pub component: &'static str,
    pub name: &'static str,
    pub domain: &'static [&'static str],
    pub ui: &'static [&'static str],
}

/// How one capability fares: the evidence that was not found.
pub struct Outcome {
    pub name: &'static str,
    pub component: &'static str,
    pub missing_domain: Vec<&'static str>,
    pub missing_ui: Vec<&'static str>,
}

/// How every capability of a catalogue fares, in catalogue order.
pub struct Report {
    pub outcomes: Vec<Outcome>,
}

/// Source files, each its path and its text.
pub open spec fn files_view(files: Seq<(String, String)>) -> Seq<(Seq<char>, Seq<char>)> {
    files.map_values(|f: (String, String)| (f.0@, f.1@))
}

/// Every text is short enough to be read line by line.
pub open spec fn readable(files: Seq<(String, String)>) -> bool {
    forall|i: int| 0 <= i < files.len() ==> (#[trigger] files[i]).1@.len() < 0x4000_0000_0000_0000
}

/// The needle occurs in the text once its test modules are gone.
pub open spec fn outside_tests_of(body: Seq<char>, needle: Seq<char>) -> bool {
    contains_seq(production_of(body), needle)
}

/// The file is a driver: it lies under a `src/driver/` directory.
pub open spec fn driver_path(path: Seq<char>) -> bool {
    contains_seq(path, "/src/driver/"@)
}

/// Some file shows the needle outside its tests; only drivers count when
/// `drivers_only` is set.
pub open spec fn seen(files: Seq<(Seq<char>, Seq<char>)>, needle: Seq<char>, drivers_only: bool) -> bool {
    exists|i: int|
        0 <= i < files.len() && (!drivers_only || driver_path(files[i].0)) && outside_tests_of(
            #[trigger] files[i].1,
            needle,
        )
}

/// What a driver shows, the tree shows: [`in_a_driver`] never finds a
/// symbol that [`anywhere`] misses.
pub proof fn a_driver_symbol_is_seen_anywhere(files: Seq<(Seq<char>, Seq<char>)>, needle: Seq<char>)
    ensures
        seen(files, needle, true) ==> seen(files, needle, false),
{
    if seen(files, needle, true) {
        let i = choose|i: int|
            0 <= i < files.len() && (!true || driver_path(files[i].0)) && outside_tests_of(
                #[trigger] files[i].1,
                needle,
            );
        assert(0 <= i < files.len() && (!false || driver_path(files[i].0)) && outside_tests_of(
            files[i].1,
            needle,
        ));
    }
}

/// The needles that no file shows, in their order.
pub open spec fn unseen(
    files: Seq<(Seq<char>, Seq<char>)>,
    needles: Seq<&'static str>,
    drivers_only: bool,
) -> Seq<&'static str>
    decreases needles.len(),
{
    if needles.len() == 0 {
        Seq::empty()
    } else {
        let rest = unseen(files, needles.drop_last(), drivers_only);
        if seen(files, needles.last()@, drivers_only) {
            rest
        } else {
            rest.push(needles.last())
        }
    }
}

/// The outcome of one capability against the files.
pub open spec fn outcome_of(files: Seq<(Seq<char>, Seq<char>)>, c: Capability) -> (
    &'static str,
    &'static str,
    Seq<&'static str>,
    Seq<&'static str>,
) {
    (c.name, c.component, unseen(files, c.domain@, false), unseen(files, c.ui@, true))
}

/// The outcome as the values it holds.
pub open spec fn outcome_view(o: Outcome) -> (
    &'static str,
    &'static str,
    Seq<&'static str>,
    Seq<&'static str>,
) {
    (o.name, o.component, o.missing_domain@, o.missing_ui@)
}

pub open spec fn is_done(o: Outcome) -> bool {
    o.missing_domain@.len() == 0 && o.missing_ui@.len() == 0
}

/// How many of the outcomes are done.
pub open spec fn done_count(outcomes: Seq<Outcome>) -> nat
    decreases outcomes.len(),
{
    if outcomes.len() == 0 {
        0
    } else {
        done_count(outcomes.drop_last()) + if is_done(outcomes.last()) {
            1nat
        } else {
            0nat
        }
    }
}

proof fn lemma_done_count_bound(outcomes: Seq<Outcome>)
    ensures
        done_count(outcomes) <= outcomes.len(),
    decreases outcomes.len(),
{
    if outcomes.len() > 0 {
        lemma_done_count_bound(outcomes.drop_last());
    }
}

impl Outcome {
    /// Every piece of evidence was found.
    pub fn done(&self) -> (r: bool)
        ensures
            r == is_done(*self),
    {
        self.missing_domain.len() == 0 && self.missing_ui.len() == 0
    }
}

impl Report {
    /// How many capabilities are done.
    pub fn done(&self) -> (r: usize)
        ensures
            r == done_count(self.outcomes@),
    {
        let mut n: usize = 0;
        let mut i: usize = 0;
        while i < self.outcomes.len()
            invariant
                i <= self.outcomes.len(),
                n == done_count(self.outcomes@.take(i as int)),
            decreases self.outcomes.len() - i,
        {
            proof {
                assert(self.outcomes@.take(i + 1).drop_last() =~= self.outcomes@.take(i as int));
                lemma_done_count_bound(self.outcomes@.take(i as int));
            }
            if self.outcomes[i].done() {
                n = n + 1;
            }
            i = i + 1;
        }
        assert(self.outcomes@.take(i as int) =~= self.outcomes@);
        n
    }

    /// How many capabilities were measured.
    pub fn total(&self) -> (r: usize)
        ensures
            r == self.outcomes@.len(),
    {
        self.outcomes.len()
    }
}

/// Whether `needle` occurs in `body` outside its test modules.
pub fn outside_tests(body: &str, needle: &str) -> (r: bool)
    requires
        body@.len() < 0x4000_0000_0000_0000,
    ensures
        r == outside_tests_of(body@, needle@),
{
    let kept = production(body);
    let kc = chars_of(kept.as_str());
    let nc = chars_of(needle);
    contains(kc.as_slice(), nc.as_slice())
}

fn seen_in(files: &[(String, String)], needle: &str, drivers_only: bool) -> (r: bool)
    requires
        readable(files@),
    ensures
        r == seen(files_view(files@), needle@, drivers_only),
{
    let marker = chars_of("/src/driver/");
    let mut i: usize = 0;
    while i < files.len()
        invariant
            i <= files.len(),
            readable(files@),
            marker@ == "/src/driver/"@,
            forall|k: int|
                0 <= k < i ==> !((!drivers_only || driver_path(files@[k].0@)) && outside_tests_of(
                    files@[k].1@,
                    needle@,
                )),
        decreases files.len() - i,
    {
        let path = chars_of(files[i].0.as_str());
        let counts = !drivers_only || contains(path.as_slice(), marker.as_slice());
        if counts && outside_tests(files[i].1.as_str(), needle) {
            let ghost fv = files_view(files@);
            assert(fv[i as int] == (files@[i as int].0@, files@[i as int].1@));
            assert(!drivers_only || driver_path(fv[i as int].0));
            assert(outside_tests_of(fv[i as int].1, needle@));
            return true;
        }
        i = i + 1;
    }
    proof {
        assert forall|k: int|
            0 <= k < files_view(files@).len() && (!drivers_only || driver_path(
                files_view(files@)[k].0,
            )) implies !outside_tests_of(#[trigger] files_view(files@)[k].1, needle@) by {
            assert(files_view(files@)[k] == (files@[k].0@, files@[k].1@));
        }
    }
    false
}

/// Some file shows `needle` outside its test modules.
pub fn anywhere(files: &[(String, String)], needle: &str) -> (r: bool)
    requires
        readable(files@),
    ensures
        r == seen(files_view(files@), needle@, false),
{
    seen_in(files, needle, false)
}

/// Some driver shows `needle` outside its test modules.
pub fn in_a_driver(files: &[(String, String)], needle: &str) -> (r: bool)
    requires
        readable(files@),
    ensures
        r == seen(files_view(files@), needle@, true),
{
    seen_in(files, needle, true)
}

fn missing(files: &[(String, String)], needles: &'static [&'static str], drivers_only: bool) -> (r: Vec<
    &'static str,
>)
    requires
        readable(files@),
    ensures
        r@ == unseen(files_view(files@), needles@, drivers_only),
{
    let mut out: Vec<&'static str> = Vec::new();
    let mut i: usize = 0;
    while i < needles.len()
        invariant
            i <= needles.len(),
            readable(files@),
            out@ == unseen(files_view(files@), needles@.take(i as int), drivers_only),
        decreases needles.len() - i,
    {
        let needle = needles[i];
        proof {
            assert(needles@.take(i + 1).drop_last() =~= needles@.take(i as int));
            assert(needles@.take(i + 1).last() == needle);
        }
        if !seen_in(files, needle, drivers_only) {
            out.push(needle);
        }
        i = i + 1;
    }
    assert(needles@.take(i as int) =~= needles@);
    out
}

/// Each capability of the catalogue against the files, in catalogue order:
/// the domain symbols no file shows, and the symbols no driver uses.
pub fn measure(capabilities: &[Capability], files: &[(String, String)]) -> (r: Report)
    requires
        readable(files@),
    ensures
        r.outcomes@.len() == capabilities@.len(),
        forall|i: int|
            0 <= i < capabilities@.len() ==> outcome_view(#[trigger] r.outcomes@[i]) == outcome_of(
                files_view(files@),
                capabilities@[i],
            ),
{
    let mut outcomes: Vec<Outcome> = Vec::new();
    let mut i: usize = 0;
    while i < capabilities.len()
        invariant
            i <= capabilities.len(),
            readable(files@),
            outcomes@.len() == i,
            forall|k: int|
                0 <= k < i ==> outcome_view(#[trigger] outcomes@[k]) == outcome_of(
                    files_view(files@),
                    capabilities@[k],
                ),
        decreases capabilities.len() - i,
    {
        let c = &capabilities[i];
        let o = Outcome {
            name: c.name,
            component: c.component,
            missing_domain: missing(files, c.domain, false),
            missing_ui: missing(files, c.ui, true),
        };
        outcomes.push(o);
        i = i + 1;
    }
    Report { outcomes }
}

} // verus!
