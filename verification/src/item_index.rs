//! Finding a base item by its name within a namespace, as the loaded
//! tables index them: under the lowercased name and the namespace, each
//! holding its items in the order they came. An item whose namespace the
//! trade site does not know is left out.
use vstd::prelude::*;

use crate::text::{chars_of, same};

verus! {

/// What `str::to_lowercase` gives for `s`.
pub uninterp spec fn lowercased(s: Seq<char>) -> Seq<char>;

/// `str::to_lowercase`: every character in its Unicode lowercase form.
/// Its contract names the text; the Unicode tables are not restated.
#[verifier::external_body]
fn to_lowercase(s: &str) -> (r: String)
    ensures
        r@ == lowercased(s@),
{
    s.to_lowercase()
}

pub open spec fn optional_view(s: Option<String>) -> Option<Seq<char>> {
    match s {
        Some(t) => Some(t@),
        None => None,
    }
}

/// How the index files each item, in order: under its lowercased name,
/// and in its namespace when the trade site knows it.
pub open spec fn filing(items: Seq<(String, Option<String>)>) -> Seq<(Seq<char>, Option<Seq<char>>)> {
    items.map_values(|it: (String, Option<String>)| (lowercased(it.0@), optional_view(it.1)))
}

/// The positions of the items filed under `name` in `namespace`, in order.
pub open spec fn filed_under(
    v: Seq<(Seq<char>, Option<Seq<char>>)>,
    name: Seq<char>,
    namespace: Seq<char>,
) -> Seq<usize>
    decreases v.len(),
{
    if v.len() == 0 {
        Seq::empty()
    } else {
        let earlier = filed_under(v.drop_last(), name, namespace);
        if v.last() == (name, Some(namespace)) {
            earlier.push((v.len() - 1) as usize)
        } else {
            earlier
        }
    }
}

/// The names, each with its namespace, under which some item is filed.
pub open spec fn filed_names(v: Seq<(Seq<char>, Option<Seq<char>>)>) -> Set<(Seq<char>, Seq<char>)> {
    Set::new(|k: (Seq<char>, Seq<char>)| exists|i: int| 0 <= i < v.len() && v[i] == (k.0, Some(k.1)))
}

/// The base items by name and namespace.
pub struct ItemIndex {
    filed: Vec<(Vec<char>, Option<Vec<char>>)>,
    names: Vec<(Vec<char>, Vec<char>)>,
}

pub open spec fn entry_view(e: (Vec<char>, Option<Vec<char>>)) -> (Seq<char>, Option<Seq<char>>) {
    (
        e.0@,
        match e.1 {
            Some(n) => Some(n@),
            None => None,
        },
    )
}

pub open spec fn names_view(v: Seq<(Vec<char>, Vec<char>)>) -> Seq<(Seq<char>, Seq<char>)> {
    v.map_values(|k: (Vec<char>, Vec<char>)| (k.0@, k.1@))
}

impl ItemIndex {
    /// Each item as the index filed it, in the order given.
    pub closed spec fn filed_view(self) -> Seq<(Seq<char>, Option<Seq<char>>)> {
        self.filed@.map_values(|e: (Vec<char>, Option<Vec<char>>)| entry_view(e))
    }

    #[verifier::type_invariant]
    closed spec fn names_listed_once(self) -> bool {
        &&& names_view(self.names@).no_duplicates()
        &&& forall|k: (Seq<char>, Seq<char>)|
            #![trigger names_view(self.names@).contains(k)]
            names_view(self.names@).contains(k) <==> filed_names(self.filed_view()).contains(k)
    }

    /// Whether `names` holds `name` in `namespace`.
    fn listed(names: &Vec<(Vec<char>, Vec<char>)>, name: &[char], namespace: &[char]) -> (r: bool)
        ensures
            r == names_view(names@).contains((name@, namespace@)),
    {
        let mut k: usize = 0;
        while k < names.len()
            invariant
                k <= names.len(),
                forall|j: int| 0 <= j < k ==> names_view(names@)[j] != (name@, namespace@),
            decreases names.len() - k,
        {
            if same(names[k].0.as_slice(), name) && same(names[k].1.as_slice(), namespace) {
                assert(names_view(names@)[k as int] == (name@, namespace@));
                return true;
            }
            k = k + 1;
        }
        false
    }

    /// Files the items, each a name and its namespace, `None` for one the
    /// trade site does not know.
    pub fn from_items(items: &[(String, Option<String>)]) -> (t: Self)
        ensures
            t.filed_view() == filing(items@),
    {
        let mut filed: Vec<(Vec<char>, Option<Vec<char>>)> = Vec::new();
        let mut names: Vec<(Vec<char>, Vec<char>)> = Vec::new();
        let mut i: usize = 0;
        while i < items.len()
            invariant
                i <= items.len(),
                filed@.map_values(|e: (Vec<char>, Option<Vec<char>>)| entry_view(e)) == filing(
                    items@.take(i as int),
                ),
                names_view(names@).no_duplicates(),
                forall|k: (Seq<char>, Seq<char>)|
                    #![trigger names_view(names@).contains(k)]
                    names_view(names@).contains(k) <==> filed_names(
                        filed@.map_values(|e: (Vec<char>, Option<Vec<char>>)| entry_view(e)),
                    ).contains(k),
            decreases items.len() - i,
        {
            let ghost before = filed@.map_values(|e: (Vec<char>, Option<Vec<char>>)| entry_view(e));
            let ghost names_before = names_view(names@);
            let lower = to_lowercase(items[i].0.as_str());
            let name = chars_of(lower.as_str());
            let ghost mut added: Option<(Seq<char>, Seq<char>)> = None;
            let entry = match &items[i].1 {
                Some(ns) => {
                    let namespace = chars_of(ns.as_str());
                    if !Self::listed(&names, name.as_slice(), namespace.as_slice()) {
                        names.push((chars_of(lower.as_str()), chars_of(ns.as_str())));
                        proof {
                            assert(names_view(names@) =~= names_before.push((name@, namespace@)));
                        }
                    }
                    proof {
                        added = Some((name@, namespace@));
                        assert forall|k: (Seq<char>, Seq<char>)|
                            names_view(names@).contains(k) <==> (names_before.contains(k) || k == (
                                name@,
                                namespace@,
                            )) by {
                            if names_view(names@).contains(k) && !names_before.contains(k) {
                                let j = choose|j: int|
                                    0 <= j < names_view(names@).len() && names_view(names@)[j] == k;
                                if j < names_before.len() {
                                    assert(names_view(names@)[j] == names_before[j]);
                                }
                            }
                            if names_before.contains(k) {
                                let j = choose|j: int| 0 <= j < names_before.len() && names_before[j] == k;
                                assert(names_view(names@)[j] == names_before[j]);
                            }
                            if k == (name@, namespace@) && !names_before.contains(k) {
                                assert(names_view(names@)[names_before.len() as int] == k);
                            }
                        }
                    }
                    (name, Some(namespace))
                },
                None => (name, None),
            };
            assert(forall|k: (Seq<char>, Seq<char>)|
                names_view(names@).contains(k) <==> (names_before.contains(k) || added == Some(k)));
            assert(entry_view(entry).1 == match added {
                Some(a) => Some(a.1),
                None => None::<Seq<char>>,
            });
            assert(added matches Some(a) ==> a.0 == entry_view(entry).0);
            let ghost e = entry_view(entry);
            filed.push(entry);
            proof {
                let after = filed@.map_values(|e: (Vec<char>, Option<Vec<char>>)| entry_view(e));
                assert(after =~= before.push(e));
                assert(items@.take(i + 1) =~= items@.take(i as int).push(items@[i as int]));
                assert(filing(items@.take(i + 1)) =~= filing(items@.take(i as int)).push(
                    (lowercased(items@[i as int].0@), optional_view(items@[i as int].1)),
                ));
                assert forall|k: (Seq<char>, Seq<char>)|
                    #![trigger names_view(names@).contains(k)]
                    names_view(names@).contains(k) <==> filed_names(after).contains(k) by {
                    if filed_names(before).contains(k) {
                        let j = choose|j: int| 0 <= j < before.len() && before[j] == (k.0, Some(k.1));
                        assert(after[j] == before[j]);
                    }
                    if filed_names(after).contains(k) {
                        let j = choose|j: int| 0 <= j < after.len() && after[j] == (k.0, Some(k.1));
                        if j < before.len() {
                            assert(after[j] == before[j]);
                            assert(filed_names(before).contains(k));
                        } else {
                            assert(e == (k.0, Some(k.1)));
                        }
                    }
                    if e == (k.0, Some(k.1)) {
                        assert(after[before.len() as int] == e);
                    }
                    assert(names_before.contains(k) <==> filed_names(before).contains(k));
                }
            }
            i = i + 1;
        }
        assert(items@.take(items.len() as int) =~= items@);
        ItemIndex { filed, names }
    }

    /// How many names, each within its namespace, file at least one item.
    pub fn item_name_count(&self) -> (n: usize)
        ensures
            n == filed_names(self.filed_view()).len(),
    {
        proof {
            use_type_invariant(self);
            let listed = names_view(self.names@);
            assert(listed.to_set() =~= filed_names(self.filed_view())) by {
                assert forall|k: (Seq<char>, Seq<char>)| listed.to_set().contains(k) <==> filed_names(
                    self.filed_view(),
                ).contains(k) by {
                    assert(listed.contains(k) <==> filed_names(self.filed_view()).contains(k));
                }
            }
            listed.unique_seq_to_set();
        }
        self.names.len()
    }

    /// The positions of the items filed under `name`, lowercased, in
    /// `namespace`, in the order they were given.
    pub fn items_by_name(&self, name: &str, namespace: &str) -> (r: Vec<usize>)
        ensures
            r@ == filed_under(self.filed_view(), lowercased(name@), namespace@),
    {
        let lower = to_lowercase(name);
        let wanted = chars_of(lower.as_str());
        let ns = chars_of(namespace);
        let ghost v = self.filed_view();
        let mut out: Vec<usize> = Vec::new();
        let mut k: usize = 0;
        while k < self.filed.len()
            invariant
                k <= self.filed.len(),
                v == self.filed_view(),
                wanted@ == lowercased(name@),
                ns@ == namespace@,
                out@ == filed_under(v.take(k as int), wanted@, ns@),
            decreases self.filed.len() - k,
        {
            proof {
                assert(v.take(k + 1).drop_last() =~= v.take(k as int));
                assert(v.take(k + 1).last() == v[k as int]);
                assert(v[k as int] == entry_view(self.filed@[k as int]));
            }
            let hit = match &self.filed[k].1 {
                Some(n) => same(self.filed[k].0.as_slice(), wanted.as_slice()) && same(
                    n.as_slice(),
                    ns.as_slice(),
                ),
                None => false,
            };
            if hit {
                out.push(k);
            }
            k = k + 1;
        }
        assert(v.take(self.filed.len() as int) =~= v);
        out
    }
}

} // verus!
