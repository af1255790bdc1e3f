//! Text primitives over sequences of characters.
//!
//! Every function here works on the characters of a string, in order, and
//! states its result over `Seq<char>`. The spec functions are the vocabulary
//! the rest of the library uses to say what its parsers and scanners return.
use vstd::prelude::*;

verus! {

// ---------------------------------------------------------------------------
// Characters
// ---------------------------------------------------------------------------

/// Unicode `White_Space`, the property `char::is_whitespace` tests.
pub open spec fn is_ws(c: char) -> bool {
    let v = c as u32;
    ||| 0x9 <= v && v <= 0xd
    ||| v == 0x20
    ||| v == 0x85
    ||| v == 0xa0
    ||| v == 0x1680
    ||| 0x2000 <= v && v <= 0x200a
    ||| v == 0x2028
    ||| v == 0x2029
    ||| v == 0x202f
    ||| v == 0x205f
    ||| v == 0x3000
}

pub open spec fn is_digit(c: char) -> bool {
    '0' <= c && c <= '9'
}

pub open spec fn is_ascii_alnum(c: char) -> bool {
    ||| is_digit(c)
    ||| 'a' <= c && c <= 'z'
    ||| 'A' <= c && c <= 'Z'
}

/// What `char::to_ascii_lowercase` gives.
pub open spec fn ascii_lower(c: char) -> char {
    if 'A' <= c && c <= 'Z' {
        ((c as u8) + 32) as char
    } else {
        c
    }
}

/// The number of bytes `c` takes in UTF-8, as `char::len_utf8` gives it.
pub open spec fn char_utf8_len(c: char) -> nat {
    let v = c as u32;
    if v < 0x80 {
        1
    } else if v < 0x800 {
        2
    } else if v < 0x10000 {
        3
    } else {
        4
    }
}

/// The number of bytes `s` takes in UTF-8: what `str::len` gives.
pub open spec fn utf8_len(s: Seq<char>) -> nat
    decreases s.len(),
{
    if s.len() == 0 {
        0
    } else {
        utf8_len(s.drop_last()) + char_utf8_len(s.last())
    }
}

pub fn is_whitespace(c: char) -> (r: bool)
    ensures
        r == is_ws(c),
{
    let v = c as u32;
    (0x9 <= v && v <= 0xd) || v == 0x20 || v == 0x85 || v == 0xa0 || v == 0x1680 || (0x2000
        <= v && v <= 0x200a) || v == 0x2028 || v == 0x2029 || v == 0x202f || v == 0x205f || v
        == 0x3000
}

pub fn is_ascii_digit(c: char) -> (r: bool)
    ensures
        r == is_digit(c),
{
    '0' <= c && c <= '9'
}

pub fn is_ascii_alphanumeric(c: char) -> (r: bool)
    ensures
        r == is_ascii_alnum(c),
{
    ('0' <= c && c <= '9') || ('a' <= c && c <= 'z') || ('A' <= c && c <= 'Z')
}

pub fn to_ascii_lowercase(c: char) -> (r: char)
    ensures
        r == ascii_lower(c),
{
    if 'A' <= c && c <= 'Z' {
        ((c as u8) + 32) as char
    } else {
        c
    }
}

pub proof fn lemma_utf8_len_prefix(s: Seq<char>, k: int)
    requires
        0 <= k <= s.len(),
    ensures
        utf8_len(s.take(k)) <= utf8_len(s),
    decreases s.len(),
{
    if k < s.len() {
        assert(s.drop_last().take(k) == s.take(k));
        lemma_utf8_len_prefix(s.drop_last(), k);
    } else {
        assert(s.take(k) == s);
    }
}

// ---------------------------------------------------------------------------
// Searching
// ---------------------------------------------------------------------------

/// `p` occurs in `s` starting at `i`.
pub open spec fn matches_at(s: Seq<char>, p: Seq<char>, i: int) -> bool {
    0 <= i && i + p.len() <= s.len() && s.subrange(i, i + p.len()) == p
}

/// The first position at or after `k` where `p` occurs in `s`.
pub open spec fn find_from(s: Seq<char>, p: Seq<char>, k: int) -> Option<int>
    decreases s.len() + 1 - k,
{
    if k < 0 || k + p.len() > s.len() {
        None
    } else if matches_at(s, p, k) {
        Some(k)
    } else {
        find_from(s, p, k + 1)
    }
}

/// The first position where `p` occurs in `s`: what `str::find` gives.
pub open spec fn find_seq(s: Seq<char>, p: Seq<char>) -> Option<int> {
    find_from(s, p, 0)
}

/// The last position at or before `k` where `p` occurs in `s`.
pub open spec fn rfind_from(s: Seq<char>, p: Seq<char>, k: int) -> Option<int>
    decreases k + 1,
{
    if k < 0 {
        None
    } else if matches_at(s, p, k) {
        Some(k)
    } else {
        rfind_from(s, p, k - 1)
    }
}

/// The last position where `p` occurs in `s`: what `str::rfind` gives.
pub open spec fn rfind_seq(s: Seq<char>, p: Seq<char>) -> Option<int> {
    rfind_from(s, p, s.len() - p.len())
}

pub open spec fn contains_seq(s: Seq<char>, p: Seq<char>) -> bool {
    find_seq(s, p) is Some
}

/// What `str::split_once` gives.
pub open spec fn split_once_seq(s: Seq<char>, p: Seq<char>) -> Option<(Seq<char>, Seq<char>)> {
    match find_seq(s, p) {
        Some(i) => Some((s.take(i), s.skip(i + p.len()))),
        None => None,
    }
}

/// What `str::rsplit_once` gives.
pub open spec fn rsplit_once_seq(s: Seq<char>, p: Seq<char>) -> Option<(Seq<char>, Seq<char>)> {
    match rfind_seq(s, p) {
        Some(i) => Some((s.take(i), s.skip(i + p.len()))),
        None => None,
    }
}

pub open spec fn starts_with_seq(s: Seq<char>, p: Seq<char>) -> bool {
    p.len() <= s.len() && s.take(p.len() as int) == p
}

pub open spec fn ends_with_seq(s: Seq<char>, p: Seq<char>) -> bool {
    p.len() <= s.len() && s.skip(s.len() - p.len()) == p
}

/// What `str::strip_prefix` gives.
pub open spec fn strip_prefix_seq(s: Seq<char>, p: Seq<char>) -> Option<Seq<char>> {
    if starts_with_seq(s, p) {
        Some(s.skip(p.len() as int))
    } else {
        None
    }
}

/// What `str::strip_suffix` gives.
pub open spec fn strip_suffix_seq(s: Seq<char>, p: Seq<char>) -> Option<Seq<char>> {
    if ends_with_seq(s, p) {
        Some(s.take(s.len() - p.len()))
    } else {
        None
    }
}

pub proof fn lemma_find_from(s: Seq<char>, p: Seq<char>, k: int)
    requires
        0 <= k,
    ensures
        match find_from(s, p, k) {
            Some(i) => k <= i && matches_at(s, p, i) && forall|j: int|
                k <= j < i ==> !#[trigger] matches_at(s, p, j),
            None => forall|j: int| k <= j ==> !#[trigger] matches_at(s, p, j),
        },
    decreases s.len() + 1 - k,
{
    if k + p.len() > s.len() {
    } else if matches_at(s, p, k) {
    } else {
        lemma_find_from(s, p, k + 1);
    }
}

pub proof fn lemma_rfind_from(s: Seq<char>, p: Seq<char>, k: int)
    ensures
        match rfind_from(s, p, k) {
            Some(i) => 0 <= i <= k && matches_at(s, p, i) && forall|j: int|
                i < j <= k ==> !#[trigger] matches_at(s, p, j),
            None => forall|j: int| j <= k ==> !#[trigger] matches_at(s, p, j),
        },
    decreases k + 1,
{
    if k >= 0 && !matches_at(s, p, k) {
        lemma_rfind_from(s, p, k - 1);
    }
}

/// What `split_once` gives, put back together with the separator, is the
/// text it split; the part before holds no separator.
pub proof fn lemma_split_once_parts(s: Seq<char>, p: Seq<char>)
    ensures
        split_once_seq(s, p) matches Some((a, b)) ==> s == a + p + b && (p.len() > 0 ==> !contains_seq(a, p)),
{
    lemma_find_from(s, p, 0);
    if let Some(i) = find_seq(s, p) {
        let a = s.take(i);
        let b = s.skip(i + p.len());
        assert(s.subrange(i, i + p.len()) == p);
        assert(s =~= a + p + b);
        lemma_find_from(a, p, 0);
        if let Some(j) = find_seq(a, p) {
            assert(j + p.len() <= a.len());
            assert(s.subrange(j, j + p.len()) =~= a.subrange(j, j + p.len()));
            assert(matches_at(s, p, j));
        }
    }
}

/// A text that occurs somewhere in `s` is contained in it.
pub proof fn lemma_contains_at(s: Seq<char>, p: Seq<char>, k: int)
    requires
        matches_at(s, p, k),
    ensures
        contains_seq(s, p),
{
    lemma_find_from(s, p, 0);
}

/// What `rsplit_once` gives, put back together with the separator, is
/// the text it split; the part after holds no separator.
pub proof fn lemma_rsplit_once_parts(s: Seq<char>, p: Seq<char>)
    ensures
        rsplit_once_seq(s, p) matches Some((a, b)) ==> s == a + p + b && (p.len() > 0 ==> !contains_seq(
            b,
            p,
        )),
{
    lemma_rfind_from(s, p, s.len() - p.len());
    if let Some(i) = rfind_seq(s, p) {
        let a = s.take(i);
        let b = s.skip(i + p.len());
        assert(s.subrange(i, i + p.len()) == p);
        assert(s =~= a + p + b);
        if p.len() > 0 {
            lemma_find_from(b, p, 0);
            if let Some(j) = find_seq(b, p) {
                let k = i + p.len() + j;
                assert(s.subrange(k, k + p.len()) =~= b.subrange(j, j + p.len()));
                assert(matches_at(s, p, k));
                assert(k <= s.len() - p.len());
            }
        }
    }
}

/// What `strip_suffix` leaves, before the suffix, is the text.
pub proof fn lemma_strip_suffix_parts(s: Seq<char>, p: Seq<char>)
    ensures
        strip_suffix_seq(s, p) matches Some(r) ==> s == r + p,
{
    if ends_with_seq(s, p) {
        assert(s =~= s.take(s.len() - p.len()) + s.skip(s.len() - p.len()));
    }
}

/// What `strip_prefix` leaves, behind the prefix, is the text.
pub proof fn lemma_strip_prefix_parts(s: Seq<char>, p: Seq<char>)
    ensures
        strip_prefix_seq(s, p) matches Some(r) ==> s == p + r,
{
    if starts_with_seq(s, p) {
        assert(s =~= s.take(p.len() as int) + s.skip(p.len() as int));
    }
}

/// `p` occurs in `s` starting at `i`; `i + p.len() <= s.len()`.
pub fn matches_here(s: &[char], p: &[char], i: usize) -> (r: bool)
    requires
        i + p.len() <= s.len(),
    ensures
        r == matches_at(s@, p@, i as int),
{
    let mut j: usize = 0;
    while j < p.len()
        invariant
            i + p.len() <= s.len(),
            j <= p.len(),
            forall|t: int| 0 <= t < j ==> s@[i + t] == p@[t],
        decreases p.len() - j,
    {
        if s[i + j] != p[j] {
            assert(s@.subrange(i as int, i + p.len())[j as int] != p@[j as int]);
            return false;
        }
        j = j + 1;
    }
    assert(s@.subrange(i as int, i + p.len()) =~= p@);
    true
}

/// The first position of `p` in `s`, as `str::find` gives it.
pub fn find(s: &[char], p: &[char]) -> (r: Option<usize>)
    ensures
        match r {
            Some(i) => find_seq(s@, p@) == Some(i as int),
            None => find_seq(s@, p@) is None,
        },
{
    if p.len() > s.len() {
        return None;
    }
    let mut k: usize = 0;
    let last = s.len() - p.len();
    loop
        invariant
            last == s.len() - p.len(),
            p.len() <= s.len(),
            k <= last,
            find_seq(s@, p@) == find_from(s@, p@, k as int),
        decreases last - k,
    {
        if matches_here(s, p, k) {
            return Some(k);
        }
        if k == last {
            assert(find_from(s@, p@, k + 1) is None);
            return None;
        }
        k = k + 1;
    }
}

/// The last position of `p` in `s`, as `str::rfind` gives it.
pub fn rfind(s: &[char], p: &[char]) -> (r: Option<usize>)
    ensures
        match r {
            Some(i) => rfind_seq(s@, p@) == Some(i as int),
            None => rfind_seq(s@, p@) is None,
        },
{
    if p.len() > s.len() {
        return None;
    }
    let mut k: usize = s.len() - p.len();
    loop
        invariant
            p.len() <= s.len(),
            k + p.len() <= s.len(),
            rfind_seq(s@, p@) == rfind_from(s@, p@, k as int),
        decreases k,
    {
        if matches_here(s, p, k) {
            return Some(k);
        }
        if k == 0 {
            assert(rfind_from(s@, p@, -1) is None);
            return None;
        }
        k = k - 1;
    }
}

/// Appends the characters of `more` to `v`.
pub fn extend_chars(v: &mut Vec<char>, more: &[char])
    ensures
        final(v)@ == old(v)@ + more@,
{
    let ghost start = v@;
    let mut i: usize = 0;
    while i < more.len()
        invariant
            i <= more.len(),
            v@ == start + more@.take(i as int),
        decreases more.len() - i,
    {
        v.push(more[i]);
        i = i + 1;
        assert(more@.take(i as int) == more@.take(i - 1).push(more@[i - 1]));
    }
    assert(more@.take(more.len() as int) == more@);
}

/// The characters `s[from..to]`.
pub fn slice_of(s: &[char], from: usize, to: usize) -> (r: Vec<char>)
    requires
        from <= to <= s.len(),
    ensures
        r@ == s@.subrange(from as int, to as int),
{
    let mut r: Vec<char> = Vec::new();
    let mut i = from;
    while i < to
        invariant
            from <= i <= to <= s.len(),
            r@ == s@.subrange(from as int, i as int),
        decreases to - i,
    {
        r.push(s[i]);
        i = i + 1;
    }
    r
}

pub fn split_once(s: &[char], p: &[char]) -> (r: Option<(Vec<char>, Vec<char>)>)
    ensures
        match r {
            Some((a, b)) => split_once_seq(s@, p@) == Some((a@, b@)),
            None => split_once_seq(s@, p@) is None,
        },
{
    match find(s, p) {
        Some(i) => {
            proof {
                lemma_find_from(s@, p@, 0);
                assert(matches_at(s@, p@, i as int));
            }
            let plen = p.len();
            assert(plen == p@.len());
            assert(i + plen <= s.len());
            let a = slice_of(s, 0, i);
            let b = slice_of(s, i + p.len(), s.len());
            assert(a@ == s@.take(i as int));
            assert(b@ == s@.skip(i + p.len()));
            Some((a, b))
        },
        None => None,
    }
}

pub fn rsplit_once(s: &[char], p: &[char]) -> (r: Option<(Vec<char>, Vec<char>)>)
    ensures
        match r {
            Some((a, b)) => rsplit_once_seq(s@, p@) == Some((a@, b@)),
            None => rsplit_once_seq(s@, p@) is None,
        },
{
    match rfind(s, p) {
        Some(i) => {
            proof {
                lemma_rfind_from(s@, p@, s@.len() - p@.len());
                assert(matches_at(s@, p@, i as int));
            }
            let plen = p.len();
            assert(plen == p@.len());
            assert(i + plen <= s.len());
            let a = slice_of(s, 0, i);
            let b = slice_of(s, i + p.len(), s.len());
            assert(a@ == s@.take(i as int));
            assert(b@ == s@.skip(i + p.len()));
            Some((a, b))
        },
        None => None,
    }
}

pub fn starts_with(s: &[char], p: &[char]) -> (r: bool)
    ensures
        r == starts_with_seq(s@, p@),
{
    if p.len() > s.len() {
        return false;
    }
    let r = matches_here(s, p, 0);
    assert(s@.subrange(0, p.len() as int) == s@.take(p.len() as int));
    r
}

pub fn ends_with(s: &[char], p: &[char]) -> (r: bool)
    ensures
        r == ends_with_seq(s@, p@),
{
    if p.len() > s.len() {
        return false;
    }
    let r = matches_here(s, p, s.len() - p.len());
    assert(s@.subrange(s.len() - p.len(), s.len() as int) == s@.skip(s.len() - p.len()));
    r
}

pub fn strip_prefix(s: &[char], p: &[char]) -> (r: Option<Vec<char>>)
    ensures
        match r {
            Some(a) => strip_prefix_seq(s@, p@) == Some(a@),
            None => strip_prefix_seq(s@, p@) is None,
        },
{
    if starts_with(s, p) {
        let a = slice_of(s, p.len(), s.len());
        Some(a)
    } else {
        None
    }
}

pub fn strip_suffix(s: &[char], p: &[char]) -> (r: Option<Vec<char>>)
    ensures
        match r {
            Some(a) => strip_suffix_seq(s@, p@) == Some(a@),
            None => strip_suffix_seq(s@, p@) is None,
        },
{
    if ends_with(s, p) {
        let a = slice_of(s, 0, s.len() - p.len());
        Some(a)
    } else {
        None
    }
}

pub fn contains(s: &[char], p: &[char]) -> (r: bool)
    ensures
        r == contains_seq(s@, p@),
{
    find(s, p).is_some()
}

pub fn same(a: &[char], b: &[char]) -> (r: bool)
    ensures
        r == (a@ == b@),
{
    if a.len() != b.len() {
        return false;
    }
    let r = matches_here(a, b, 0);
    assert(a@.subrange(0, b.len() as int) == a@);
    r
}

/// The first position at or after `k` holding a character of `set`, or
/// the length of `s` when there is none.
pub open spec fn first_in(s: Seq<char>, set: Seq<char>, k: int) -> int
    decreases s.len() - k,
{
    if k < 0 || k >= s.len() {
        s.len() as int
    } else if set.contains(s[k]) {
        k
    } else {
        first_in(s, set, k + 1)
    }
}

/// The first position in `s` holding a character of `set`, or its length.
pub fn first_of(s: &[char], set: &[char]) -> (k: usize)
    ensures
        k == first_in(s@, set@, 0),
        k <= s.len(),
{
    let mut k: usize = 0;
    while k < s.len()
        invariant
            k <= s.len(),
            first_in(s@, set@, 0) == first_in(s@, set@, k as int),
        decreases s.len() - k,
    {
        if contains_char(set, s[k]) {
            return k;
        }
        k = k + 1;
    }
    k
}

// ---------------------------------------------------------------------------
// Trimming
// ---------------------------------------------------------------------------

/// What `str::trim_start` gives.
pub open spec fn trim_start_seq(s: Seq<char>) -> Seq<char>
    decreases s.len(),
{
    if s.len() > 0 && is_ws(s[0]) {
        trim_start_seq(s.drop_first())
    } else {
        s
    }
}

/// What `str::trim_end` gives.
pub open spec fn trim_end_seq(s: Seq<char>) -> Seq<char>
    decreases s.len(),
{
    if s.len() > 0 && is_ws(s.last()) {
        trim_end_seq(s.drop_last())
    } else {
        s
    }
}

/// What `str::trim` gives.
pub open spec fn trim_seq(s: Seq<char>) -> Seq<char> {
    trim_end_seq(trim_start_seq(s))
}

/// What `str::trim_end_matches` gives for a set of characters.
pub open spec fn trim_end_any_seq(s: Seq<char>, set: Seq<char>) -> Seq<char>
    decreases s.len(),
{
    if s.len() > 0 && set.contains(s.last()) {
        trim_end_any_seq(s.drop_last(), set)
    } else {
        s
    }
}

/// What `trim_end_matches` cut off is a run of characters of the set,
/// and what it left does not end with one.
pub proof fn lemma_trim_end_any_parts(s: Seq<char>, set: Seq<char>) -> (cut: Seq<char>)
    ensures
        s == trim_end_any_seq(s, set) + cut,
        forall|i: int| 0 <= i < cut.len() ==> set.contains(#[trigger] cut[i]),
        trim_end_any_seq(s, set).len() == 0 || !set.contains(trim_end_any_seq(s, set).last()),
    decreases s.len(),
{
    if s.len() > 0 && set.contains(s.last()) {
        let c = lemma_trim_end_any_parts(s.drop_last(), set);
        let cut = c.push(s.last());
        let t = trim_end_any_seq(s, set);
        assert(t == trim_end_any_seq(s.drop_last(), set));
        assert(s.drop_last() == t + c);
        assert(s =~= s.drop_last().push(s.last()));
        assert(s =~= t + cut);
        assert forall|i: int| 0 <= i < cut.len() implies set.contains(#[trigger] cut[i]) by {
            if i < c.len() {
                assert(cut[i] == c[i]);
            }
        }
        cut
    } else {
        assert(s =~= s + Seq::<char>::empty());
        Seq::empty()
    }
}

/// `s` is empty or holds only whitespace.
pub open spec fn is_blank(s: Seq<char>) -> bool {
    trim_seq(s).len() == 0
}

pub proof fn lemma_trim_start_skip(s: Seq<char>, k: int)
    requires
        0 <= k <= s.len(),
        forall|t: int| 0 <= t < k ==> is_ws(#[trigger] s[t]),
    ensures
        trim_start_seq(s) == trim_start_seq(s.skip(k)),
    decreases k,
{
    if k > 0 {
        assert(s.drop_first().skip(k - 1) == s.skip(k));
        lemma_trim_start_skip(s.drop_first(), k - 1);
    } else {
        assert(s.skip(0) == s);
    }
}

pub proof fn lemma_trim_end_take(s: Seq<char>, k: int)
    requires
        0 <= k <= s.len(),
        forall|t: int| k <= t < s.len() ==> is_ws(#[trigger] s[t]),
    ensures
        trim_end_seq(s) == trim_end_seq(s.take(k)),
    decreases s.len() - k,
{
    if k < s.len() {
        assert(s.drop_last().take(k) == s.take(k));
        lemma_trim_end_take(s.drop_last(), k);
    } else {
        assert(s.take(k) == s);
    }
}

pub proof fn lemma_trim_end_any_take(s: Seq<char>, set: Seq<char>, k: int)
    requires
        0 <= k <= s.len(),
        forall|t: int| k <= t < s.len() ==> set.contains(#[trigger] s[t]),
    ensures
        trim_end_any_seq(s, set) == trim_end_any_seq(s.take(k), set),
    decreases s.len() - k,
{
    if k < s.len() {
        assert(s.drop_last().take(k) == s.take(k));
        lemma_trim_end_any_take(s.drop_last(), set, k);
    } else {
        assert(s.take(k) == s);
    }
}

pub fn trim_start(s: &[char]) -> (r: Vec<char>)
    ensures
        r@ == trim_start_seq(s@),
{
    let mut k: usize = 0;
    while k < s.len() && is_whitespace(s[k])
        invariant
            k <= s.len(),
            forall|t: int| 0 <= t < k ==> is_ws(#[trigger] s@[t]),
        decreases s.len() - k,
    {
        k = k + 1;
    }
    proof {
        lemma_trim_start_skip(s@, k as int);
    }
    slice_of(s, k, s.len())
}

pub fn trim_end(s: &[char]) -> (r: Vec<char>)
    ensures
        r@ == trim_end_seq(s@),
{
    let mut k: usize = s.len();
    while k > 0 && is_whitespace(s[k - 1])
        invariant
            k <= s.len(),
            forall|t: int| k <= t < s.len() ==> is_ws(#[trigger] s@[t]),
        decreases k,
    {
        k = k - 1;
    }
    proof {
        lemma_trim_end_take(s@, k as int);
        let t = s@.take(k as int);
        if t.len() > 0 {
            assert(t.last() == s@[k - 1]);
        }
    }
    slice_of(s, 0, k)
}

pub fn trim(s: &[char]) -> (r: Vec<char>)
    ensures
        r@ == trim_seq(s@),
{
    let a = trim_start(s);
    trim_end(a.as_slice())
}

pub fn trim_end_any(s: &[char], set: &[char]) -> (r: Vec<char>)
    ensures
        r@ == trim_end_any_seq(s@, set@),
{
    let mut k: usize = s.len();
    while k > 0 && contains_char(set, s[k - 1])
        invariant
            k <= s.len(),
            forall|t: int| k <= t < s.len() ==> set@.contains(#[trigger] s@[t]),
        decreases k,
    {
        k = k - 1;
    }
    proof {
        lemma_trim_end_any_take(s@, set@, k as int);
        let t = s@.take(k as int);
        if t.len() > 0 {
            assert(t.last() == s@[k - 1]);
        }
    }
    slice_of(s, 0, k)
}

pub fn contains_char(s: &[char], c: char) -> (r: bool)
    ensures
        r == s@.contains(c),
{
    let mut i: usize = 0;
    while i < s.len()
        invariant
            i <= s.len(),
            forall|t: int| 0 <= t < i ==> s@[t] != c,
        decreases s.len() - i,
    {
        if s[i] == c {
            assert(s@[i as int] == c);
            return true;
        }
        i = i + 1;
    }
    false
}

pub fn is_blank_chars(s: &[char]) -> (r: bool)
    ensures
        r == is_blank(s@),
{
    let t = trim(s);
    t.len() == 0
}

// ---------------------------------------------------------------------------
// Lowercasing
// ---------------------------------------------------------------------------

pub open spec fn lower_seq(s: Seq<char>) -> Seq<char> {
    s.map_values(|c: char| ascii_lower(c))
}

/// What `str::to_ascii_lowercase` gives.
pub fn lowercase(s: &[char]) -> (r: Vec<char>)
    ensures
        r@ == lower_seq(s@),
{
    let mut r: Vec<char> = Vec::new();
    let mut i: usize = 0;
    while i < s.len()
        invariant
            i <= s.len(),
            r@ == lower_seq(s@.take(i as int)),
        decreases s.len() - i,
    {
        r.push(to_ascii_lowercase(s[i]));
        i = i + 1;
        assert(lower_seq(s@.take(i as int)) =~= lower_seq(s@.take(i - 1)).push(
            ascii_lower(s@[i - 1]),
        ));
    }
    assert(s@.take(s.len() as int) == s@);
    r
}

// ---------------------------------------------------------------------------
// Numbers
// ---------------------------------------------------------------------------

pub open spec fn all_digits(s: Seq<char>) -> bool {
    forall|i: int| 0 <= i < s.len() ==> is_digit(#[trigger] s[i])
}

/// The number the decimal digits `s` spell.
pub open spec fn digits_value(s: Seq<char>) -> nat
    decreases s.len(),
{
    if s.len() == 0 {
        0
    } else {
        digits_value(s.drop_last()) * 10 + ((s.last() as u32) - ('0' as u32)) as nat
    }
}

/// The digits `str::parse::<u32>` reads: an optional `+`, then the rest.
pub open spec fn unsigned_body(s: Seq<char>) -> Seq<char> {
    if s.len() > 0 && s[0] == '+' {
        s.drop_first()
    } else {
        s
    }
}

/// What `str::parse::<u32>` gives.
pub open spec fn parse_u32_seq(s: Seq<char>) -> Option<u32> {
    let body = unsigned_body(s);
    if body.len() > 0 && all_digits(body) && digits_value(body) <= u32::MAX {
        Some(digits_value(body) as u32)
    } else {
        None
    }
}

proof fn lemma_digits_value_grows(s: Seq<char>, k: int)
    requires
        0 <= k <= s.len(),
        all_digits(s),
    ensures
        digits_value(s.take(k)) <= digits_value(s),
    decreases s.len(),
{
    if k < s.len() {
        assert(s.drop_last().take(k) == s.take(k));
        assert(all_digits(s.drop_last()));
        lemma_digits_value_grows(s.drop_last(), k);
    } else {
        assert(s.take(k) == s);
    }
}

pub fn parse_u32(s: &[char]) -> (r: Option<u32>)
    ensures
        r == parse_u32_seq(s@),
{
    let start: usize = if s.len() > 0 && s[0] == '+' {
        1
    } else {
        0
    };
    let ghost body = unsigned_body(s@);
    assert(body == s@.skip(start as int));
    if start >= s.len() {
        return None;
    }
    let mut value: u64 = 0;
    let mut i = start;
    while i < s.len()
        invariant
            start <= i <= s.len(),
            body == s@.skip(start as int),
            body == unsigned_body(s@),
            forall|t: int| start <= t < i ==> is_digit(#[trigger] s@[t]),
            value == digits_value(body.take(i - start)),
            value <= u32::MAX,
        decreases s.len() - i,
    {
        let c = s[i];
        if !is_ascii_digit(c) {
            assert(body[i - start] == c);
            assert(!is_digit(body[i - start]));
            return None;
        }
        let d = (c as u32 - '0' as u32) as u64;
        let next = value * 10 + d;
        assert(body.take(i - start + 1).drop_last() == body.take(i - start));
        assert(body.take(i - start + 1).last() == c);
        if next > u32::MAX as u64 {
            proof {
                if all_digits(body) {
                    lemma_digits_value_grows(body, i - start + 1);
                }
            }
            return None;
        }
        value = next;
        i = i + 1;
    }
    assert(body.take(i - start) == body);
    assert(all_digits(body)) by {
        assert forall|t: int| 0 <= t < body.len() implies is_digit(#[trigger] body[t]) by {
            assert(body[t] == s@[start + t]);
        }
    }
    Some(value as u32)
}

// ---------------------------------------------------------------------------
// Pieces and lines
// ---------------------------------------------------------------------------

/// The pieces `str::split(sep)` cuts `s` into, read left to right.
pub open spec fn pieces_by(s: Seq<char>, sep: char) -> Seq<Seq<char>>
    decreases s.len(),
{
    if s.len() == 0 {
        seq![Seq::empty()]
    } else {
        let before = pieces_by(s.drop_last(), sep);
        if s.last() == sep {
            before.push(Seq::empty())
        } else {
            before.update(before.len() - 1, before.last().push(s.last()))
        }
    }
}

pub proof fn lemma_pieces_nonempty(s: Seq<char>, sep: char)
    ensures
        pieces_by(s, sep).len() >= 1,
    decreases s.len(),
{
    if s.len() > 0 {
        lemma_pieces_nonempty(s.drop_last(), sep);
    }
}

/// A line without the carriage return of a `\r\n` ending.
pub open spec fn strip_cr(p: Seq<char>) -> Seq<char> {
    if p.len() > 0 && p.last() == '\r' {
        p.drop_last()
    } else {
        p
    }
}

/// What `str::lines` gives: the text cut at each `\n`, a `\r` before it
/// dropped, and no empty line after a final newline.
pub open spec fn lines_of(s: Seq<char>) -> Seq<Seq<char>> {
    let p = pieces_by(s, '\n');
    let done = p.drop_last().map_values(|q: Seq<char>| strip_cr(q));
    if p.last().len() == 0 {
        done
    } else {
        done.push(p.last())
    }
}

pub open spec fn chars_view(v: Seq<Vec<char>>) -> Seq<Seq<char>> {
    v.map_values(|x: Vec<char>| x@)
}

/// The lines of `s`, as `str::lines` gives them.
pub fn split_lines(s: &[char]) -> (r: Vec<Vec<char>>)
    ensures
        chars_view(r@) == lines_of(s@),
{
    let mut done: Vec<Vec<char>> = Vec::new();
    let mut cur: Vec<char> = Vec::new();
    let ghost raw: Seq<Seq<char>> = Seq::empty();
    let mut i: usize = 0;
    while i < s.len()
        invariant
            i <= s.len(),
            pieces_by(s@.take(i as int), '\n') == raw.push(cur@),
            chars_view(done@) == raw.map_values(|q: Seq<char>| strip_cr(q)),
            done@.len() == raw.len(),
        decreases s.len() - i,
    {
        proof {
            assert(s@.take(i as int + 1).drop_last() == s@.take(i as int));
            assert(s@.take(i as int + 1).last() == s@[i as int]);
        }
        let c = s[i];
        if c == '\n' {
            let stripped = if cur.len() > 0 && cur[cur.len() - 1] == '\r' {
                slice_of(cur.as_slice(), 0, cur.len() - 1)
            } else {
                slice_of(cur.as_slice(), 0, cur.len())
            };
            proof {
                assert(stripped@ == strip_cr(cur@));
            }
            let ghost old_done = done@;
            done.push(stripped);
            proof {
                let r2 = raw.push(cur@);
                assert(chars_view(done@) =~= r2.map_values(|q: Seq<char>| strip_cr(q))) by {
                    assert(chars_view(done@).len() == r2.len());
                    assert forall|k: int| 0 <= k < r2.len() implies chars_view(done@)[k]
                        == r2.map_values(|q: Seq<char>| strip_cr(q))[k] by {
                        if k < raw.len() {
                            assert(done@[k] == old_done[k]);
                            assert(chars_view(old_done)[k] == raw.map_values(
                                |q: Seq<char>| strip_cr(q),
                            )[k]);
                        }
                    }
                }
                raw = r2;
            }
            cur = Vec::new();
            assert(pieces_by(s@.take(i as int + 1), '\n') == raw.push(cur@));
        } else {
            cur.push(c);
        }
        i = i + 1;
    }
    assert(s@.take(s.len() as int) == s@);
    proof {
        let p = pieces_by(s@, '\n');
        assert(p.drop_last() == raw);
        assert(p.last() == cur@);
    }
    if cur.len() > 0 {
        let ghost old_done = done@;
        done.push(cur);
        proof {
            let p = pieces_by(s@, '\n');
            let want = raw.map_values(|q: Seq<char>| strip_cr(q)).push(p.last());
            assert(chars_view(done@) =~= want) by {
                assert forall|k: int| 0 <= k < want.len() implies chars_view(done@)[k]
                    == want[k] by {
                    if k < raw.len() {
                        assert(done@[k] == old_done[k]);
                        assert(chars_view(old_done)[k] == raw.map_values(
                            |q: Seq<char>| strip_cr(q),
                        )[k]);
                    }
                }
            }
        }
    }
    done
}

// ---------------------------------------------------------------------------
// Numbers as text
// ---------------------------------------------------------------------------

pub open spec fn digit_char(d: nat) -> char {
    seq!['0', '1', '2', '3', '4', '5', '6', '7', '8', '9'][d as int]
}

/// `n` written in decimal, as `format!("{n}")` writes it.
pub open spec fn decimal(n: nat) -> Seq<char>
    decreases n,
{
    if n < 10 {
        seq![digit_char(n)]
    } else {
        decimal(n / 10).push(digit_char(n % 10))
    }
}

/// `n` written in decimal.
pub fn decimal_chars(n: u64) -> (r: Vec<char>)
    ensures
        r@ == decimal(n as nat),
    decreases n,
{
    let table = ['0', '1', '2', '3', '4', '5', '6', '7', '8', '9'];
    assert(table@ == seq!['0', '1', '2', '3', '4', '5', '6', '7', '8', '9']);
    if n < 10 {
        let mut r: Vec<char> = Vec::new();
        r.push(table[n as usize]);
        assert(r@ == seq![digit_char(n as nat)]);
        r
    } else {
        let mut r = decimal_chars(n / 10);
        r.push(table[(n % 10) as usize]);
        r
    }
}

// ---------------------------------------------------------------------------
// Strings
// ---------------------------------------------------------------------------

/// The characters of `s`, in order.
pub fn chars_of(s: &str) -> (out: Vec<char>)
    ensures
        out@ == s@,
{
    broadcast use vstd::string::group_string_axioms;

    let mut out: Vec<char> = Vec::new();
    for c in it: s.chars()
        invariant
            out@ == it.seq().take(it.index() as int),
            it.seq() == s@,
    {
        out.push(c);
    }
    out
}

/// Appends one character to a string: `String::push`.
#[verifier::external_body]
pub(crate) fn push_char(s: &mut String, c: char)
    ensures
        final(s)@ == old(s)@.push(c),
{
    s.push(c)
}

/// A string holding the characters `cs`.
pub fn string_of(cs: &[char]) -> (s: String)
    ensures
        s@ == cs@,
{
    let mut s = String::new();
    let mut i: usize = 0;
    while i < cs.len()
        invariant
            i <= cs.len(),
            s@ == cs@.take(i as int),
        decreases cs.len() - i,
    {
        push_char(&mut s, cs[i]);
        i = i + 1;
        assert(cs@.take(i as int) == cs@.take(i - 1).push(cs@[i - 1]));
    }
    assert(cs@.take(cs.len() as int) == cs@);
    s
}

/// A string holding the characters of `s`.
pub fn owned(s: &str) -> (r: String)
    ensures
        r@ == s@,
{
    let cs = chars_of(s);
    string_of(cs.as_slice())
}

/// What `{:?}` writes for a string: the string in double quotes, with
/// quotes, backslashes and unprintable characters escaped.
pub uninterp spec fn debug_form(s: Seq<char>) -> Seq<char>;

/// `<str as Debug>::fmt`, through `format!("{:?}")`. Its contract names the
/// text and says that it is quoted; the escaping rules are not restated.
#[verifier::external_body]
pub(crate) fn debug_quoted(s: &str) -> (r: String)
    ensures
        r@ == debug_form(s@),
        r@.len() >= 2,
        r@[0] == '"',
        r@.last() == '"',
{
    format!("{:?}", s)
}

/// Appends the characters of `more` to `s`.
pub fn push_all(s: &mut String, more: &[char])
    ensures
        final(s)@ == old(s)@ + more@,
{
    let ghost start = s@;
    let mut i: usize = 0;
    while i < more.len()
        invariant
            i <= more.len(),
            s@ == start + more@.take(i as int),
        decreases more.len() - i,
    {
        push_char(s, more[i]);
        i = i + 1;
        assert(more@.take(i as int) == more@.take(i - 1).push(more@[i - 1]));
    }
    assert(more@.take(more.len() as int) == more@);
}

/// Appends the characters of `more` to `s`.
pub fn push_str(s: &mut String, more: &str)
    ensures
        final(s)@ == old(s)@ + more@,
{
    let cs = chars_of(more);
    push_all(s, cs.as_slice());
}

} // verus!
