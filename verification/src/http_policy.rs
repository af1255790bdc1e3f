//! The one place the network allowlist lives: which URLs a request may go
//! to, and why the others are refused.
use vstd::prelude::*;

use crate::order::{
    copy_string, insert_sorted, holds_string, strictly_sorted, strings_view,
};
use crate::text::{
    chars_of, first_in, first_of, lower_seq, lowercase, owned, rsplit_once, rsplit_once_seq, same, slice_of, split_once, split_once_seq, string_of, strip_prefix, strip_prefix_seq, trim, trim_seq,
};

verus! {

/// Why a URL may not be requested.
#[derive(Debug, PartialEq, Eq)]
pub enum PolicyError {
    NetworkDisabled,
    HostNotAllowed { host: String },
    NoHost { url: String },
    BadScheme { url: String, scheme: String },
}

/// A [`PolicyError`] as characters.
pub enum PolicyErrorView {
    NetworkDisabled,
    HostNotAllowed { host: Seq<char> },
    NoHost { url: Seq<char> },
    BadScheme { url: Seq<char>, scheme: Seq<char> },
}

impl View for PolicyError {
    type V = PolicyErrorView;

    open spec fn view(&self) -> PolicyErrorView {
        match self {
            PolicyError::NetworkDisabled => PolicyErrorView::NetworkDisabled,
            PolicyError::HostNotAllowed { host } => PolicyErrorView::HostNotAllowed { host: host@ },
            PolicyError::NoHost { url } => PolicyErrorView::NoHost { url: url@ },
            PolicyError::BadScheme { url, scheme } => PolicyErrorView::BadScheme {
                url: url@,
                scheme: scheme@,
            },
        }
    }
}

/// What a [`PolicyError`] says.
pub open spec fn policy_error_text(e: PolicyErrorView) -> Seq<char> {
    match e {
        PolicyErrorView::NetworkDisabled => "network is disabled"@,
        PolicyErrorView::HostNotAllowed { host } => "host "@ + crate::text::debug_form(host)
            + " is not allowed"@,
        PolicyErrorView::NoHost { url } => "url "@ + crate::text::debug_form(url) + " has no host"@,
        PolicyErrorView::BadScheme { url, scheme } => "url "@ + crate::text::debug_form(url)
            + " uses scheme "@ + crate::text::debug_form(scheme),
    }
}

impl PolicyError {
    /// The error as a sentence.
    pub fn message(&self) -> (r: String)
        ensures
            r@ == policy_error_text(self@),
    {
        match self {
            PolicyError::NetworkDisabled => crate::text::owned("network is disabled"),
            PolicyError::HostNotAllowed { host } => {
                let mut r = crate::text::owned("host ");
                let q = crate::text::debug_quoted(host.as_str());
                crate::text::push_str(&mut r, q.as_str());
                crate::text::push_str(&mut r, " is not allowed");
                r
            },
            PolicyError::NoHost { url } => {
                let mut r = crate::text::owned("url ");
                let q = crate::text::debug_quoted(url.as_str());
                crate::text::push_str(&mut r, q.as_str());
                crate::text::push_str(&mut r, " has no host");
                r
            },
            PolicyError::BadScheme { url, scheme } => {
                let mut r = crate::text::owned("url ");
                let q = crate::text::debug_quoted(url.as_str());
                crate::text::push_str(&mut r, q.as_str());
                crate::text::push_str(&mut r, " uses scheme ");
                let q2 = crate::text::debug_quoted(scheme.as_str());
                crate::text::push_str(&mut r, q2.as_str());
                r
            },
        }
    }
}

/// Borrowed strings as characters.
pub open spec fn strs_view(v: Seq<&str>) -> Seq<Seq<char>> {
    v.map_values(|s: &str| s@)
}

/// The result of a check, as characters.
pub open spec fn check_view(r: Result<(), PolicyError>) -> Result<(), PolicyErrorView> {
    match r {
        Ok(()) => Ok(()),
        Err(e) => Err(e@),
    }
}

// ---------------------------------------------------------------------------
// Reading a URL
// ---------------------------------------------------------------------------

pub open spec fn scheme_sep() -> Seq<char> {
    "://"@
}

/// The scheme of `url`, lowercased, or `None` when it has no `://` or
/// nothing before it.
pub open spec fn scheme_in(url: Seq<char>) -> Option<Seq<char>> {
    match split_once_seq(url, scheme_sep()) {
        Some((scheme, _)) => if scheme.len() == 0 {
            None
        } else {
            Some(lower_seq(scheme))
        },
        None => None,
    }
}

/// The authority of `url`: what follows `://`, up to the first `/`, `?` or
/// `#`.
pub open spec fn authority_in(rest: Seq<char>) -> Seq<char> {
    rest.take(first_in(rest, seq!['/', '?', '#'], 0))
}

/// The host and port of an authority, past any `user@`.
pub open spec fn host_and_port(authority: Seq<char>) -> Seq<char> {
    match rsplit_once_seq(authority, seq!['@']) {
        Some((_, after)) => after,
        None => authority,
    }
}

/// The host of a host and port: inside brackets for an IPv6 literal,
/// before the first `:` otherwise.
pub open spec fn bare_host(hostport: Seq<char>) -> Option<Seq<char>> {
    match strip_prefix_seq(hostport, seq!['[']) {
        Some(end) => match split_once_seq(end, seq![']']) {
            Some((inner, _)) => Some(inner),
            None => None,
        },
        None => match split_once_seq(hostport, seq![':']) {
            Some((h, _)) => Some(h),
            None => Some(hostport),
        },
    }
}

/// The host of `url`, lowercased, or `None` when it names none.
pub open spec fn host_in(url: Seq<char>) -> Option<Seq<char>> {
    match split_once_seq(url, scheme_sep()) {
        None => None,
        Some((_, rest)) => match bare_host(host_and_port(authority_in(rest))) {
            None => None,
            Some(host) => if host.len() == 0 {
                None
            } else {
                Some(lower_seq(host))
            },
        },
    }
}

fn no_host(url: &str) -> (e: PolicyError)
    ensures
        e@ == (PolicyErrorView::NoHost { url: url@ }),
{
    PolicyError::NoHost { url: owned(url) }
}

/// The scheme of `url`, lowercased.
pub fn scheme_of(url: &str) -> (r: Result<String, PolicyError>)
    ensures
        match r {
            Ok(s) => scheme_in(url@) == Some(s@),
            Err(e) => scheme_in(url@) is None && e@ == (PolicyErrorView::NoHost { url: url@ }),
        },
{
    let cs = chars_of(url);
    let sep = chars_of("://");
    let (scheme, _) = match split_once(cs.as_slice(), sep.as_slice()) {
        Some(found) => found,
        None => return Err(no_host(url)),
    };
    if scheme.len() == 0 {
        return Err(no_host(url));
    }
    let lower = lowercase(scheme.as_slice());
    Ok(string_of(lower.as_slice()))
}

/// The host of `url`, lowercased.
pub fn host_of(url: &str) -> (r: Result<String, PolicyError>)
    ensures
        match r {
            Ok(h) => host_in(url@) == Some(h@),
            Err(e) => host_in(url@) is None && e@ == (PolicyErrorView::NoHost { url: url@ }),
        },
{
    let cs = chars_of(url);
    let sep = chars_of("://");
    let (_, rest) = match split_once(cs.as_slice(), sep.as_slice()) {
        Some(found) => found,
        None => return Err(no_host(url)),
    };
    let stops: Vec<char> = vec!['/', '?', '#'];
    assert(stops@ == seq!['/', '?', '#']);
    let end = first_of(rest.as_slice(), stops.as_slice());
    let authority = slice_of(rest.as_slice(), 0, end);
    assert(authority@ == authority_in(rest@));
    let at: Vec<char> = vec!['@'];
    assert(at@ == seq!['@']);
    let hostport = match rsplit_once(authority.as_slice(), at.as_slice()) {
        Some((_, after)) => after,
        None => authority,
    };
    let open: Vec<char> = vec!['['];
    assert(open@ == seq!['[']);
    let host = match strip_prefix(hostport.as_slice(), open.as_slice()) {
        Some(end) => {
            let close: Vec<char> = vec![']'];
            assert(close@ == seq![']']);
            match split_once(end.as_slice(), close.as_slice()) {
                Some((inner, _)) => inner,
                None => return Err(no_host(url)),
            }
        },
        None => {
            let colon: Vec<char> = vec![':'];
            assert(colon@ == seq![':']);
            match split_once(hostport.as_slice(), colon.as_slice()) {
                Some((h, _)) => h,
                None => hostport,
            }
        },
    };
    if host.len() == 0 {
        return Err(no_host(url));
    }
    let lower = lowercase(host.as_slice());
    Ok(string_of(lower.as_slice()))
}

// ---------------------------------------------------------------------------
// The allowlist
// ---------------------------------------------------------------------------

/// The pieces `str::split(',')` cuts `s` into, read left to right.
pub open spec fn comma_pieces(s: Seq<char>) -> Seq<Seq<char>>
    decreases s.len(),
{
    if s.len() == 0 {
        seq![Seq::empty()]
    } else {
        let before = comma_pieces(s.drop_last());
        if s.last() == ',' {
            before.push(Seq::empty())
        } else {
            before.update(before.len() - 1, before.last().push(s.last()))
        }
    }
}

/// An allowlist entry as it is compared: trimmed and lowercased.
pub open spec fn clean_host(piece: Seq<char>) -> Seq<char> {
    lower_seq(trim_seq(piece))
}

/// `host` is one of the comma-separated entries of `list`.
pub open spec fn listed(list: Seq<char>, host: Seq<char>) -> bool {
    host.len() > 0 && exists|i: int|
        0 <= i < comma_pieces(list).len() && clean_host(#[trigger] comma_pieces(list)[i]) == host
}

proof fn lemma_comma_pieces_nonempty(s: Seq<char>)
    ensures
        comma_pieces(s).len() >= 1,
    decreases s.len(),
{
    if s.len() > 0 {
        lemma_comma_pieces_nonempty(s.drop_last());
    }
}

/// Who may be reached: a master switch, and an allowlist that applies when
/// unlisted hosts are blocked.
#[derive(Debug)]
pub struct NetworkPolicy {
    enabled: bool,
    block_unlisted: bool,
    allowed_hosts: Vec<String>,
}

impl NetworkPolicy {
    pub closed spec fn is_enabled(&self) -> bool {
        self.enabled
    }

    pub closed spec fn blocks_unlisted(&self) -> bool {
        self.block_unlisted
    }

    /// The allowed hosts, in the order `String` sorts by.
    pub closed spec fn hosts(&self) -> Seq<Seq<char>> {
        strings_view(self.allowed_hosts@)
    }

    /// The allowed hosts are sorted and none appears twice.
    pub open spec fn wf(&self) -> bool {
        strictly_sorted(self.hosts())
    }

    /// Every policy keeps its hosts sorted, none twice.
    #[verifier::type_invariant]
    spec fn hosts_sorted(&self) -> bool {
        strictly_sorted(strings_view(self.allowed_hosts@))
    }

    /// What checking `url` gives.
    pub open spec fn verdict(&self, url: Seq<char>) -> Result<(), PolicyErrorView> {
        if !self.is_enabled() {
            Err(PolicyErrorView::NetworkDisabled)
        } else {
            match scheme_in(url) {
                None => Err(PolicyErrorView::NoHost { url }),
                Some(scheme) => if scheme != "http"@ && scheme != "https"@ {
                    Err(PolicyErrorView::BadScheme { url, scheme })
                } else {
                    match host_in(url) {
                        None => Err(PolicyErrorView::NoHost { url }),
                        Some(host) => if !self.blocks_unlisted() || self.hosts().contains(host) {
                            Ok(())
                        } else {
                            Err(PolicyErrorView::HostNotAllowed { host })
                        },
                    }
                },
            }
        }
    }

    /// A policy from its two switches and a comma-separated list of hosts;
    /// blank entries are dropped, the rest trimmed and lowercased.
    pub fn new(enabled: bool, block_unlisted: bool, allowed_hosts: &str) -> (p: Self)
        ensures
            p.wf(),
            p.is_enabled() == enabled,
            p.blocks_unlisted() == block_unlisted,
            forall|h: Seq<char>| p.hosts().contains(h) <==> listed(allowed_hosts@, h),
    {
        let cs = chars_of(allowed_hosts);
        let mut hosts: Vec<String> = Vec::new();
        let mut piece: Vec<char> = Vec::new();
        let mut i: usize = 0;
        let ghost done: Seq<Seq<char>> = Seq::empty();
        while i < cs.len()
            invariant
                i <= cs.len(),
                cs@ == allowed_hosts@,
                strictly_sorted(strings_view(hosts@)),
                comma_pieces(cs@.take(i as int)) == done.push(piece@),
                forall|h: Seq<char>|
                    strings_view(hosts@).contains(h) <==> (h.len() > 0 && exists|k: int|
                        0 <= k < done.len() && clean_host(#[trigger] done[k]) == h),
            decreases cs.len() - i,
        {
            let c = cs[i];
            proof {
                assert(cs@.take(i as int + 1).drop_last() == cs@.take(i as int));
                assert(cs@.take(i as int + 1).last() == c);
            }
            if c == ',' {
                Self::add(&mut hosts, piece.as_slice());
                proof {
                    let d2 = done.push(piece@);
                    assert forall|h: Seq<char>|
                        strings_view(hosts@).contains(h) <==> (h.len() > 0 && exists|k: int|
                            0 <= k < d2.len() && clean_host(#[trigger] d2[k]) == h) by {
                        if h.len() > 0 && clean_host(piece@) == h {
                            assert(d2[done.len() as int] == piece@);
                        }
                        if h.len() > 0 && exists|k: int|
                            0 <= k < d2.len() && clean_host(#[trigger] d2[k]) == h {
                            let k = choose|k: int|
                                0 <= k < d2.len() && clean_host(#[trigger] d2[k]) == h;
                            if k < done.len() {
                                assert(d2[k] == done[k]);
                            }
                        }
                        if h.len() > 0 && exists|k: int|
                            0 <= k < done.len() && clean_host(#[trigger] done[k]) == h {
                            let k = choose|k: int|
                                0 <= k < done.len() && clean_host(#[trigger] done[k]) == h;
                            assert(d2[k] == done[k]);
                        }
                    }
                    done = d2;
                }
                piece = Vec::new();
            } else {
                piece.push(c);
            }
            i = i + 1;
        }
        Self::add(&mut hosts, piece.as_slice());
        proof {
            assert(cs@.take(cs.len() as int) == cs@);
            let all = done.push(piece@);
            assert forall|h: Seq<char>|
                strings_view(hosts@).contains(h) <==> listed(allowed_hosts@, h) by {
                if h.len() > 0 && clean_host(piece@) == h {
                    assert(all[done.len() as int] == piece@);
                }
                if listed(allowed_hosts@, h) {
                    let k = choose|k: int|
                        0 <= k < all.len() && clean_host(#[trigger] all[k]) == h;
                    if k < done.len() {
                        assert(all[k] == done[k]);
                    }
                }
                if h.len() > 0 && exists|k: int|
                    0 <= k < done.len() && clean_host(#[trigger] done[k]) == h {
                    let k = choose|k: int|
                        0 <= k < done.len() && clean_host(#[trigger] done[k]) == h;
                    assert(all[k] == done[k]);
                }
            }
        }
        NetworkPolicy { enabled, block_unlisted, allowed_hosts: hosts }
    }

    /// Adds one allowlist entry, cleaned, unless it is blank.
    fn add(hosts: &mut Vec<String>, piece: &[char])
        requires
            strictly_sorted(strings_view(old(hosts)@)),
        ensures
            strictly_sorted(strings_view(final(hosts)@)),
            forall|h: Seq<char>|
                strings_view(final(hosts)@).contains(h) <==> (strings_view(old(hosts)@).contains(h)
                    || (h.len() > 0 && h == clean_host(piece@))),
    {
        let trimmed = trim(piece);
        let clean = lowercase(trimmed.as_slice());
        if clean.len() == 0 {
            return;
        }
        insert_sorted(hosts, clean.as_slice());
    }

    /// Whether `url` may be requested, and if not, why.
    pub fn check(&self, url: &str) -> (r: Result<(), PolicyError>)
        ensures
            check_view(r) == self.verdict(url@),
    {
        proof {
            use_type_invariant(self);
        }
        if !self.enabled {
            return Err(PolicyError::NetworkDisabled);
        }
        let scheme = match scheme_of(url) {
            Ok(s) => s,
            Err(e) => return Err(e),
        };
        let sc = chars_of(scheme.as_str());
        let http = chars_of("http");
        let https = chars_of("https");
        if !same(sc.as_slice(), http.as_slice()) && !same(sc.as_slice(), https.as_slice()) {
            return Err(PolicyError::BadScheme { url: owned(url), scheme });
        }
        let host = match host_of(url) {
            Ok(h) => h,
            Err(e) => return Err(e),
        };
        if !self.block_unlisted {
            return Ok(());
        }
        let hc = chars_of(host.as_str());
        if holds_string(&self.allowed_hosts, hc.as_slice()) {
            return Ok(());
        }
        Err(PolicyError::HostNotAllowed { host })
    }

    /// The allowed hosts, sorted.
    pub fn allowed_hosts(&self) -> (r: Vec<&str>)
        ensures
            strs_view(r@) == self.hosts(),
            strictly_sorted(strs_view(r@)),
    {
        proof {
            use_type_invariant(self);
        }
        let mut r: Vec<&str> = Vec::new();
        let mut i: usize = 0;
        while i < self.allowed_hosts.len()
            invariant
                i <= self.allowed_hosts.len(),
                strs_view(r@) == strings_view(self.allowed_hosts@).take(i as int),
                r@.len() == i,
            decreases self.allowed_hosts.len() - i,
        {
            let ghost before = r@;
            r.push(self.allowed_hosts[i].as_str());
            i = i + 1;
            proof {
                assert(r@ == before.push(r@[i - 1]));
                assert forall|j: int| 0 <= j < i implies strs_view(r@)[j] == strings_view(
                    self.allowed_hosts@,
                ).take(i as int)[j] by {
                    if j < i - 1 {
                        assert(strs_view(before)[j] == strs_view(r@)[j]);
                    }
                }
                assert(strs_view(r@) =~= strings_view(self.allowed_hosts@).take(i as int));
            }
        }
        assert(strings_view(self.allowed_hosts@).take(i as int) == strings_view(
            self.allowed_hosts@,
        ));
        r
    }

    /// An equal policy.
    pub fn duplicate(&self) -> (p: Self)
        ensures
            p.is_enabled() == self.is_enabled(),
            p.blocks_unlisted() == self.blocks_unlisted(),
            p.hosts() == self.hosts(),
            p.wf() == self.wf(),
    {
        proof {
            use_type_invariant(self);
        }
        let mut hosts: Vec<String> = Vec::new();
        let mut i: usize = 0;
        while i < self.allowed_hosts.len()
            invariant
                i <= self.allowed_hosts.len(),
                strings_view(hosts@) == strings_view(self.allowed_hosts@).take(i as int),
                hosts@.len() == i,
            decreases self.allowed_hosts.len() - i,
        {
            let ghost before = hosts@;
            hosts.push(copy_string(&self.allowed_hosts[i]));
            i = i + 1;
            proof {
                assert forall|j: int| 0 <= j < i implies strings_view(hosts@)[j] == strings_view(
                    self.allowed_hosts@,
                ).take(i as int)[j] by {
                    if j < i - 1 {
                        assert(hosts@[j] == before[j]);
                        assert(strings_view(before)[j] == strings_view(hosts@)[j]);
                    }
                }
                assert(strings_view(hosts@) =~= strings_view(self.allowed_hosts@).take(i as int));
            }
        }
        assert(strings_view(self.allowed_hosts@).take(i as int) == strings_view(
            self.allowed_hosts@,
        ));
        NetworkPolicy {
            enabled: self.enabled,
            block_unlisted: self.block_unlisted,
            allowed_hosts: hosts,
        }
    }
}

/// With unlisted hosts blocked, a URL passes only when the network is on,
/// its scheme is http or https, and its host is on the allowlist.
pub proof fn allowlist_is_enforced(policy: &NetworkPolicy, url: Seq<char>)
    requires
        policy.wf(),
        policy.blocks_unlisted(),
        policy.verdict(url) is Ok,
    ensures
        policy.is_enabled(),
        scheme_in(url) == Some("http"@) || scheme_in(url) == Some("https"@),
        host_in(url) is Some,
        policy.hosts().contains(host_in(url).unwrap()),
{
}

/// The master switch beats the allowlist: with the network off, every URL
/// is refused as disabled, whatever it names.
pub proof fn disabled_refuses_everything(policy: &NetworkPolicy, url: Seq<char>)
    requires
        !policy.is_enabled(),
    ensures
        policy.verdict(url) == Err::<(), PolicyErrorView>(PolicyErrorView::NetworkDisabled),
{
}

/// Nothing but http and https ever passes, even with the allowlist open.
pub proof fn only_web_schemes_pass(policy: &NetworkPolicy, url: Seq<char>)
    requires
        policy.verdict(url) is Ok,
    ensures
        scheme_in(url) == Some("http"@) || scheme_in(url) == Some("https"@),
        host_in(url) is Some,
{
}

/// The user agent sent when none is configured: the tool and its version.
pub const DEFAULT_USER_AGENT: &'static str = "poe-trader/0.1.0";

/// The user agent requests carry: the one configured, or the app's own
/// where the configured one is blank.
pub fn user_agent_or_default(user_agent: &str) -> (r: &str)
    ensures
        r@ == if crate::text::is_blank(user_agent@) {
            DEFAULT_USER_AGENT@
        } else {
            user_agent@
        },
{
    let cs = chars_of(user_agent);
    if crate::text::is_blank_chars(cs.as_slice()) {
        DEFAULT_USER_AGENT
    } else {
        user_agent
    }
}

/// The most redirects one request follows.
pub const MAX_REDIRECTS: usize = 10;

impl NetworkPolicy {
    /// Whether a redirect to `url` is followed after `previous` redirects:
    /// only to a URL the policy allows, and never more than
    /// [`MAX_REDIRECTS`] in a row.
    pub fn follows_redirect(&self, url: &str, previous: usize) -> (r: bool)
        ensures
            r == (self.verdict(url@) is Ok && previous < MAX_REDIRECTS),
    {
        if self.check(url).is_err() {
            return false;
        }
        previous < MAX_REDIRECTS
    }
}

// ---------------------------------------------------------------------------
// Responses
// ---------------------------------------------------------------------------

/// What came back from a request.
#[derive(Debug, Clone)]
pub struct HttpResponse {
    pub status: u16,
    pub headers: Vec<(String, String)>,
    pub body: String,
}

/// The first header named `name`, ignoring ASCII case.
pub open spec fn header_at(headers: Seq<(String, String)>, name: Seq<char>) -> Option<int> {
    header_from(headers, name, 0)
}

pub open spec fn header_from(headers: Seq<(String, String)>, name: Seq<char>, k: int) -> Option<
    int,
>
    decreases headers.len() - k,
{
    if k < 0 || k >= headers.len() {
        None
    } else if lower_seq(headers[k].0@) == lower_seq(name) {
        Some(k)
    } else {
        header_from(headers, name, k + 1)
    }
}

impl HttpResponse {
    /// The value of the first header called `name`, in any ASCII case.
    pub fn header(&self, name: &str) -> (r: Option<&str>)
        ensures
            match header_at(self.headers@, name@) {
                Some(k) => r is Some && r.unwrap()@ == self.headers@[k].1@,
                None => r is None,
            },
    {
        let wanted = lowercase(chars_of(name).as_slice());
        let mut k: usize = 0;
        while k < self.headers.len()
            invariant
                k <= self.headers.len(),
                wanted@ == lower_seq(name@),
                header_at(self.headers@, name@) == header_from(self.headers@, name@, k as int),
            decreases self.headers.len() - k,
        {
            let key = lowercase(chars_of(self.headers[k].0.as_str()).as_slice());
            if same(key.as_slice(), wanted.as_slice()) {
                return Some(self.headers[k].1.as_str());
            }
            k = k + 1;
        }
        None
    }
}

} // verus!
