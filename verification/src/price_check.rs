//! The trade site's endpoints, the answer to a search, and how a price
//! check ended.
use vstd::prelude::*;

use crate::http_policy::HttpResponse;
use crate::order::copy_string;
use crate::text::{decimal, decimal_chars, owned, push_all};

verus! {

/// An endpoint of the trade site; each is paced by a limiter of its own.
#[derive(Debug, Clone, Copy, PartialEq, Eq, Structural)]
pub enum Endpoint {
    Search,
    Fetch,
    Exchange,
}

pub open spec fn endpoint_name(endpoint: Endpoint) -> Seq<char> {
    match endpoint {
        Endpoint::Search => "search"@,
        Endpoint::Fetch => "fetch"@,
        Endpoint::Exchange => "exchange"@,
    }
}

impl Endpoint {
    pub fn as_str(self) -> (r: &'static str)
        ensures
            r@ == endpoint_name(self),
    {
        match self {
            Endpoint::Search => "search",
            Endpoint::Fetch => "fetch",
            Endpoint::Exchange => "exchange",
        }
    }
}

/// The limiter that paces requests to `endpoint`: the one named after it.
pub fn limiter_for(endpoint: Endpoint) -> (r: &'static str)
    ensures
        r@ == endpoint_name(endpoint),
{
    endpoint.as_str()
}

/// What a search answered: its id, the listings found, and how many there
/// were in all.
#[derive(Debug, Clone, PartialEq, Eq)]
pub struct SearchResult {
    pub id: String,
    pub result: Vec<String>,
    pub total: u64,
}

/// How a price check ended.
#[derive(Debug, Clone, Copy, PartialEq, Eq, Structural)]
pub enum Outcome {
    Priced { total: u64 },
    CopyFailed,
    ParseFailed,
    SearchFailed,
    TooBroad,
}

/// The fields of a search answer as the site's JSON gives them: each
/// absent where the answer has no such field of the right kind, and each
/// entry of the result list absent where it is not a string.
#[derive(Debug, Clone, PartialEq, Eq)]
pub struct SearchAnswer {
    pub id: Option<String>,
    pub result: Option<Vec<Option<String>>>,
    pub total: Option<u64>,
}

/// A [`SearchAnswer`] as characters.
pub struct SearchAnswerView {
    pub id: Option<Seq<char>>,
    pub result: Option<Seq<Option<Seq<char>>>>,
    pub total: Option<u64>,
}

pub open spec fn optional_text(o: Option<String>) -> Option<Seq<char>> {
    match o {
        Some(s) => Some(s@),
        None => None,
    }
}

impl View for SearchAnswer {
    type V = SearchAnswerView;

    open spec fn view(&self) -> SearchAnswerView {
        SearchAnswerView {
            id: optional_text(self.id),
            result: match self.result {
                Some(v) => Some(v@.map_values(|o: Option<String>| optional_text(o))),
                None => None,
            },
            total: self.total,
        }
    }
}

/// What the site's JSON `body` says of a search, or nothing when
/// `serde_json` does not read the body as JSON.
pub uninterp spec fn search_answer(body: Seq<char>) -> Option<SearchAnswerView>;

/// `serde_json::from_str` into a `serde_json::Value`, then its `id` and
/// `total` read with `as_str` and `as_u64`, and its `result` with
/// `as_array`, each entry with `as_str`. The contract names the answer,
/// and says that decoding fails exactly when `serde_json` does not read the
/// body (text that is not JSON, or nested past its depth limit); the
/// wording of serde_json's error is not stated.
#[verifier::external_body]
fn decode_search(body: &str) -> (r: Result<SearchAnswer, String>)
    ensures
        r is Ok <==> search_answer(body@) is Some,
        r matches Ok(a) ==> search_answer(body@) == Some(a@),
{
    let value: serde_json::Value = serde_json::from_str(body).map_err(|e| e.to_string())?;
    let result = value.get("result").and_then(serde_json::Value::as_array);
    Ok(SearchAnswer {
        id: value.get("id").and_then(serde_json::Value::as_str).map(str::to_string),
        result: result.map(|a| a.iter().map(|v| v.as_str().map(str::to_string)).collect()),
        total: value.get("total").and_then(serde_json::Value::as_u64),
    })
}

/// The strings of a result list, in order, without the entries that are
/// not strings.
pub open spec fn strings_in(entries: Seq<Option<Seq<char>>>) -> Seq<Seq<char>>
    decreases entries.len(),
{
    if entries.len() == 0 {
        Seq::empty()
    } else {
        match entries.last() {
            Some(s) => strings_in(entries.drop_last()).push(s),
            None => strings_in(entries.drop_last()),
        }
    }
}

/// A search result as characters: its id, its listings, its total.
pub open spec fn result_view(r: SearchResult) -> (Seq<char>, Seq<Seq<char>>, u64) {
    (r.id@, r.result@.map_values(|s: String| s@), r.total)
}

/// The search result an answer gives: a missing id is empty, a missing
/// result list has no listings, a missing total is 0.
pub open spec fn result_of(a: SearchAnswerView) -> (Seq<char>, Seq<Seq<char>>, u64) {
    (
        match a.id {
            Some(id) => id,
            None => Seq::empty(),
        },
        match a.result {
            Some(entries) => strings_in(entries),
            None => Seq::empty(),
        },
        match a.total {
            Some(t) => t,
            None => 0,
        },
    )
}

/// The search result an answer gives, with the defaults for what it lacks.
pub fn search_result_of(answer: &SearchAnswer) -> (r: SearchResult)
    ensures
        result_view(r) == result_of(answer@),
{
    let id = match &answer.id {
        Some(id) => copy_string(id),
        None => String::new(),
    };
    let mut listings: Vec<String> = Vec::new();
    match &answer.result {
        Some(entries) => {
            let ghost ev = entries@.map_values(|o: Option<String>| optional_text(o));
            let mut i: usize = 0;
            while i < entries.len()
                invariant
                    i <= entries@.len(),
                    ev == entries@.map_values(|o: Option<String>| optional_text(o)),
                    listings@.map_values(|s: String| s@) == strings_in(ev.take(i as int)),
                decreases entries@.len() - i,
            {
                proof {
                    assert(ev.take(i + 1).drop_last() =~= ev.take(i as int));
                }
                let ghost before = listings@;
                match &entries[i] {
                    Some(s) => {
                        listings.push(copy_string(s));
                        proof {
                            assert(listings@.map_values(|s: String| s@) =~= before.map_values(
                                |s: String| s@,
                            ).push(s@));
                        }
                    },
                    None => {},
                }
                i = i + 1;
            }
            assert(ev.take(i as int) =~= ev);
        },
        None => {
            assert(listings@.map_values(|s: String| s@) =~= Seq::<Seq<char>>::empty());
        },
    }
    let total = match answer.total {
        Some(t) => t,
        None => 0,
    };
    SearchResult { id, result: listings, total }
}

/// Why a search answer could not be read.
#[derive(Debug, Clone, PartialEq, Eq)]
pub enum PriceCheckError {
    /// The site refused the search; `message` is what it said.
    Api { message: String },
    /// The site answered with a status outside 200..300.
    Status { status: u16, body: String },
    /// The answer was not JSON; `message` is the decoder's.
    Decode { message: String },
}

pub open spec fn price_check_error_text(e: PriceCheckError) -> Seq<char> {
    match e {
        PriceCheckError::Api { .. } => "the trade api refused the search"@,
        PriceCheckError::Status { status, .. } => "the trade api answered with status "@ + decimal(
            status as nat,
        ),
        PriceCheckError::Decode { .. } => "reading the search response"@,
    }
}

impl PriceCheckError {
    /// The error as a sentence.
    pub fn message(&self) -> (r: String)
        ensures
            r@ == price_check_error_text(*self),
    {
        match self {
            PriceCheckError::Api { .. } => owned("the trade api refused the search"),
            PriceCheckError::Status { status, .. } => {
                let mut r = owned("the trade api answered with status ");
                push_all(&mut r, decimal_chars(*status as u64).as_slice());
                r
            },
            PriceCheckError::Decode { .. } => owned("reading the search response"),
        }
    }
}

/// A status the site answers a good search with.
pub open spec fn success_status(status: u16) -> bool {
    200 <= status < 300
}

/// Reads the site's answer to a search. An error the site put in the body,
/// `api_error` as the trade api's own reader found it, is reported first;
/// then a status outside 200..300, with the body; then a body that is not
/// JSON. Otherwise the answer's id, listings and total, each defaulted
/// where the answer lacks it.
pub fn read_search_result(response: &HttpResponse, api_error: Option<String>) -> (r: Result<
    SearchResult,
    PriceCheckError,
>)
    ensures
        api_error matches Some(m) ==> r == Err::<SearchResult, PriceCheckError>(
            PriceCheckError::Api { message: m },
        ),
        api_error is None && !success_status(response.status) ==> (r matches Err(
            PriceCheckError::Status { status, body },
        ) && status == response.status && body@ == response.body@),
        api_error is None && success_status(response.status) ==> match search_answer(
            response.body@,
        ) {
            None => r matches Err(PriceCheckError::Decode { .. }),
            Some(a) => (r matches Ok(s) && result_view(s) == result_of(a)),
        },
{
    if let Some(message) = api_error {
        return Err(PriceCheckError::Api { message });
    }
    if !(200 <= response.status && response.status < 300) {
        return Err(
            PriceCheckError::Status {
                status: response.status,
                body: copy_string(&response.body),
            },
        );
    }
    match decode_search(response.body.as_str()) {
        Err(message) => Err(PriceCheckError::Decode { message }),
        Ok(answer) => Ok(search_result_of(&answer)),
    }
}

} // verus!
