use poe_wayfinder_app::http_policy::HttpResponse;
use poe_wayfinder_app::price_check::{
    limiter_for, read_search_result, search_result_of, Endpoint, Outcome, PriceCheckError, SearchAnswer,
    SearchResult,
};

#[test]
fn each_endpoint_names_its_own_limiter() {
    assert_eq!(limiter_for(Endpoint::Search), "search");
    assert_eq!(limiter_for(Endpoint::Fetch), "fetch");
    assert_eq!(limiter_for(Endpoint::Exchange), "exchange");
}

#[test]
fn a_search_result_and_an_outcome_carry_their_totals() {
    let found = SearchResult {
        id: "aL5D8Z77He".to_string(),
        result: vec!["996e5eba1a1d".to_string()],
        total: 2,
    };

    assert_eq!(Outcome::Priced { total: found.total }, Outcome::Priced { total: 2 });
    assert_ne!(Outcome::CopyFailed, Outcome::ParseFailed);
}

fn ok_response() -> HttpResponse {
    HttpResponse {
        status: 200,
        headers: Vec::new(),
        body: r#"{"id":"abc123","result":["r1","r2"],"total":57}"#.to_string(),
    }
}

#[test]
fn a_successful_search_response_is_read() {
    let got = read_search_result(&ok_response(), None).unwrap();

    assert_eq!(got.id, "abc123");
    assert_eq!(got.result, vec!["r1", "r2"]);
    assert_eq!(got.total, 57);
}

#[test]
fn an_error_the_site_put_in_the_body_beats_a_two_hundred_status() {
    let response = HttpResponse {
        status: 200,
        headers: Vec::new(),
        body: r#"{"error":{"code":2,"message":"Query is malformed"}}"#.to_string(),
    };

    let err = read_search_result(&response, Some("Query is malformed".to_string())).unwrap_err();

    assert_eq!(
        err,
        PriceCheckError::Api {
            message: "Query is malformed".to_string()
        }
    );
    assert!(err.message().contains("refused"));
}

#[test]
fn a_non_success_status_is_reported_with_its_body() {
    let response = HttpResponse {
        status: 503,
        headers: Vec::new(),
        body: "<html>maintenance</html>".to_string(),
    };

    let err = read_search_result(&response, None).unwrap_err();

    match &err {
        PriceCheckError::Status { status, body } => {
            assert_eq!(*status, 503);
            assert!(body.contains("maintenance"));
        }
        other => panic!("wrong error: {other:?}"),
    }
    assert_eq!(err.message(), "the trade api answered with status 503");
}

#[test]
fn a_body_that_is_not_json_is_a_decode_error() {
    let response = HttpResponse {
        status: 200,
        headers: Vec::new(),
        body: "not json".to_string(),
    };

    let err = read_search_result(&response, None).unwrap_err();

    assert!(matches!(err, PriceCheckError::Decode { .. }));
    assert_eq!(err.message(), "reading the search response");
}

#[test]
fn a_response_missing_every_field_reads_as_an_empty_result() {
    let response = HttpResponse {
        status: 200,
        headers: Vec::new(),
        body: "{}".to_string(),
    };

    let got = read_search_result(&response, None).unwrap();

    assert_eq!(got.id, "");
    assert!(got.result.is_empty());
    assert_eq!(got.total, 0);
}

#[test]
fn a_result_array_with_a_non_string_entry_drops_only_that_entry() {
    let response = HttpResponse {
        status: 200,
        headers: Vec::new(),
        body: r#"{"id":"x","result":["a",null,"b"],"total":2}"#.to_string(),
    };

    let got = read_search_result(&response, None).unwrap();

    assert_eq!(got.result, vec!["a", "b"]);
}

#[test]
fn an_answer_fills_in_what_it_lacks() {
    let answer = SearchAnswer {
        id: None,
        result: Some(vec![Some("a".to_string()), None]),
        total: Some(9),
    };

    let got = search_result_of(&answer);

    assert_eq!(
        got,
        SearchResult {
            id: String::new(),
            result: vec!["a".to_string()],
            total: 9
        }
    );
}
