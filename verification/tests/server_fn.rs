use fullstack_gateway::headers::HeaderLimitReached;
use fullstack_gateway::response::ResponseHead;
use fullstack_gateway::server_fn::finish_response;
use fullstack_gateway::server_fn::found_response;
use fullstack_gateway::server_fn::merge_context_headers;
use fullstack_gateway::server_fn::redirect_hint;
use fullstack_gateway::server_fn::redirect_to_referrer;
use fullstack_gateway::server_fn::worker_failure_response;
use fullstack_gateway::server_fn::RedirectHint;
use http::header::ACCEPT;
use http::header::LOCATION;
use http::header::REFERER;
use http::header::SET_COOKIE;
use http::header::HeaderName;
use http::HeaderMap;
use http::HeaderValue;

fn form_request() -> HeaderMap {
    let mut request = HeaderMap::new();
    request.insert(ACCEPT, HeaderValue::from_static("text/html"));
    request.insert(REFERER, HeaderValue::from_static("/form"));
    request
}

fn all(map: &HeaderMap, name: &str) -> Vec<Vec<u8>> {
    map.get_all(name).iter().map(|v| v.as_bytes().to_vec()).collect()
}

#[test]
fn hint_reads_accept_and_referer() {
    let hint = redirect_hint(&form_request());
    assert!(hint.accepts_html);
    assert_eq!(hint.referrer, Some(HeaderValue::from_static("/form")));
}

#[test]
fn hint_finds_html_among_other_types() {
    let mut request = HeaderMap::new();
    request.insert(
        ACCEPT,
        HeaderValue::from_static("application/xhtml+xml, text/html;q=0.9, */*;q=0.8"),
    );
    let hint = redirect_hint(&request);
    assert!(hint.accepts_html);
    assert_eq!(hint.referrer, None);
}

#[test]
fn hint_without_html_does_not_accept() {
    let mut request = HeaderMap::new();
    request.insert(ACCEPT, HeaderValue::from_static("application/json"));
    request.insert(REFERER, HeaderValue::from_static("/form"));
    let hint = redirect_hint(&request);
    assert!(!hint.accepts_html);
    assert_eq!(hint.referrer, Some(HeaderValue::from_static("/form")));
}

#[test]
fn hint_without_headers_is_empty() {
    let hint = redirect_hint(&HeaderMap::new());
    assert!(!hint.accepts_html);
    assert_eq!(hint.referrer, None);
}

#[test]
fn hint_reads_only_the_oldest_accept_value() {
    let mut request = HeaderMap::new();
    request.append(ACCEPT, HeaderValue::from_static("application/json"));
    request.append(ACCEPT, HeaderValue::from_static("text/html"));
    assert!(!redirect_hint(&request).accepts_html);
    let mut other = HeaderMap::new();
    other.append(ACCEPT, HeaderValue::from_static("text/html"));
    other.append(ACCEPT, HeaderValue::from_static("application/json"));
    assert!(redirect_hint(&other).accepts_html);
}

#[test]
fn hint_ignores_an_accept_value_that_is_no_text() {
    let mut request = HeaderMap::new();
    request.insert(ACCEPT, HeaderValue::from_bytes(b"text/html\xff").unwrap());
    assert!(!redirect_hint(&request).accepts_html);
}

#[test]
fn hint_takes_the_oldest_referer() {
    let mut request = HeaderMap::new();
    request.append(REFERER, HeaderValue::from_static("/first"));
    request.append(REFERER, HeaderValue::from_static("/second"));
    assert_eq!(redirect_hint(&request).referrer, Some(HeaderValue::from_static("/first")));
}

#[test]
fn redirect_fires_for_a_form_submission() {
    let hint = redirect_hint(&form_request());
    let head = ResponseHead { status: 200, headers: HeaderMap::new() };
    let out = redirect_to_referrer(head, &hint).unwrap();
    assert_eq!(out.status, 302);
    assert_eq!(all(&out.headers, "location"), vec![b"/form".to_vec()]);
    assert_eq!(out.headers.len(), 1);
}

#[test]
fn redirect_keeps_the_other_headers() {
    let hint = redirect_hint(&form_request());
    let mut headers = HeaderMap::new();
    headers.append(SET_COOKIE, HeaderValue::from_static("a=1"));
    headers.append(SET_COOKIE, HeaderValue::from_static("b=2"));
    let out = redirect_to_referrer(ResponseHead { status: 201, headers }, &hint).unwrap();
    assert_eq!(out.status, 302);
    assert_eq!(all(&out.headers, "set-cookie"), vec![b"a=1".to_vec(), b"b=2".to_vec()]);
    assert_eq!(all(&out.headers, "location"), vec![b"/form".to_vec()]);
}

#[test]
fn redirect_leaves_a_location_of_the_handler() {
    let hint = redirect_hint(&form_request());
    let mut headers = HeaderMap::new();
    headers.insert(LOCATION, HeaderValue::from_static("/done"));
    let out = redirect_to_referrer(ResponseHead { status: 200, headers }, &hint).unwrap();
    assert_eq!(out.status, 200);
    assert_eq!(all(&out.headers, "location"), vec![b"/done".to_vec()]);
    let mut moved = HeaderMap::new();
    moved.insert(LOCATION, HeaderValue::from_static("/done"));
    let out = redirect_to_referrer(ResponseHead { status: 303, headers: moved }, &hint).unwrap();
    assert_eq!(out.status, 303);
    assert_eq!(all(&out.headers, "location"), vec![b"/done".to_vec()]);
}

#[test]
fn redirect_needs_a_referrer() {
    let hint = RedirectHint { accepts_html: true, referrer: None };
    let out =
        redirect_to_referrer(ResponseHead { status: 200, headers: HeaderMap::new() }, &hint)
            .unwrap();
    assert_eq!(out.status, 200);
    assert!(out.headers.is_empty());
}

#[test]
fn redirect_needs_html() {
    let hint =
        RedirectHint { accepts_html: false, referrer: Some(HeaderValue::from_static("/form")) };
    let out =
        redirect_to_referrer(ResponseHead { status: 200, headers: HeaderMap::new() }, &hint)
            .unwrap();
    assert_eq!(out.status, 200);
    assert!(out.headers.is_empty());
}

#[test]
fn merge_appends_context_headers_after_the_handlers() {
    let mut headers = HeaderMap::new();
    headers.insert("x", HeaderValue::from_static("1"));
    let mut context = HeaderMap::new();
    context.insert("x", HeaderValue::from_static("2"));
    let out =
        merge_context_headers(ResponseHead { status: 200, headers }, Some(context)).unwrap();
    assert_eq!(out.status, 200);
    assert_eq!(all(&out.headers, "x"), vec![b"1".to_vec(), b"2".to_vec()]);
}

#[test]
fn merge_without_context_headers_changes_nothing() {
    let mut headers = HeaderMap::new();
    headers.insert("x", HeaderValue::from_static("1"));
    let out =
        merge_context_headers(ResponseHead { status: 204, headers: headers.clone() }, None)
            .unwrap();
    assert_eq!(out.status, 204);
    assert_eq!(out.headers, headers);
}

#[test]
fn finish_merges_then_redirects() {
    let hint = redirect_hint(&form_request());
    let mut headers = HeaderMap::new();
    headers.insert(SET_COOKIE, HeaderValue::from_static("a=1"));
    let mut context = HeaderMap::new();
    context.insert(SET_COOKIE, HeaderValue::from_static("b=2"));
    let out =
        finish_response(ResponseHead { status: 200, headers }, Some(context), &hint).unwrap();
    assert_eq!(out.status, 302);
    assert_eq!(all(&out.headers, "set-cookie"), vec![b"a=1".to_vec(), b"b=2".to_vec()]);
    assert_eq!(all(&out.headers, "location"), vec![b"/form".to_vec()]);
}

#[test]
fn finish_sees_a_location_that_the_context_set() {
    let hint = redirect_hint(&form_request());
    let mut context = HeaderMap::new();
    context.insert(LOCATION, HeaderValue::from_static("/from-context"));
    let out = finish_response(
        ResponseHead { status: 200, headers: HeaderMap::new() },
        Some(context),
        &hint,
    )
    .unwrap();
    assert_eq!(out.status, 200);
    assert_eq!(all(&out.headers, "location"), vec![b"/from-context".to_vec()]);
}

#[test]
fn finish_without_context_and_hint_changes_nothing() {
    let hint = redirect_hint(&HeaderMap::new());
    let mut headers = HeaderMap::new();
    headers.insert("x", HeaderValue::from_static("1"));
    let out =
        finish_response(ResponseHead { status: 200, headers: headers.clone() }, None, &hint)
            .unwrap();
    assert_eq!(out.status, 200);
    assert_eq!(out.headers, headers);
}

#[test]
fn worker_failure_is_a_500() {
    let detailed = worker_failure_response("task 7 panicked", true);
    assert_eq!(detailed.status, 500);
    assert_eq!(detailed.body, "Server function panicked: task 7 panicked");
    let terse = worker_failure_response("task 7 panicked", false);
    assert_eq!(terse.status, 500);
    assert_eq!(terse.body, "Internal Server Error");
}

fn full_map() -> HeaderMap {
    let mut map = HeaderMap::new();
    let mut count: u32 = 0;
    loop {
        let name = HeaderName::from_bytes(format!("h{}", count).as_bytes()).unwrap();
        if map.try_insert(name, HeaderValue::from_static("v")).is_err() {
            return map;
        }
        count += 1;
        assert!(count < 100_000);
    }
}

#[test]
fn redirect_reports_a_map_that_is_full() {
    let hint = redirect_hint(&form_request());
    let out = redirect_to_referrer(ResponseHead { status: 200, headers: full_map() }, &hint);
    assert_eq!(out.unwrap_err(), HeaderLimitReached);
}

#[test]
fn finish_reports_a_map_that_is_full() {
    let hint = redirect_hint(&HeaderMap::new());
    let mut context = HeaderMap::new();
    context.insert("one-more", HeaderValue::from_static("v"));
    let out =
        finish_response(ResponseHead { status: 200, headers: full_map() }, Some(context), &hint);
    assert_eq!(out.unwrap_err(), HeaderLimitReached);
    let merged = merge_context_headers(
        ResponseHead { status: 200, headers: full_map() },
        Some(form_request()),
    );
    assert_eq!(merged.unwrap_err(), HeaderLimitReached);
}

#[test]
fn found_response_is_a_302_over_the_written_headers() {
    let mut headers = HeaderMap::new();
    headers.insert(LOCATION, HeaderValue::from_static("/form"));
    let out = found_response(Ok(headers.clone())).unwrap();
    assert_eq!(out.status, 302);
    assert_eq!(out.headers, headers);
    assert_eq!(found_response(Err(HeaderLimitReached)).unwrap_err(), HeaderLimitReached);
}

#[test]
fn a_response_with_many_headers_still_takes_the_redirect() {
    let mut headers = HeaderMap::new();
    for count in 0..6000u32 {
        let name = HeaderName::from_bytes(format!("h{}", count).as_bytes()).unwrap();
        headers.insert(name, HeaderValue::from_static("v"));
    }
    let mut context = HeaderMap::new();
    for count in 0..500u32 {
        let name = HeaderName::from_bytes(format!("c{}", count).as_bytes()).unwrap();
        context.insert(name, HeaderValue::from_static("v"));
    }
    let hint = redirect_hint(&form_request());
    let out =
        finish_response(ResponseHead { status: 200, headers }, Some(context), &hint).unwrap();
    assert_eq!(out.status, 302);
    assert_eq!(out.headers.keys_len(), 6501);
    assert_eq!(all(&out.headers, "location"), vec![b"/form".to_vec()]);
}
