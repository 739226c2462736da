use kynos::fields::Fields;
use kynos::middleware::compression::NotAcceptable;
use kynos::middleware::csrf::CrossSite;
use kynos::middleware::decompression::Undecodable;
use kynos::middleware::rate_limit::refusal::RateLimited;
use kynos::http::method::Method;
use kynos::middleware::cache::store::StoredResponse;
use kynos::middleware::cache::Cache;
use kynos::middleware::catch_panic::{Catch, PanicPolicy, Propagate};
use kynos::middleware::cookies::{CookieSource, SetCookieHeaders, SetCookies};
use kynos::middleware::limits::{
    declared_length, Admission, AtCapacity, BodyClock, BodySize, BodySizeExceeded, BodyTimeout, Clock, Polled,
    TimedOut, Timeout,
};
use kynos::middleware::rate_limit::key::{
    And, ByClientAddress, ByHeader, ByPeerAddress, ByRoute, KeyedRequest, RateLimitKey, Shared,
};
use kynos::middleware::request_id::{Counter, HeaderGroup, RequestId, RequestIdSource, XRequestId};
use kynos::middleware::rate_limit::decision::Decision;
use kynos::middleware::rate_limit::quota::CheckStep;
use kynos::time::Duration;

fn map(fields: &[(&str, &str)]) -> Fields {
    let mut headers = Fields::new();
    for (name, value) in fields {
        headers.append(name.as_bytes(), value.as_bytes());
    }
    headers
}

fn text(bytes: &[u8]) -> String {
    String::from_utf8(bytes.to_vec()).expect("text")
}

// --- body size ---------------------------------------------------------------

#[test]
fn a_declared_length_is_read_from_the_head() {
    assert_eq!(declared_length(&map(&[("content-length", " 42 ")])), Some(42));
    assert_eq!(declared_length(&map(&[("content-length", "+7")])), Some(7));
    assert_eq!(declared_length(&map(&[("content-length", "forty")])), None);
    assert_eq!(declared_length(&Fields::new()), None);
}

#[test]
fn an_oversized_declaration_is_refused_before_a_byte_is_read() {
    let limit = BodySize::new(10);

    assert_eq!(
        limit.admission(&map(&[("content-length", "11")])),
        Err(BodySizeExceeded { limit: 10 })
    );
    assert_eq!(limit.admission(&map(&[("content-length", "10")])), Ok(Admission::Forward));
    assert_eq!(limit.admission(&Fields::new()), Ok(Admission::Count));
}

#[test]
fn an_undeclared_body_is_refused_on_the_frame_that_passes_the_limit() {
    let limit = BodySize::new(10);

    assert_eq!(limit.count(4, 6), Some(10));
    assert_eq!(limit.count(4, 7), None);
    assert_eq!(limit.count(u64::MAX, 1), None);
    assert_eq!(BodySize::new(u64::MAX).count(u64::MAX, 1), Some(u64::MAX));
}

#[test]
fn a_refusal_names_the_limit_it_enforced() {
    let refusal = BodySizeExceeded { limit: 1024 };

    assert_eq!(refusal.status(), 413);
    assert_eq!(BodySizeExceeded::statuses(), vec![413]);
    assert_eq!(text(&refusal.detail()), "the request body exceeds 1024 bytes");
}

// --- timeouts ----------------------------------------------------------------

#[test]
fn a_timeout_answers_with_a_408_in_whole_seconds() {
    let refusal = TimedOut::new(Duration::from_millis(30_500));

    assert_eq!(refusal.status(), 408);
    assert_eq!(TimedOut::statuses(), vec![408]);
    assert_eq!(text(&refusal.detail()), "the handler did not finish within 30 seconds");
}

struct TookTooLong;

impl From<Duration> for TookTooLong {
    fn from(_: Duration) -> Self {
        TookTooLong
    }
}

#[test]
fn answering_with_another_refusal_keeps_the_limit() {
    let timeout = Timeout::new(Duration::from_secs(30)).answer_with::<TookTooLong>();

    assert_eq!(timeout.limit, Duration::from_secs(30));
}

#[test]
fn a_shed_request_carries_retry_after_only_when_configured() {
    let with = AtCapacity { retry_after: Some(Duration::from_millis(2_900)) };
    let without = AtCapacity { retry_after: None };

    assert_eq!(with.status(), 503);
    assert_eq!(AtCapacity::statuses(), vec![503]);
    let lines: Vec<(String, String)> = with.fields().into_iter().map(|(n, v)| (text(&n), text(&v))).collect();
    assert_eq!(lines, vec![("retry-after".to_string(), "2".to_string())]);
    assert!(without.fields().is_empty());
}

#[test]
fn an_idle_clock_asks_the_source_first_and_restarts_on_a_frame() {
    let timeout = BodyTimeout::idle(Duration::from_secs(5));
    let mut clock = BodyClock::new(&timeout);

    assert!(timeout.resets_each_frame());
    assert_eq!(timeout.limit(), Duration::from_secs(5));
    assert_eq!(clock.start(false), Clock::AskSource);
    assert_eq!(clock.source_answered(Polled::Frame), Clock::DeliverAndRestart);
    assert_eq!(clock.source_answered(Polled::Pending), Clock::AskTimer);
    assert_eq!(clock.source_answered(Polled::Ended), Clock::Deliver);
    assert_eq!(clock.timer_answered(false), Clock::Deliver);
    assert!(!clock.spent());
    assert_eq!(clock.timer_answered(true), Clock::Expire);
    assert!(clock.spent());
    assert_eq!(clock.start(false), Clock::End);
}

#[test]
fn a_deadline_asks_the_timer_first() {
    let timeout = BodyTimeout::deadline(Duration::from_secs(5));
    let mut clock = BodyClock::new(&timeout);

    assert!(!timeout.resets_each_frame());
    assert_eq!(clock.start(false), Clock::AskTimer);
    assert_eq!(clock.timer_answered(false), Clock::AskSource);
    assert_eq!(clock.source_answered(Polled::Frame), Clock::Deliver);
    assert_eq!(clock.start(true), Clock::End, "a finished body is delivered whatever the clock says");
}

// --- request identifiers -----------------------------------------------------

#[test]
fn a_counter_mints_distinct_decimal_identifiers() {
    let counter = Counter::new();

    assert_eq!(counter.next_id(), b"0".to_vec());
    assert_eq!(counter.next_id(), b"1".to_vec());
}

#[test]
fn an_inbound_identifier_is_ignored_unless_trusted() {
    let request = map(&[("X-Request-Id", "abc-123")]);

    let untrusting = RequestId::new();
    assert_eq!(untrusting.inbound(&request), None);
    assert_eq!(untrusting.identify(&request), b"0".to_vec());

    let trusting = RequestId::new().trust_client(true);
    assert_eq!(trusting.inbound(&request), Some(b"abc-123".to_vec()));
    assert_eq!(trusting.identify(&request), b"abc-123".to_vec());
    assert_eq!(trusting.identify(&Fields::new()), b"0".to_vec());
}

#[test]
fn an_identifier_is_set_on_the_request_and_echoed_on_the_response() {
    let mut request = map(&[("x-request-id", "forged"), ("accept", "*/*")]);

    let declared = RequestId::new().stamp(&mut request, b"7");

    assert_eq!(request.get_all(b"x-request-id"), vec![b"7".to_vec()]);
    assert_eq!(request.get(b"accept"), Some(b"*/*".to_vec()));
    let group = XRequestId::decode(&declared).expect("the group reads back what it declares");
    assert_eq!(group, XRequestId(b"7".to_vec()));
    let lines: Vec<(String, String)> = group.encode().into_iter().map(|(n, v)| (text(&n), text(&v))).collect();
    assert_eq!(lines, vec![("x-request-id".to_string(), "7".to_string())]);
    assert_eq!(XRequestId::names(), vec![b"x-request-id".to_vec()]);
}

// --- rate-limit keys ---------------------------------------------------------

fn keyed(peer: Option<&str>, client: Option<&str>, headers: Fields) -> KeyedRequest {
    KeyedRequest {
        peer: peer.map(|p| p.as_bytes().to_vec()),
        client: client.map(|c| c.as_bytes().to_vec()),
        headers,
        method: Method::Get,
        route: b"/users/{id}".to_vec(),
    }
}

#[test]
fn every_shipped_key_names_a_partition_even_for_a_bare_request() {
    let bare = keyed(None, None, Fields::new());

    assert_eq!(ByPeerAddress.partition(&bare), Some(b"peer:none".to_vec()));
    assert_eq!(ByClientAddress.partition(&bare), Some(b"client:none".to_vec()));
    assert_eq!(ByHeader(b"Authorization".to_vec()).partition(&bare), Some(b"authorization:none".to_vec()));
    assert_eq!(ByRoute.partition(&bare), Some(b"route:GET /users/{id}".to_vec()));
    assert_eq!(Shared(b"global".to_vec()).partition(&bare), Some(b"global".to_vec()));
}

#[test]
fn a_key_reads_what_the_request_carries() {
    let request = keyed(Some("10.0.0.1"), Some("203.0.113.7"), map(&[("authorization", "Bearer x")]));

    assert_eq!(ByPeerAddress.partition(&request), Some(b"peer:10.0.0.1".to_vec()));
    assert_eq!(ByClientAddress.partition(&request), Some(b"client:203.0.113.7".to_vec()));
    assert_eq!(ByHeader(b"authorization".to_vec()).partition(&request), Some(b"authorization:Bearer x".to_vec()));
    assert_eq!(
        And(ByClientAddress, ByRoute).partition(&request),
        Some(b"client:203.0.113.7|route:GET /users/{id}".to_vec())
    );
}

// --- cookies and panics ------------------------------------------------------

#[test]
fn each_cookie_is_its_own_set_cookie_line() {
    let group = SetCookieHeaders { cookies: vec![b"a=1; Path=/".to_vec(), b"bad=\x01".to_vec(), b"b=2".to_vec()] };

    let lines: Vec<(String, String)> = group.encode().into_iter().map(|(n, v)| (text(&n), text(&v))).collect();
    assert_eq!(
        lines,
        vec![("set-cookie".to_string(), "a=1; Path=/".to_string()), ("set-cookie".to_string(), "b=2".to_string())]
    );
    assert!(SetCookieHeaders::repeatable());
    assert_eq!(SetCookieHeaders::names(), vec![b"set-cookie".to_vec()]);
}

#[test]
fn a_fixed_cookie_source_sets_the_same_cookies_on_every_response() {
    let cookies = SetCookies::new(vec![b"locale=en-GB".to_vec()]);

    assert_eq!(cookies.headers(&Fields::new()).cookies, vec![b"locale=en-GB".to_vec()]);
    assert_eq!(vec![b"x=1".to_vec()].cookies(&map(&[("cookie", "y=2")])), vec![b"x=1".to_vec()]);
}

#[test]
fn only_catching_a_panic_declares_a_500() {
    assert_eq!(Catch::statuses(), vec![500]);
    assert!(Propagate::statuses().is_empty());
    assert_eq!(Catch::default(), Catch::default());
}

// --- cache store -------------------------------------------------------------

#[test]
fn a_stored_variant_answers_only_the_requests_that_select_it() {
    let stored = StoredResponse::new(
        200,
        map(&[("content-type", "text/plain")]),
        b"hello".to_vec(),
        vec![b"accept-language".to_vec()],
        vec![Some(b"en".to_vec())],
        Duration::from_secs(60),
    );

    assert!(stored.selected_by(&map(&[("Accept-Language", "en")])));
    assert!(!stored.selected_by(&map(&[("accept-language", "fr")])));
    assert!(!stored.selected_by(&Fields::new()));
    assert!(stored.is_fresh_at(Duration::from_secs(59)));
    assert!(!stored.is_fresh_at(Duration::from_secs(60)));
}

#[test]
fn the_first_selected_fresh_variant_is_the_hit() {
    let variant = |language: &str, freshness: u64| {
        StoredResponse::new(
            200,
            Fields::new(),
            Vec::new(),
            vec![b"accept-language".to_vec()],
            vec![Some(language.as_bytes().to_vec())],
            Duration::from_secs(freshness),
        )
    };
    let variants = vec![variant("fr", 60), variant("en", 1), variant("en", 60)];
    let ages = vec![Duration::from_secs(5); 3];
    let cache = Cache::new(());

    assert_eq!(cache.hit(&variants, &ages, &map(&[("accept-language", "en")])), Some(2));
    assert_eq!(cache.hit(&variants, &ages, &map(&[("accept-language", "de")])), None);
}

#[test]
fn a_filed_response_loses_its_connection_fields_and_keeps_what_selected_it() {
    let cache = Cache::new(()).namespace("v2").deriving_etags();
    let request = map(&[("accept-encoding", "gzip")]);
    let response = map(&[("vary", "Accept-Encoding"), ("connection", "close"), ("content-type", "text/plain")]);

    let filing = cache.file(&request, 200, &response, b"body", Duration::from_secs(60));

    let entry = filing.entry.expect("a storable response is filed");
    assert_eq!(entry.headers().get(b"connection"), None);
    assert_eq!(entry.vary(), &vec![b"accept-encoding".to_vec()]);
    assert!(entry.selected_by(&request));
    assert_eq!(filing.etag, Some(kynos::middleware::cache::derived_etag(b"body")));

    let key = cache.key(&Method::Extension(b"PURGE".to_vec()), b"/items", b"/items?page=2");
    assert_eq!(key.namespace, "v2");
    assert_eq!(key.method, Method::Get);
    assert_eq!(key.target, b"/items?page=2".to_vec());
}

#[test]
fn an_answer_to_one_origin_is_stated_but_never_filed() {
    let cache = Cache::new(());
    let response = map(&[("access-control-allow-origin", "https://a.example"), ("etag", "\"v1\"")]);

    let filing = cache.file(&Fields::new(), 200, &response, b"", Duration::from_secs(60));

    assert!(filing.entry.is_none());
    assert_eq!(filing.etag, Some(b"\"v1\"".to_vec()));
}

#[test]
fn a_name_that_is_no_header_name_finds_nothing() {
    let headers = map(&[("x y", "1"), ("accept", "*/*")]);

    assert_eq!(headers.get(b"x y"), Some(b"1".to_vec()));
    assert_eq!(headers.get_named(b"x y"), None);
    assert_eq!(headers.get_named(b"Accept"), Some(b"*/*".to_vec()));
    assert_eq!(headers.get_named(b""), None);
}

#[test]
fn every_refusal_says_why_in_its_problem_document() {
    assert_eq!(text(&CrossSite.detail()), "this request came from another site");
    assert_eq!(text(&NotAcceptable.detail()), "no representation of this resource has an acceptable content coding");
    assert_eq!(
        text(&Undecodable::UnsupportedCoding.detail()),
        "the request body's content coding is not one this server decodes; it accepts zstd, br, gzip"
    );
    assert_eq!(text(&Undecodable::Malformed.detail()), "the request body did not decode as the coding it declared");
    assert_eq!(text(&Undecodable::TooLarge { limit: 4096 }.detail()), "the request body exceeds 4096 bytes once decoded");
    assert_eq!(
        text(&RateLimited::new(Duration::from_secs(1), 10).detail()),
        "the client has exceeded its request rate"
    );
    assert_eq!(text(&AtCapacity { retry_after: None }.detail()), "the service is at its concurrency limit");
}

// --- one check of a request against its quotas ----------------------------

fn burst_limiter() -> kynos::middleware::rate_limit::quota::Quotas<(), ()> {
    kynos::middleware::rate_limit::quota::Quotas::new((), ())
        .quota(kynos::middleware::rate_limit::quota::Quota::per_second("burst", 10))
}

#[test]
fn a_refused_request_spends_no_quota() {
    let quotas = burst_limiter();
    let now = Duration::from_millis(1_700_000_000_250);
    let (mut check, step) = quotas.begin(b"p", now);
    assert!(matches!(step, CheckStep::Read { .. }));

    // A store that already counts ten in both windows.
    match quotas.counted(&mut check, Some((10, 10))) {
        CheckStep::Done(Decision::Deny(denial)) => {
            assert_eq!(denial.limits.len(), 1);
            assert_eq!(denial.limits[0].name, "burst");
            assert_eq!(denial.limits[0].quota, 10);
            assert_eq!(denial.limits[0].remaining, 0);
            assert_eq!(denial.limits[0].reset, denial.retry_after);
            assert!(!denial.retry_after.is_zero());
            assert!(!Duration::from_secs(2).shorter_than(&denial.retry_after));
        }
        _ => panic!("a full quota refuses at once, without asking for an increment"),
    }
}

#[test]
fn a_served_request_is_counted_before_the_decision() {
    let quotas = burst_limiter();
    let (mut check, _) = quotas.begin(b"p", Duration::from_secs(1_700_000_000));
    match quotas.counted(&mut check, Some((3, 0))) {
        CheckStep::Increment { by, .. } => assert_eq!(by, 1),
        _ => panic!("a request under the ceiling is counted"),
    }
    match quotas.spent(&mut check) {
        CheckStep::Done(Decision::Allow(allowance)) => assert_eq!(allowance.limits[0].remaining, 6),
        _ => panic!("a counted request is allowed"),
    }
}

#[test]
fn a_span_keeps_its_nanoseconds() {
    let span = Duration::from_secs(2).saturating_add(Duration::from_nanos(5));
    assert_eq!(span.subsec_nanos(), 5);
    assert_eq!(span.as_secs(), 2);
}
