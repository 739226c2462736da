use kynos::fields::Fields;
use kynos::http::etag::ETag;
use kynos::http::method::Method;
use kynos::middleware::cache::freshness::{self, cacheable, hop_by_hop, Unstorable};
use kynos::middleware::cache::refuses_cross_origin;
use kynos::middleware::compression::levels::{BrotliLevel, GzipLevel, ZstdLevel};
use kynos::middleware::compression::strongly_tagged;
use kynos::middleware::conditional::{matched, IfNoneMatch, NotModified, Preconditions};
use kynos::middleware::csrf::{authority_of, is_safe, Csrf};
use kynos::middleware::decompression::{declared, exceeds, Coding, Decompression, Undecodable, MAX_CODINGS};
use kynos::middleware::rate_limit::decision::{QuotaPolicy, QuotaUnit, ServiceLimit};
use kynos::middleware::rate_limit::headers::{RateLimitFields, RateLimitHeaders};
use kynos::middleware::rate_limit::quota::{estimate, recovers_in};
use kynos::middleware::security_headers::{FrameOptions, ReferrerPolicy, SecurityHeaderNames, SecurityHeaders};
use kynos::middleware::stack::{header_name_eq, header_names_disjoint, statuses_disjoint, Both, Cons, Flatten};
use kynos::middleware::vary_on;
use kynos::time::Duration;

/// A header block from pairs.
fn map(fields: &[(&str, &str)]) -> Fields {
    let mut headers = Fields::new();
    for (name, value) in fields {
        headers.append(name.as_bytes(), value.as_bytes());
    }
    headers
}

fn string(bytes: &[u8]) -> String {
    String::from_utf8(bytes.to_vec()).expect("a printable field")
}

fn lines(fields: Vec<(Vec<u8>, Vec<u8>)>) -> Vec<(String, String)> {
    fields.into_iter().map(|(n, v)| (string(&n), string(&v))).collect()
}

// --- rate limiting ---------------------------------------------------------

fn window() -> Duration {
    Duration::from_secs(1)
}

#[test]
fn the_estimate_decays_the_previous_window_as_it_leaves_view() {
    assert_eq!(estimate(100, 0, Duration::zero(), window()), 100);
    assert_eq!(estimate(100, 0, Duration::from_millis(500), window()), 50);
    assert_eq!(estimate(100, 0, window(), window()), 0);
    assert_eq!(estimate(100, 7, Duration::from_millis(500), window()), 57);
    assert_eq!(estimate(100, 7, Duration::from_secs(9), window()), 7);
}

#[test]
fn a_burst_across_the_seam_is_counted_rather_than_forgiven() {
    let spent_last_window = 100;
    let spent_this_window = 100;
    let seen = estimate(spent_last_window, spent_this_window, Duration::from_millis(1), window());
    assert!(seen > 190, "a fixed window would have counted {spent_this_window}; this saw {seen}");
}

#[test]
fn an_estimate_over_a_zero_window_is_the_current_count() {
    assert_eq!(estimate(9, 3, Duration::zero(), Duration::zero()), 3);
}

#[test]
fn an_estimate_that_would_overflow_saturates() {
    assert_eq!(estimate(u64::MAX, u64::MAX, Duration::zero(), window()), u64::MAX);
}

#[test]
fn the_recovery_delay_is_when_the_estimate_falls_far_enough() {
    assert_eq!(recovers_in(5, 10, Duration::from_millis(400), window()), Duration::from_millis(600));
    assert_eq!(recovers_in(10, 10, Duration::from_millis(400), window()), Duration::from_millis(600));
    assert_eq!(recovers_in(20, 10, Duration::zero(), window()), Duration::from_millis(1500));
    assert!(recovers_in(1_000, 1, Duration::zero(), window()) > window());
}

fn limits() -> Vec<ServiceLimit> {
    vec![
        ServiceLimit { name: "burst".into(), quota: 15, remaining: 12, reset: Duration::from_secs(1) },
        ServiceLimit { name: "daily".into(), quota: 10_000, remaining: 9_998, reset: Duration::from_secs(3_600) },
    ]
}

fn policies() -> Vec<QuotaPolicy> {
    vec![
        QuotaPolicy { name: "burst".into(), quota: 15, window: Some(Duration::from_secs(1)), unit: QuotaUnit::Requests },
        QuotaPolicy {
            name: "daily".into(),
            quota: 10_000,
            window: Some(Duration::from_secs(86_400)),
            unit: QuotaUnit::ContentBytes,
        },
    ]
}

#[test]
fn the_standard_fields_render_every_quota() {
    let fields = RateLimitFields { limits: limits(), policies: policies() };
    assert_eq!(
        lines(fields.encode()),
        [
            ("ratelimit".to_owned(), r#""burst";r=12;t=1, "daily";r=9998;t=3600"#.to_owned()),
            (
                "ratelimit-policy".to_owned(),
                r#""burst";q=15;w=1, "daily";q=10000;w=86400;qu="content-bytes""#.to_owned()
            ),
        ]
    );
}

#[test]
fn the_legacy_triple_reports_the_first_quota_only() {
    assert_eq!(
        lines(RateLimitHeaders::from_limits(&limits()).encode()),
        [
            ("x-ratelimit-limit".to_owned(), "15".to_owned()),
            ("x-ratelimit-remaining".to_owned(), "12".to_owned()),
            ("x-ratelimit-reset".to_owned(), "1".to_owned()),
        ]
    );
}

#[test]
fn a_policy_name_that_cannot_be_a_structured_string_is_dropped() {
    let fields = RateLimitFields {
        limits: vec![
            ServiceLimit { name: "still\nhere".into(), quota: 1, remaining: 0, reset: Duration::zero() },
            ServiceLimit { name: "fine".into(), quota: 2, remaining: 1, reset: Duration::from_secs(5) },
        ],
        policies: Vec::new(),
    };
    assert_eq!(lines(fields.encode()), [("ratelimit".to_owned(), r#""fine";r=1;t=5"#.to_owned())]);
}

#[test]
fn a_policy_name_carrying_a_quote_is_escaped() {
    let fields = RateLimitFields {
        limits: vec![ServiceLimit { name: r#"a"b\c"#.into(), quota: 1, remaining: 0, reset: Duration::zero() }],
        policies: Vec::new(),
    };
    assert_eq!(lines(fields.encode())[0].1, r#""a\"b\\c";r=0;t=0"#, "RFC 8941 section 3.3.3 escapes both");
}

#[test]
fn the_two_spellings_name_disjoint_fields() {
    let structured = RateLimitFields::names();
    for legacy in RateLimitHeaders::names() {
        assert!(!structured.contains(&legacy), "{} is claimed by both spellings", string(&legacy));
    }
}

#[test]
fn a_delay_shorter_than_a_second_is_still_a_delay() {
    let fields = RateLimitFields {
        limits: vec![ServiceLimit { name: "burst".into(), quota: 5, remaining: 0, reset: Duration::from_millis(400) }],
        policies: Vec::new(),
    };
    assert_eq!(lines(fields.encode())[0].1, r#""burst";r=0;t=1"#);

    assert_eq!(
        lines(RateLimitHeaders { limit: 5, remaining: 0, reset: Duration::from_millis(400) }.encode())[2].1,
        "1"
    );
    assert_eq!(lines(RateLimitHeaders { limit: 5, remaining: 5, reset: Duration::zero() }.encode())[2].1, "0");
}

#[test]
fn every_quota_unit_renders_as_a_string() {
    for unit in [QuotaUnit::Requests, QuotaUnit::ContentBytes] {
        let expected = match unit {
            QuotaUnit::Requests => "requests",
            QuotaUnit::ContentBytes => "content-bytes",
        };
        assert_eq!(unit.as_str(), expected);

        let fields = RateLimitFields {
            limits: Vec::new(),
            policies: vec![QuotaPolicy { name: "p".into(), quota: 1, window: None, unit }],
        };
        let policy = lines(fields.encode())
            .into_iter()
            .find(|(name, _)| name == "ratelimit-policy")
            .map(|(_, value)| value)
            .expect("a policy field");

        if unit == QuotaUnit::Requests {
            assert!(!policy.contains("qu="), "the default unit was stated: {policy}");
        } else {
            assert!(policy.contains(&format!(r#"qu="{expected}""#)), "the unit is not a structured String: {policy}");
        }
    }
}

// --- security headers --------------------------------------------------------

fn sent(headers: &SecurityHeaders, secure: bool) -> Vec<(String, String)> {
    lines(headers.fields(secure))
}

#[test]
fn the_default_set_is_the_three_that_are_safe_for_any_api() {
    assert_eq!(
        sent(&SecurityHeaders::new(), false),
        [
            ("x-content-type-options".to_owned(), "nosniff".to_owned()),
            ("x-frame-options".to_owned(), "DENY".to_owned()),
            ("referrer-policy".to_owned(), "no-referrer".to_owned()),
        ]
    );
}

#[test]
fn transport_security_rides_only_on_a_secure_transport() {
    let headers = SecurityHeaders::empty().strict_transport_security(Duration::from_secs(31_536_000));
    assert_eq!(
        sent(&headers, true),
        [("strict-transport-security".to_owned(), "max-age=31536000".to_owned())]
    );
    assert!(sent(&headers, false).is_empty(), "the field was sent over a transport the specification forbids it on");
}

#[test]
fn the_transport_security_modifiers_ride_on_the_field_they_modify() {
    let headers = SecurityHeaders::empty()
        .strict_transport_security(Duration::from_secs(63_072_000))
        .include_subdomains()
        .preload();
    assert_eq!(
        sent(&headers, true),
        [("strict-transport-security".to_owned(), "max-age=63072000; includeSubDomains; preload".to_owned())]
    );

    let bare = SecurityHeaders::empty().include_subdomains().preload();
    assert!(sent(&bare, true).is_empty());
}

#[test]
fn the_declared_names_are_exactly_the_names_that_can_be_sent() {
    let everything = SecurityHeaders::new()
        .frame_options(FrameOptions::SameOrigin)
        .referrer_policy(ReferrerPolicy::StrictOrigin)
        .permissions_policy("geolocation=()")
        .content_security_policy("default-src 'none'")
        .strict_transport_security(Duration::from_secs(1));

    let mut sent: Vec<String> = sent(&everything, true).into_iter().map(|(name, _)| name).collect();
    sent.sort();

    let mut declared: Vec<String> = SecurityHeaderNames::names().iter().map(|name| string(name)).collect();
    declared.sort();

    assert_eq!(sent, declared);
}

#[test]
fn the_group_is_declared_and_not_described() {
    assert!(!SecurityHeaderNames::DESCRIBED);
    assert!(!SecurityHeaderNames::names().is_empty());
}

#[test]
fn every_variant_of_both_policies_renders() {
    for options in [FrameOptions::Deny, FrameOptions::SameOrigin] {
        let expected = match options {
            FrameOptions::Deny => "DENY",
            FrameOptions::SameOrigin => "SAMEORIGIN",
        };
        assert_eq!(options.as_str(), expected);
    }

    for policy in [
        ReferrerPolicy::NoReferrer,
        ReferrerPolicy::SameOrigin,
        ReferrerPolicy::StrictOriginWhenCrossOrigin,
        ReferrerPolicy::StrictOrigin,
    ] {
        let expected = match policy {
            ReferrerPolicy::NoReferrer => "no-referrer",
            ReferrerPolicy::SameOrigin => "same-origin",
            ReferrerPolicy::StrictOriginWhenCrossOrigin => "strict-origin-when-cross-origin",
            ReferrerPolicy::StrictOrigin => "strict-origin",
        };
        assert_eq!(policy.as_str(), expected);
    }
}

#[test]
fn a_policy_that_cannot_be_a_field_value_is_not_sent() {
    let headers = SecurityHeaders::empty().content_security_policy("default-src\n'none'");
    assert!(sent(&headers, true).is_empty());
}

// --- request decompression -------------------------------------------------

fn encoded(values: &[&str]) -> Fields {
    let mut headers = Fields::new();
    for value in values {
        headers.append(b"content-encoding", value.as_bytes());
    }
    headers
}

#[test]
fn every_coding_is_named_by_the_token_it_is_named_by() {
    let cases: &[(&str, Option<Coding>)] = &[
        ("zstd", Some(Coding::Zstd)),
        ("br", Some(Coding::Brotli)),
        ("gzip", Some(Coding::Gzip)),
        ("x-gzip", Some(Coding::Gzip)),
        ("GZIP", Some(Coding::Gzip)),
        ("Br", Some(Coding::Brotli)),
        ("ZStD", Some(Coding::Zstd)),
        ("deflate", None),
        ("compress", None),
        ("x-compress", None),
        ("snappy", None),
        ("", None),
    ];

    for (token, expected) in cases {
        assert_eq!(Coding::from_token(token), *expected, "the token {token:?} was not read as {expected:?}");
    }
}

#[test]
fn a_body_that_names_no_coding_names_no_coding() {
    assert_eq!(declared(&Fields::new()), Some(Vec::new()));
}

#[test]
fn identity_is_dropped_rather_than_refused() {
    assert_eq!(declared(&encoded(&["identity"])), Some(Vec::new()));
    assert_eq!(declared(&encoded(&["identity, gzip"])), Some(vec![Coding::Gzip]));
}

#[test]
fn a_chain_is_read_in_the_order_it_was_applied() {
    assert_eq!(declared(&encoded(&["gzip, br"])), Some(vec![Coding::Gzip, Coding::Brotli]));
}

#[test]
fn a_chain_split_across_field_lines_is_read_whole() {
    assert_eq!(declared(&encoded(&["gzip", "br"])), Some(vec![Coding::Gzip, Coding::Brotli]));
}

#[test]
fn an_unknown_coding_refuses_the_whole_body() {
    assert_eq!(declared(&encoded(&["deflate"])), None);
    assert_eq!(declared(&encoded(&["gzip, deflate"])), None, "a chain is only decodable if every link is");
}

#[test]
fn a_chain_longer_than_the_cap_is_refused() {
    let longest = ["gzip"; MAX_CODINGS].join(", ");
    let overlong = ["gzip"; MAX_CODINGS + 1].join(", ");

    assert!(declared(&encoded(&[&longest])).is_some(), "the longest permitted chain was refused");
    assert_eq!(declared(&encoded(&[&overlong])), None);
}

#[test]
fn without_a_ratio_the_absolute_limit_is_the_only_bound() {
    let decompression = Decompression::new(1_000);
    assert_eq!(decompression.bound(1), 1_000);
    assert_eq!(decompression.bound(u64::MAX), 1_000);
}

#[test]
fn the_bound_is_whichever_limit_is_tighter() {
    let decompression = Decompression::new(1_000).max_ratio(10);
    assert_eq!(decompression.bound(1), 10, "the ratio should have bound it");
    assert_eq!(decompression.bound(1_000), 1_000, "the absolute limit should have bound it");
    assert_eq!(decompression.bound(100), 1_000, "the two coincide here, and the answer is the shared value");
}

#[test]
fn a_ratio_that_would_overflow_falls_back_to_the_absolute_limit() {
    let decompression = Decompression::new(1_000).max_ratio(u64::MAX);
    assert_eq!(decompression.bound(u64::MAX), 1_000);
}

#[test]
fn an_unreadable_coding_field_refuses_the_body() {
    let mut headers = Fields::new();
    headers.append(b"content-encoding", b"gz\xffip");
    assert_eq!(declared(&headers), None);
}

// --- cross-site request forgery -------------------------------------------

type Case = (&'static str, Method, &'static [(&'static str, &'static str)], bool);

fn browser_cases() -> Vec<Case> {
    vec![
        ("a GET from another site", Method::GET, &[("sec-fetch-site", "cross-site")], true),
        ("a HEAD from another site", Method::HEAD, &[("sec-fetch-site", "cross-site")], true),
        ("an OPTIONS preflight", Method::OPTIONS, &[("sec-fetch-site", "cross-site")], true),
        ("same-origin", Method::POST, &[("sec-fetch-site", "same-origin")], true),
        ("none, so no page caused it", Method::POST, &[("sec-fetch-site", "none")], true),
        ("cross-site", Method::POST, &[("sec-fetch-site", "cross-site")], false),
        ("same-site, which is not same-origin", Method::POST, &[("sec-fetch-site", "same-site")], false),
        (
            "cross-site claiming a trusted origin",
            Method::POST,
            &[("sec-fetch-site", "cross-site"), ("origin", "https://admin.example.com")],
            false,
        ),
    ]
}

fn legacy_cases() -> Vec<Case> {
    vec![
        ("a trusted origin, no fetch metadata", Method::POST, &[("origin", "https://admin.example.com")], true),
        (
            "an untrusted origin, no fetch metadata",
            Method::POST,
            &[("origin", "https://evil.example.com"), ("host", "api.example.com")],
            false,
        ),
        (
            "an origin matching the request's own host",
            Method::POST,
            &[("origin", "https://api.example.com"), ("host", "api.example.com")],
            true,
        ),
        (
            "an origin whose host differs only in case",
            Method::POST,
            &[("origin", "https://API.example.com"), ("host", "api.example.com")],
            true,
        ),
        ("an origin with no matching host field", Method::POST, &[("origin", "https://api.example.com")], false),
        ("no fetch metadata and no origin", Method::POST, &[], true),
        ("a DELETE from nothing browser-like", Method::DELETE, &[("host", "api.example.com")], true),
    ]
}

#[test]
fn every_rule_the_scheme_states_is_applied_in_order() {
    let csrf = Csrf::new().trusting_origin("https://admin.example.com");
    for (description, method, fields, expected) in browser_cases().into_iter().chain(legacy_cases()) {
        assert_eq!(csrf.permits(&method, &map(fields)), expected, "{description}");
    }
}

#[test]
fn a_trusted_origin_does_not_trust_anything_beneath_it() {
    let csrf = Csrf::new().trusting_origin("https://example.com");
    assert!(!csrf.permits(&Method::POST, &map(&[("origin", "https://evil.example.com"), ("host", "api.example.com")])));
}

#[test]
fn the_safe_methods_are_the_ones_the_specification_names() {
    for method in [Method::GET, Method::HEAD, Method::OPTIONS] {
        assert!(is_safe(&method), "{method:?} is safe");
    }
    for method in [Method::POST, Method::PUT, Method::PATCH, Method::DELETE, Method::TRACE] {
        assert!(!is_safe(&method), "{method:?} is not read-only for this purpose");
    }
}

#[test]
fn an_origin_reduces_to_its_authority() {
    assert_eq!(string(&authority_of("https://api.example.com")), "api.example.com");
    assert_eq!(string(&authority_of("http://api.example.com:8080")), "api.example.com:8080");
    assert_eq!(string(&authority_of("https://API.Example.COM")), "api.example.com");
    assert_eq!(string(&authority_of("null")), "null");
}

#[test]
fn the_target_authority_stands_in_for_a_missing_host() {
    let csrf = Csrf::new();
    let headers = map(&[("origin", "https://api.example.com")]);
    assert!(csrf.permits_at(&Method::POST, &headers, Some(b"API.example.com")));
    assert!(!csrf.permits_at(&Method::POST, &headers, Some(b"other.example.com")));
}

// --- conditional requests ----------------------------------------------------

fn precondition(value: &str) -> Preconditions {
    Preconditions::decode(&map(&[("if-none-match", value)]))
}

fn tags(values: &[&str]) -> IfNoneMatch {
    IfNoneMatch::Tags(values.iter().map(|v| v.as_bytes().to_vec()).collect())
}

#[test]
fn a_tag_renders_the_way_the_grammar_writes_it() {
    assert_eq!(ETag::strong("abc").encode().map(|v| string(&v)), Some("\"abc\"".to_owned()));
    assert_eq!(ETag::weak("abc").encode().map(|v| string(&v)), Some("W/\"abc\"".to_owned()));
}

#[test]
fn a_tag_that_cannot_be_a_field_renders_nothing() {
    for value in ["a\"b", "a b", "a\nb"] {
        assert_eq!(ETag::strong(value).encode(), None, "{value:?}");
    }
    for value in ["a-b_c.1", "a,b"] {
        assert!(ETag::strong(value).encode().is_some(), "{value:?}");
    }
}

#[test]
fn a_comma_inside_a_tag_does_not_split_it() {
    assert_eq!(precondition("\"a,b\"").if_none_match, Some(tags(&["\"a,b\""])));
    assert_eq!(precondition("\"a,b\", \"c\"").if_none_match, Some(tags(&["\"a,b\"", "\"c\""])));

    let current = map(&[("etag", "\"a,b\"")]);
    let read = precondition("\"a,b\"").if_none_match.expect("a precondition");
    assert!(matched(&read, &current));
}

#[test]
fn decoding_a_precondition_never_fails() {
    let mut headers = Fields::new();
    headers.append(b"if-none-match", b"\xff");
    let decoded = Preconditions::decode(&headers);
    assert_eq!(decoded.if_none_match, None);
}

#[test]
fn a_wildcard_precondition_is_read_as_one() {
    assert_eq!(precondition("*").if_none_match, Some(IfNoneMatch::Any));
}

#[test]
fn a_list_of_tags_is_read_as_a_list() {
    assert_eq!(precondition("\"a\", W/\"b\"").if_none_match, Some(tags(&["\"a\"", "W/\"b\""])));
}

#[test]
fn the_comparison_is_weak() {
    let current = map(&[("etag", "\"abc\"")]);
    for condition in ["\"abc\"", "W/\"abc\"", "\"other\", \"abc\"", "*"] {
        let read = precondition(condition).if_none_match.expect("a precondition");
        assert!(matched(&read, &current), "{condition}");
    }
    for condition in ["\"other\"", "W/\"other\""] {
        let read = precondition(condition).if_none_match.expect("a precondition");
        assert!(!matched(&read, &current), "{condition}");
    }
}

#[test]
fn a_response_with_no_tag_matches_nothing() {
    let untagged = Fields::new();
    for condition in ["*", "\"abc\""] {
        let read = precondition(condition).if_none_match.expect("a precondition");
        assert!(!matched(&read, &untagged), "{condition}");
    }
}

#[test]
fn a_not_modified_replays_what_a_cache_needs_and_nothing_else() {
    let produced = map(&[
        ("etag", "\"abc\""),
        ("cache-control", "max-age=60"),
        ("vary", "accept-encoding"),
        ("content-type", "application/json"),
        ("content-length", "42"),
    ]);

    let not_modified = NotModified::from_headers(&produced);
    let replayed = not_modified.replayed();

    assert_eq!(replayed.get_text(b"etag").map(|v| string(&v)).as_deref(), Some("\"abc\""));
    assert!(replayed.contains(b"cache-control"));
    assert!(replayed.contains(b"vary"));
    assert!(!replayed.contains(b"content-type"));
    assert!(!replayed.contains(b"content-length"));
    assert_eq!(not_modified.status(), 304);
}

// --- the shared cache --------------------------------------------------------

fn storable(request: &[(&str, &str)], response: &[(&str, &str)]) -> Result<Duration, Unstorable> {
    freshness::storable(&Method::GET, 200, &map(request), &map(response), None)
}

#[test]
fn an_explicitly_cacheable_response_is_stored() {
    assert_eq!(storable(&[], &[("cache-control", "max-age=60")]), Ok(Duration::from_secs(60)));
}

#[test]
fn every_refusal_has_a_case() {
    let cases: &[(Unstorable, Result<Duration, Unstorable>)] = &[
        (Unstorable::Method, freshness::storable(&Method::POST, 200, &Fields::new(), &map(&[("cache-control", "max-age=60")]), None)),
        (Unstorable::Status, freshness::storable(&Method::GET, 500, &Fields::new(), &map(&[("cache-control", "max-age=60")]), None)),
        (Unstorable::RequestNoStore, storable(&[("cache-control", "no-store")], &[("cache-control", "max-age=60")])),
        (Unstorable::ResponseNoStore, storable(&[], &[("cache-control", "max-age=60, no-store")])),
        (Unstorable::Private, storable(&[], &[("cache-control", "max-age=60, private")])),
        (Unstorable::NoCache, storable(&[], &[("cache-control", "max-age=60, no-cache")])),
        (Unstorable::VaryWildcard, storable(&[], &[("cache-control", "max-age=60"), ("vary", "*")])),
        (Unstorable::SetCookie, storable(&[], &[("cache-control", "max-age=60"), ("set-cookie", "a=1")])),
        (Unstorable::Authorized, storable(&[("authorization", "Bearer x")], &[("cache-control", "max-age=60")])),
        (Unstorable::NoFreshness, storable(&[], &[])),
    ];

    for (expected, actual) in cases {
        assert_eq!(actual, &Err(*expected), "{expected:?}");
    }

    let variants = [
        Unstorable::Method,
        Unstorable::Status,
        Unstorable::RequestNoStore,
        Unstorable::ResponseNoStore,
        Unstorable::Private,
        Unstorable::NoCache,
        Unstorable::VaryWildcard,
        Unstorable::SetCookie,
        Unstorable::Authorized,
        Unstorable::NoFreshness,
        Unstorable::Body,
    ];

    for variant in variants {
        let _: &str = match variant {
            Unstorable::Method => "method",
            Unstorable::Status => "status",
            Unstorable::RequestNoStore => "request no-store",
            Unstorable::ResponseNoStore => "response no-store",
            Unstorable::Private => "private",
            Unstorable::NoCache => "no-cache",
            Unstorable::VaryWildcard => "vary: *",
            Unstorable::SetCookie => "set-cookie",
            Unstorable::Authorized => "authorized",
            Unstorable::NoFreshness => "no freshness",
            Unstorable::Body => "decided by the interceptor, not here",
        };
    }

    assert_eq!(cases.len() + 1, variants.len(), "a refusal has no case");
}

#[test]
fn a_narrowed_directive_is_read_as_the_whole_one() {
    assert_eq!(storable(&[], &[("cache-control", "max-age=60, private=\"x\"")]), Err(Unstorable::Private));
}

#[test]
fn an_authenticated_response_is_stored_only_when_it_says_so() {
    for directive in ["max-age=60, public", "s-maxage=60"] {
        assert!(storable(&[("authorization", "Bearer x")], &[("cache-control", directive)]).is_ok(), "{directive}");
    }
}

#[test]
fn the_shared_lifetime_wins_over_the_private_one() {
    assert_eq!(storable(&[], &[("cache-control", "max-age=10, s-maxage=99")]), Ok(Duration::from_secs(99)));
}

#[test]
fn a_response_that_said_nothing_is_not_reused_unless_a_default_was_set() {
    assert_eq!(storable(&[], &[]), Err(Unstorable::NoFreshness));
    assert_eq!(
        freshness::storable(&Method::GET, 200, &Fields::new(), &Fields::new(), Some(Duration::from_secs(30))),
        Ok(Duration::from_secs(30))
    );
}

#[test]
fn the_cacheable_set_is_the_one_the_specification_names() {
    assert_eq!(cacheable(), [200, 203, 204, 300, 301, 308, 404, 405, 410, 414, 501]);
    assert!(!cacheable().contains(&206));
}

#[test]
fn a_stored_response_keeps_no_connection_specific_field() {
    let mut headers = map(&[
        ("connection", "keep-alive"),
        ("keep-alive", "timeout=5"),
        ("transfer-encoding", "chunked"),
        ("age", "42"),
        ("etag", "\"abc\""),
        ("content-type", "application/json"),
    ]);

    freshness::strip(&mut headers);

    for name in hop_by_hop() {
        assert!(!headers.contains(&name), "{} survived", string(&name));
    }
    assert!(headers.contains(b"etag"));
    assert!(headers.contains(b"content-type"));
}

#[test]
fn the_vary_names_are_a_set() {
    let names: Vec<String> = freshness::vary(&map(&[("vary", "Accept-Encoding, origin"), ("vary", "ORIGIN")]))
        .iter()
        .map(|n| string(n))
        .collect();
    assert_eq!(names, ["accept-encoding", "origin"]);
}

#[test]
fn a_cross_origin_response_that_does_not_vary_on_origin_is_refused() {
    assert!(refuses_cross_origin(&map(&[("access-control-allow-origin", "https://app.example.com")])));
    assert!(!refuses_cross_origin(&map(&[
        ("access-control-allow-origin", "https://app.example.com"),
        ("vary", "origin"),
    ])));
    assert!(!refuses_cross_origin(&map(&[("etag", "\"abc\"")])));
}

#[test]
fn a_derived_tag_is_the_same_for_the_same_octets_and_differs_otherwise() {
    let one = kynos::middleware::cache::derived_etag(b"hello");
    assert_eq!(one, kynos::middleware::cache::derived_etag(b"hello"));
    assert_ne!(one, kynos::middleware::cache::derived_etag(b"hellp"));
    assert_eq!(one.len(), 18);
    assert_eq!(one[0], b'"');
    assert_eq!(one[17], b'"');
}

// --- compression levels --------------------------------------------------

fn levels_accepted() {
    for level in 0..=9 {
        assert!(GzipLevel::new(level).is_some(), "gzip refused level {level}, which DEFLATE defines");
    }
    assert_eq!(GzipLevel::new(10), None);

    for level in 0..=11 {
        assert!(BrotliLevel::new(level).is_some(), "brotli refused quality {level}, which RFC 7932 defines");
    }
    assert_eq!(BrotliLevel::new(12), None);

    for level in 1..=22 {
        assert!(ZstdLevel::new(level).is_some(), "zstd refused level {level}, which the encoder defines");
    }
    assert_eq!(ZstdLevel::new(0), None, "zstd numbers its levels from one");
    assert_eq!(ZstdLevel::new(23), None);
    assert_eq!(ZstdLevel::new(-1), None, "the negative fast levels are deliberately unreachable");
}

fn levels_named() {
    for level in [GzipLevel::fastest(), GzipLevel::default_level(), GzipLevel::best()] {
        assert_eq!(GzipLevel::new(level.get()), Some(level));
    }
    for level in [BrotliLevel::fastest(), BrotliLevel::default_level(), BrotliLevel::best()] {
        assert_eq!(BrotliLevel::new(level.get()), Some(level));
    }
    for level in [ZstdLevel::fastest(), ZstdLevel::default_level(), ZstdLevel::best()] {
        assert_eq!(ZstdLevel::new(level.get()), Some(level));
    }
}

fn levels_default() {
    assert_eq!(GzipLevel::default(), GzipLevel::default_level());
    assert_eq!(BrotliLevel::default(), BrotliLevel::default_level());
    assert_eq!(ZstdLevel::default(), ZstdLevel::default_level());
}

fn levels_brotli() {
    assert_ne!(BrotliLevel::default_level(), BrotliLevel::best());
    assert_eq!(BrotliLevel::default_level().get(), 4);
}

#[test]
fn levels_each_format_accepts_the_levels_it_defines_and_no_others() {
    levels_accepted();
}

#[test]
fn tests_each_format_accepts_the_levels_it_defines_and_no_others() {
    levels_accepted();
}

#[test]
fn levels_every_named_level_is_one_its_own_constructor_would_have_accepted() {
    levels_named();
}

#[test]
fn tests_every_named_level_is_one_its_own_constructor_would_have_accepted() {
    levels_named();
}

#[test]
fn levels_the_default_is_the_documented_one() {
    levels_default();
}

#[test]
fn tests_the_default_is_the_documented_one() {
    levels_default();
}

#[test]
fn levels_brotli_does_not_inherit_the_reference_encoders_default() {
    levels_brotli();
}

#[test]
fn tests_brotli_does_not_inherit_the_reference_encoders_default() {
    levels_brotli();
}

// --- compression validators ------------------------------------------------

fn tagged(value: Option<&str>) -> Fields {
    let mut headers = Fields::new();
    if let Some(value) = value {
        headers.insert(b"etag", value.as_bytes());
    }
    headers
}

#[test]
fn only_a_strong_validator_stops_the_encoder() {
    let cases: &[(&str, Option<&str>, bool)] = &[
        ("no validator at all", None, false),
        ("a strong tag", Some("\"rev-42\""), true),
        ("a weak tag", Some("W/\"rev-42\""), false),
        ("a lowercase weakness prefix", Some("w/\"rev-42\""), true),
        ("a strong tag with surrounding space", Some("  \"rev-42\"  "), true),
    ];
    for (description, tag, expected) in cases {
        assert_eq!(strongly_tagged(&tagged(*tag)), *expected, "{description}");
    }
}

// --- stacking --------------------------------------------------------------

#[test]
fn header_names_compare_without_regard_to_case() {
    assert!(header_name_eq("X-Request-Id", "x-request-id"));
    assert!(!header_name_eq("x-request-id", "x-request-ids"));
    assert!(!header_name_eq("x-a", "x-b"));
}

#[test]
fn a_shared_header_is_not_disjoint() {
    assert!(header_names_disjoint(&["x-a"], &["x-b", "x-c"]));
    assert!(!header_names_disjoint(&["x-a", "x-b"], &["X-B"]));
    assert!(header_names_disjoint(&[], &["x-a"]));
}

#[test]
fn a_shared_status_is_not_disjoint() {
    assert!(statuses_disjoint(&[413], &[503, 504]));
    assert!(!statuses_disjoint(&[429, 503], &[503]));
    assert!(statuses_disjoint(&[], &[503]));
}

#[test]
fn the_checks_are_usable_in_const_context() {
    assert!(header_names_disjoint(&["x-a"], &["x-b"]));
    assert!(statuses_disjoint(&[413], &[504]));
    assert!(!header_names_disjoint(&["x-a"], &["X-A"]));
}

// --- Vary --------------------------------------------------------------------

fn vary_after(existing: Option<&str>, names: &[&str]) -> Option<String> {
    let mut headers = Fields::new();
    if let Some(existing) = existing {
        headers.insert(b"vary", existing.as_bytes());
    }
    vary_on(&mut headers, names);
    headers.get(b"vary").map(|value| string(&value))
}

fn union_keeps() {
    let vary = vary_after(Some("accept"), &["origin"]).expect("a Vary");
    let names: Vec<_> = vary.split(',').map(str::trim).collect();
    assert!(names.contains(&"accept"), "lost the existing field: {vary}");
    assert!(names.contains(&"origin"), "never added its own: {vary}");
}

fn union_once() {
    let vary = vary_after(Some("Origin"), &["origin"]).expect("a Vary");
    let names: Vec<_> = vary.split(',').map(str::trim).collect();
    assert_eq!(names.len(), 1, "repeated one field name: {vary}");
}

fn wildcard_absorbs() {
    let vary = vary_after(Some("*"), &["origin"]).expect("a Vary");
    assert_eq!(vary, "*");
}

#[test]
fn tests_a_vary_union_keeps_the_field_names_already_present() {
    union_keeps();
}

#[test]
fn mod_a_vary_union_keeps_the_field_names_already_present() {
    union_keeps();
}

#[test]
fn tests_a_vary_union_adds_no_name_twice_whatever_its_case() {
    union_once();
}

#[test]
fn mod_a_vary_union_adds_no_name_twice_whatever_its_case() {
    union_once();
}

#[test]
fn tests_a_wildcard_vary_absorbs_every_name_added_to_it() {
    wildcard_absorbs();
}

#[test]
fn mod_a_wildcard_vary_absorbs_every_name_added_to_it() {
    wildcard_absorbs();
}

#[test]
fn tests_a_group_that_varies_on_nothing_writes_no_vary() {
    assert_eq!(vary_after(None, &[]), None);
}

#[test]
fn mod_a_group_that_varies_on_nothing_writes_no_vary() {
    assert_eq!(vary_after(None, &[]), None);
}

#[test]
fn an_empty_stack_flattens_away() {
    fn flattens_to<A: Flatten<S, Out = B>, B, S>() {}

    struct Left;
    struct Right;

    flattens_to::<(), (), ()>();
    flattens_to::<Both<(), ()>, (), ()>();
    flattens_to::<Both<Both<(), ()>, ()>, (), ()>();

    flattens_to::<Cons<Left, ()>, Cons<Left, ()>, ()>();
    flattens_to::<Cons<Left, ()>, Cons<Left, Cons<Right, ()>>, Cons<Right, ()>>();

    flattens_to::<Both<Cons<Left, ()>, Cons<Right, ()>>, Cons<Left, Cons<Right, ()>>, ()>();
}

#[test]
fn each_undecodable_body_is_answered_with_its_own_status() {
    assert_eq!(Undecodable::UnsupportedCoding.status(), 415);
    assert_eq!(Undecodable::Malformed.status(), 400);
    assert_eq!(Undecodable::TooLarge { limit: 10 }.status(), 413);
    assert_eq!(Undecodable::statuses(), vec![400, 413, 415]);

    assert_eq!(
        lines(Undecodable::UnsupportedCoding.fields()),
        vec![("accept-encoding".to_string(), "zstd, br, gzip".to_string())]
    );
    assert!(Undecodable::Malformed.fields().is_empty());

    assert!(exceeds(6, 5, 10));
    assert!(!exceeds(5, 5, 10));
    assert!(exceeds(u64::MAX, 1, u64::MAX - 1));
}

fn cookies_sent() -> Vec<String> {
    let mut response = Fields::new();
    let lines = vec![
        (b"set-cookie".to_vec(), b"first=1; Path=/".to_vec()),
        (b"set-cookie".to_vec(), b"second=2; Path=/".to_vec()),
    ];
    kynos::middleware::write_group(&mut response, &lines, true, &[]);
    response.get_all(b"set-cookie").iter().map(|v| string(v)).collect()
}

fn encoding_sent() -> Vec<String> {
    let mut response = map(&[("content-encoding", "br")]);
    let lines = vec![(b"content-encoding".to_vec(), b"gzip".to_vec())];
    kynos::middleware::write_group(&mut response, &lines, false, &[]);
    response.get_all(b"content-encoding").iter().map(|v| string(v)).collect()
}

#[test]
fn mod_a_repeatable_group_reaches_the_wire_once_per_value() {
    assert_eq!(cookies_sent(), ["first=1; Path=/", "second=2; Path=/"]);
}

#[test]
fn tests_a_repeatable_group_reaches_the_wire_once_per_value() {
    assert_eq!(cookies_sent(), ["first=1; Path=/", "second=2; Path=/"]);
}

#[test]
fn mod_a_group_that_is_not_repeatable_replaces_the_value_already_set() {
    assert_eq!(encoding_sent(), ["gzip"]);
}

#[test]
fn tests_a_group_that_is_not_repeatable_replaces_the_value_already_set() {
    assert_eq!(encoding_sent(), ["gzip"]);
}

#[test]
fn a_written_group_merges_what_it_varies_on() {
    let mut response = map(&[("vary", "accept-encoding")]);
    kynos::middleware::write_group(&mut response, &Vec::new(), false, &["origin"]);
    assert_eq!(response.get(b"vary").map(|v| string(&v)), Some("accept-encoding, origin".to_string()));
}
