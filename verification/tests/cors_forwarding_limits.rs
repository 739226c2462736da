use kynos::fields::Fields;
use kynos::http::forwarded::{elements, node_text, within, Forwarded, IpAddr, NodeText, TrustedProxies};
use kynos::http::method::Method;
use kynos::middleware::cors::preflight::{FallbackPolicy, Preflight, Scope};
use kynos::middleware::cors::{Cors, CorsConfig, CorsDocumentation, Documented, Undocumented};
use kynos::time::Duration;

/// A header block from pairs, appending so a repeated name stays repeated.
fn map(fields: &[(&str, &str)]) -> Fields {
    let mut headers = Fields::new();
    for (name, value) in fields {
        headers.append(name.as_bytes(), value.as_bytes());
    }
    headers
}

fn text(bytes: &[u8]) -> String {
    String::from_utf8(bytes.to_vec()).expect("a printable field")
}

// --- forwarding --------------------------------------------------------------

/// A dotted-quad address.
fn ip(dotted: &str) -> IpAddr {
    parse_v4(dotted.as_bytes()).expect("a dotted quad")
}

fn parse_v4(bytes: &[u8]) -> Option<IpAddr> {
    let text = std::str::from_utf8(bytes).ok()?;
    let parts: Vec<&str> = text.split('.').collect();
    if parts.len() != 4 {
        return None;
    }
    let mut octets = [0u8; 4];
    for (slot, part) in octets.iter_mut().zip(parts) {
        *slot = part.parse().ok()?;
    }
    Some(IpAddr::V4(octets))
}

/// The address a node names, for the IPv4 nodes these cases use: the whole
/// text where it is one, else the part before a port.
fn address_of(node: &[u8]) -> Option<IpAddr> {
    match node_text(node) {
        NodeText::Bracketed(inside) => parse_v4(&inside),
        NodeText::Unclosed => None,
        NodeText::Plain { whole, host } => parse_v4(&whole).or_else(|| parse_v4(&host)),
    }
}

/// What a request with `headers`, from `peer`, resolves to under `trusted`.
fn resolve(headers: &Fields, peer: Option<IpAddr>, trusted: &TrustedProxies) -> Forwarded {
    let (nodes, proto) = elements(headers);
    let addresses: Vec<IpAddr> = nodes.iter().filter_map(|node| address_of(node)).collect();
    Forwarded::resolve(&addresses, proto, peer, trusted)
}

#[test]
fn an_unconfigured_policy_believes_no_forwarding_field() {
    let headers = map(&[
        ("forwarded", "for=203.0.113.7;proto=https"),
        ("x-forwarded-for", "203.0.113.8"),
    ]);

    let resolved = resolve(&headers, Some(ip("10.0.0.1")), &TrustedProxies::none());

    assert_eq!(resolved.client(), Some(ip("10.0.0.1")));
    assert_eq!(resolved.proto(), None);
    assert_eq!(resolved.client_is_secure(), None);
}

#[test]
fn one_trusted_hop_reads_one_element() {
    let headers = map(&[("forwarded", "for=198.51.100.9, for=203.0.113.7")]);

    let resolved = resolve(&headers, Some(ip("10.0.0.1")), &TrustedProxies::hops(1));

    assert_eq!(
        resolved.client(),
        Some(ip("203.0.113.7")),
        "one hop of trust must not reach past the element the trusted proxy wrote"
    );
}

#[test]
fn two_trusted_hops_reach_the_second_element() {
    let headers = map(&[("forwarded", "for=198.51.100.9, for=203.0.113.7")]);

    let resolved = resolve(&headers, Some(ip("10.0.0.1")), &TrustedProxies::hops(2));

    assert_eq!(resolved.client(), Some(ip("198.51.100.9")));
}

#[test]
fn a_forged_chain_cannot_outrun_the_configured_trust() {
    let headers = map(&[("forwarded", "for=1.1.1.1, for=2.2.2.2, for=3.3.3.3, for=203.0.113.7")]);

    let resolved = resolve(&headers, Some(ip("10.0.0.1")), &TrustedProxies::hops(1));

    assert_eq!(resolved.client(), Some(ip("203.0.113.7")));
}

#[test]
fn a_trusted_network_reads_the_element_its_member_wrote() {
    let headers = map(&[("forwarded", "for=203.0.113.7")]);
    let trusted = TrustedProxies::networks(vec![(ip("10.0.0.0"), 8)]);

    let resolved = resolve(&headers, Some(ip("10.4.5.6")), &trusted);

    assert_eq!(resolved.client(), Some(ip("203.0.113.7")));
}

#[test]
fn a_sender_outside_the_trusted_networks_is_not_believed() {
    let headers = map(&[("forwarded", "for=203.0.113.7")]);
    let trusted = TrustedProxies::networks(vec![(ip("10.0.0.0"), 8)]);

    let resolved = resolve(&headers, Some(ip("192.0.2.5")), &trusted);

    assert_eq!(resolved.client(), Some(ip("192.0.2.5")));
}

#[test]
fn the_specified_field_wins_over_the_de_facto_one() {
    let headers = map(&[
        ("forwarded", "for=203.0.113.7;proto=https"),
        ("x-forwarded-for", "198.51.100.9"),
        ("x-forwarded-proto", "http"),
    ]);

    let resolved = resolve(&headers, Some(ip("10.0.0.1")), &TrustedProxies::hops(1));

    assert_eq!(resolved.client(), Some(ip("203.0.113.7")));
    assert_eq!(resolved.proto(), Some(b"https".to_vec()));
}

#[test]
fn the_de_facto_pair_is_read_when_it_is_all_there_is() {
    let headers = map(&[("x-forwarded-for", "198.51.100.9, 203.0.113.7"), ("x-forwarded-proto", "https")]);

    let resolved = resolve(&headers, Some(ip("10.0.0.1")), &TrustedProxies::hops(1));

    assert_eq!(resolved.client(), Some(ip("203.0.113.7")));
    assert_eq!(resolved.client_is_secure(), Some(true));
}

#[test]
fn a_network_contains_exactly_the_addresses_its_prefix_names() {
    let cases: &[(&str, &str, u8, bool)] = &[
        ("10.4.5.6", "10.0.0.0", 8, true),
        ("11.4.5.6", "10.0.0.0", 8, false),
        ("10.127.0.1", "10.0.0.0", 9, true),
        ("10.128.0.1", "10.0.0.0", 9, false),
        ("192.168.1.1", "192.168.0.0", 16, true),
        ("192.169.1.1", "192.168.0.0", 16, false),
        ("203.0.113.1", "0.0.0.0", 0, true),
        ("203.0.113.1", "203.0.113.1", 32, true),
        ("203.0.113.2", "203.0.113.1", 32, false),
        ("203.0.113.1", "203.0.113.1", 33, false),
    ];

    for (address, network, prefix, expected) in cases {
        assert_eq!(within(ip(address), ip(network), *prefix), *expected, "{address} in {network}/{prefix}");
    }

    // 2001:db8::1 in 2001:db8::/32, and 2001:db9::1 not.
    let v6 = |second: u8, last: u8| {
        let mut octets = [0u8; 16];
        octets[0] = 0x20;
        octets[1] = 0x01;
        octets[2] = 0x0d;
        octets[3] = second;
        octets[15] = last;
        IpAddr::V6(octets)
    };
    assert!(within(v6(0xb8, 1), v6(0xb8, 0), 32));
    assert!(!within(v6(0xb9, 1), v6(0xb8, 0), 32));
}

#[test]
fn a_network_never_matches_across_address_families() {
    let mut mapped = [0u8; 16];
    mapped[10] = 0xff;
    mapped[11] = 0xff;
    mapped[12] = 10;
    mapped[15] = 1;
    assert!(!within(IpAddr::V6(mapped), ip("10.0.0.0"), 8));
    assert!(!within(ip("10.0.0.1"), IpAddr::V6([0u8; 16]), 0));
}

#[test]
fn a_request_from_no_socket_resolves_to_no_client() {
    let resolved = resolve(&Fields::new(), None, &TrustedProxies::none());
    assert_eq!(resolved.client(), None);
}

#[test]
fn a_node_is_split_into_the_forms_the_grammar_defines() {
    assert_eq!(
        node_text(b"[2001:db8:cafe::17]:4711"),
        NodeText::Bracketed(b"2001:db8:cafe::17".to_vec())
    );
    assert_eq!(node_text(b"[2001:db8"), NodeText::Unclosed);
    assert_eq!(
        node_text(b" 192.0.2.60:4711 "),
        NodeText::Plain { whole: b"192.0.2.60:4711".to_vec(), host: b"192.0.2.60".to_vec() }
    );
    assert_eq!(address_of(b"unknown:4711"), None);
    assert_eq!(address_of(b"192.0.2.60:4711"), Some(ip("192.0.2.60")));
}

// --- CORS --------------------------------------------------------------------

fn named() -> CorsConfig {
    CorsConfig { origins: vec!["https://app.example.com".into()], ..CorsConfig::default() }
}

fn preflight(config: CorsConfig) -> Preflight {
    Preflight::new(vec![Scope::new(config, vec![Method::Get, Method::Delete])], b"GET, DELETE", FallbackPolicy::Problem)
}

fn asking(origin: Option<&str>, method: Option<&str>, headers: Option<&str>) -> Fields {
    let mut fields = Fields::new();
    if let Some(origin) = origin {
        fields.insert(b"origin", origin.as_bytes());
    }
    if let Some(method) = method {
        fields.insert(b"access-control-request-method", method.as_bytes());
    }
    if let Some(headers) = headers {
        fields.insert(b"access-control-request-headers", headers.as_bytes());
    }
    fields
}

fn field(headers: &Fields, name: &str) -> Option<String> {
    headers.get(name.as_bytes()).map(|v| text(&v))
}

#[test]
fn a_request_without_an_origin_is_not_a_preflight() {
    let response = preflight(named()).answer(&asking(None, Some("GET"), None), false);

    assert_eq!(response.status, 405);
    assert_eq!(field(&response.headers, "allow").as_deref(), Some("GET, DELETE"));
}

#[test]
fn a_request_without_an_access_control_request_method_is_not_a_preflight() {
    let response = preflight(named()).answer(&asking(Some("https://app.example.com"), None, None), false);

    assert_eq!(response.status, 405);
    assert_eq!(field(&response.headers, "allow").as_deref(), Some("GET, DELETE"));
}

#[test]
fn an_unpermitted_origin_is_answered_with_no_cors_header_at_all() {
    let response = preflight(named()).answer(&asking(Some("https://evil.example.com"), Some("GET"), None), false);

    assert_eq!(response.status, 204);
    assert_eq!(field(&response.headers, "access-control-allow-origin"), None);
    assert_eq!(field(&response.headers, "access-control-allow-methods"), None);
}

#[test]
fn a_permitted_preflight_advertises_exactly_the_methods_the_path_declares() {
    let response = preflight(named()).answer(&asking(Some("https://app.example.com"), Some("GET"), None), false);

    assert_eq!(response.status, 204);
    assert_eq!(
        field(&response.headers, "access-control-allow-origin").as_deref(),
        Some("https://app.example.com")
    );
    assert_eq!(field(&response.headers, "access-control-allow-methods").as_deref(), Some("GET, DELETE"));
}

#[test]
fn an_overridden_method_list_replaces_the_declared_one() {
    let config = CorsConfig { methods: Some(vec![Method::Patch]), ..named() };

    let response = preflight(config).answer(&asking(Some("https://app.example.com"), Some("PATCH"), None), false);

    assert_eq!(field(&response.headers, "access-control-allow-methods").as_deref(), Some("PATCH"));
}

#[test]
fn permitting_any_header_echoes_the_request_headers_on_a_credentialed_preflight() {
    let config = CorsConfig { any_header: true, credentials: true, ..named() };

    let response = preflight(config).answer(
        &asking(Some("https://app.example.com"), Some("GET"), Some("x-trace-id, authorization")),
        false,
    );

    assert_eq!(
        field(&response.headers, "access-control-allow-headers").as_deref(),
        Some("x-trace-id, authorization")
    );
    assert_eq!(field(&response.headers, "access-control-allow-credentials").as_deref(), Some("true"));
}

#[test]
fn permitting_any_header_answers_a_wildcard_without_credentials() {
    let config = CorsConfig { any_header: true, ..named() };

    let response =
        preflight(config).answer(&asking(Some("https://app.example.com"), Some("GET"), Some("x-trace-id")), false);

    assert_eq!(field(&response.headers, "access-control-allow-headers").as_deref(), Some("*"));
}

#[test]
fn a_preflight_varies_on_the_three_fields_it_read() {
    let response = preflight(named()).answer(&asking(Some("https://app.example.com"), Some("GET"), None), false);

    let vary = field(&response.headers, "vary").expect("a Vary");
    let names: Vec<_> = vary.split(',').map(str::trim).collect();

    assert!(names.contains(&"origin"), "{vary}");
    assert!(names.contains(&"access-control-request-method"), "{vary}");
    assert!(names.contains(&"access-control-request-headers"), "{vary}");
}

#[test]
fn a_refused_preflight_varies_the_same_way_a_permitted_one_does() {
    let response = preflight(named()).answer(&asking(Some("https://evil.example.com"), Some("GET"), None), false);

    assert!(field(&response.headers, "vary").is_some());
}

#[test]
fn a_configured_max_age_is_advertised_in_whole_seconds() {
    let config = CorsConfig { max_age: Some(Duration::from_secs(600)), ..named() };

    let response = preflight(config).answer(&asking(Some("https://app.example.com"), Some("GET"), None), false);

    assert_eq!(field(&response.headers, "access-control-max-age").as_deref(), Some("600"));
}

#[test]
fn permitting_any_origin_alongside_credentials_is_a_conflict() {
    let config = CorsConfig { any_origin: true, credentials: true, ..CorsConfig::default() };

    assert!(config.conflict().is_some());
}

#[test]
fn permitting_any_origin_alone_is_not_a_conflict() {
    let any_origin = CorsConfig { any_origin: true, ..CorsConfig::default() };
    let credentialed = CorsConfig {
        origins: vec!["https://app.example.com".into()],
        credentials: true,
        ..CorsConfig::default()
    };

    assert!(any_origin.conflict().is_none());
    assert!(credentialed.conflict().is_none());
}

/// The application's predicates are asked in the server; the configuration
/// is handed their verdict.
fn subdomain(origin: &str) -> bool {
    origin.ends_with(".example.com")
}

#[test]
fn a_predicate_permits_the_origins_it_accepts_and_no_others() {
    let config = Cors::new().config().clone();

    let accepted = "https://app.example.com";
    let refused = "https://example.com.evil.test";
    assert!(config.permits(accepted.as_bytes(), subdomain(accepted)));
    assert!(!config.permits(refused.as_bytes(), subdomain(refused)));
}

#[test]
fn a_predicate_widens_the_named_list_rather_than_replacing_it() {
    let cors = Cors::new().allow_origins(&["https://admin.example.net"]);
    let config = cors.config();

    for (origin, expected) in
        [("https://admin.example.net", true), ("https://app.example.com", true), ("https://other.test", false)]
    {
        assert_eq!(config.permits(origin.as_bytes(), subdomain(origin)), expected, "{origin}");
    }
}

#[test]
fn a_predicate_alongside_credentials_is_not_a_conflict() {
    let cors = Cors::new().allow_credentials();

    assert!(cors.config().conflict().is_none());
}

#[test]
fn a_predicate_never_sees_a_field_value_that_is_not_a_string() {
    let config = Cors::new().config().clone();

    assert!(!config.permits(&[0xff, 0xfe], true));
}

#[test]
fn a_credentialed_answer_names_the_requesting_origin() {
    let config = CorsConfig { credentials: true, ..named() };
    let request = asking(Some("https://app.example.com"), None, None);

    let answer = config.headers_for(&request, false);
    let lines: Vec<(String, String)> = answer.encode().into_iter().map(|(n, v)| (text(&n), text(&v))).collect();

    assert!(lines.contains(&("access-control-allow-origin".into(), "https://app.example.com".into())));
    assert!(lines.contains(&("access-control-allow-credentials".into(), "true".into())));
}

#[test]
fn a_request_without_an_origin_gets_no_cors_field() {
    let answer = named().headers_for(&Fields::new(), true);

    assert!(answer.encode().is_empty());
}

#[test]
fn every_cors_documentation_state_is_one_of_the_two_the_router_recognises() {
    fn described<D: CorsDocumentation>() -> bool {
        D::described()
    }

    let states = [("Undocumented", described::<Undocumented>()), ("Documented", described::<Documented>())];

    assert_eq!(states.len(), 2, "a state was added without a probe arm");
    assert_eq!(states[0], ("Undocumented", false));
    assert_eq!(states[1], ("Documented", true));
}
