use kynos::fields::Fields;
use kynos::http::coding::preferred;
use kynos::middleware::compression::{negotiate, Coding, Negotiated, Weight};
use kynos::http::cookie::{jar, value_of};
use kynos::http::date::parse;
use kynos::http::etag::{split, strong_match, weak_match, ANY};

fn text(bytes: Option<Vec<u8>>) -> Option<String> {
    bytes.map(|b| String::from_utf8(b).expect("ASCII"))
}

// --- dates -------------------------------------------------------------

#[test]
fn the_three_formats_name_one_instant() {
    let expected: u64 = 784_111_777;

    assert_eq!(parse(b"Sun, 06 Nov 1994 08:49:37 GMT"), Some(expected));
    assert_eq!(parse(b"Sunday, 06-Nov-94 08:49:37 GMT"), Some(expected));
    assert_eq!(parse(b"Sun Nov  6 08:49:37 1994"), Some(expected));

    assert_eq!(
        text(kynos::http::date::format(expected)).as_deref(),
        Some("Sun, 06 Nov 1994 08:49:37 GMT"),
        "a sender writes IMF-fixdate and nothing else"
    );
}

#[test]
fn the_epoch_renders_as_the_grammar_spells_it() {
    assert_eq!(text(kynos::http::date::format(0)).as_deref(), Some("Thu, 01 Jan 1970 00:00:00 GMT"));
}

#[test]
fn every_day_across_a_leap_boundary_round_trips() {
    let start: u64 = 10_957 * 86_400;
    let end: u64 = start + 1096 * 86_400;

    for seconds in (start..end).step_by(86_400) {
        let rendered = kynos::http::date::format(seconds).expect("a date after the epoch renders");
        assert_eq!(
            parse(&rendered),
            Some(seconds),
            "{} did not read back as what wrote it",
            String::from_utf8_lossy(&rendered)
        );
    }
}

#[test]
fn a_two_digit_year_does_not_depend_on_when_the_test_runs() {
    assert_eq!(parse(b"Thursday, 01-Jan-70 00:00:00 GMT"), Some(0), "70 is 1970");
    assert_eq!(
        parse(b"Saturday, 01-Jan-00 00:00:00 GMT"),
        Some(946_684_800),
        "00 is 2000"
    );
}

#[test]
fn every_way_of_not_being_a_date_reads_as_none() {
    for value in [
        "",
        "not a date",
        "Sun, 06 Nov 1994 08:49:37",
        "Xxx, 06 Nov 1994 08:49:37 GMT",
        "Sun, 06 Xxx 1994 08:49:37 GMT",
        "Sun, 31 Feb 1994 08:49:37 GMT",
        "Sun, 06 Nov 1994 24:00:00 GMT",
        "Sun, 06 Nov 1994 08:60:00 GMT",
        "Sun, 06 Nov 1994 08:49:37 GMT extra",
    ] {
        assert_eq!(parse(value.as_bytes()), None, "{value:?} parsed as a date");
    }
}

#[test]
fn the_leap_day_is_admitted_only_where_it_exists() {
    assert!(parse(b"Tue, 29 Feb 2000 00:00:00 GMT").is_some(), "2000 is a leap year");
    assert!(parse(b"Mon, 29 Feb 1900 00:00:00 GMT").is_none(), "1900 is not");
    assert!(parse(b"Thu, 29 Feb 2001 00:00:00 GMT").is_none(), "2001 is not");
}

#[test]
fn a_padded_value_is_still_a_date() {
    assert_eq!(parse(b"  Thu, 01 Jan 1970 00:00:00 GMT  "), Some(0));
}

#[test]
fn a_date_before_the_epoch_is_not_an_instant_this_reads() {
    assert_eq!(parse(b"Wed, 31 Dec 1969 23:59:59 GMT"), None);
}

// --- entity tags -------------------------------------------------------

struct ListCase {
    written: String,
    members: Vec<String>,
}

fn every_list() -> Vec<ListCase> {
    let alphabet = [r#""a""#, r#""a,b""#, r#"W/"c""#, r#""d,""#, r#""""#];
    let separators = [",", ", ", " ,", " , ", ",\t"];

    let mut cases = Vec::new();
    for separator in separators {
        for first in alphabet {
            cases.push(ListCase { written: first.to_owned(), members: vec![first.to_owned()] });
            for second in alphabet {
                cases.push(ListCase {
                    written: format!("{first}{separator}{second}"),
                    members: vec![first.to_owned(), second.to_owned()],
                });
                for third in alphabet {
                    cases.push(ListCase {
                        written: format!("{first}{separator}{second}{separator}{third}"),
                        members: vec![first.to_owned(), second.to_owned(), third.to_owned()],
                    });
                }
            }
        }
    }
    cases
}

fn strings(v: Vec<Vec<u8>>) -> Vec<String> {
    v.into_iter().map(|b| String::from_utf8(b).expect("ASCII")).collect()
}

#[test]
fn every_list_recovers_the_tags_it_was_written_from() {
    for case in every_list() {
        assert_eq!(
            strings(split(case.written.as_bytes())),
            case.members,
            "`{}` did not split into its members",
            case.written
        );
    }
}

#[test]
fn a_blank_element_is_dropped_rather_than_refused() {
    assert_eq!(strings(split(br#", "a" ,, "b","#)), [r#""a""#, r#""b""#]);
    assert_eq!(split(b"  ").len(), 0);
    assert_eq!(split(b"").len(), 0);
}

#[test]
fn whatever_the_text_every_member_is_trimmed_and_non_empty() {
    let members = strings(split(b" x , \t y\t,, \"q, r\" ,\x0b"));
    assert_eq!(members, ["x", "y", "\"q, r\""]);
    for member in &members {
        assert!(!member.is_empty());
        assert_eq!(member.trim(), member);
    }
}

#[test]
fn the_specifications_own_comparison_table_holds() {
    for (left, right, strong, weak) in [
        (r#"W/"1""#, r#"W/"1""#, false, true),
        (r#"W/"1""#, r#"W/"2""#, false, false),
        (r#"W/"1""#, r#""1""#, false, true),
        (r#""1""#, r#""1""#, true, true),
    ] {
        assert_eq!(strong_match(left.as_bytes(), right.as_bytes()), strong, "strong {left} {right}");
        assert_eq!(weak_match(left.as_bytes(), right.as_bytes()), weak, "weak {left} {right}");
        assert_eq!(strong_match(right.as_bytes(), left.as_bytes()), strong, "strong {right} {left}");
        assert_eq!(weak_match(right.as_bytes(), left.as_bytes()), weak, "weak {right} {left}");
    }
}

#[test]
fn the_wildcard_is_not_an_entity_tag() {
    assert_eq!(ANY, "*");
    assert!(!weak_match(ANY.as_bytes(), br#""1""#));
    assert!(!strong_match(ANY.as_bytes(), br#""1""#));
}

// --- cookies -------------------------------------------------------------

fn cookies(fields: &[&str]) -> Fields {
    let mut headers = Fields::new();
    for field in fields {
        headers.append(b"cookie", field.as_bytes());
    }
    headers
}

fn pairs(read: Vec<(Vec<u8>, Vec<u8>)>) -> Vec<(String, String)> {
    read.into_iter()
        .map(|(n, v)| (String::from_utf8(n).expect("text"), String::from_utf8(v).expect("text")))
        .collect()
}

#[test]
fn a_jar_is_split_the_way_the_grammar_writes_it() {
    type Case<'a> = (&'a [&'a str], &'a [(&'a str, &'a str)]);

    let cases: &[Case<'_>] = &[
        (&["a=1"], &[("a", "1")]),
        (&["a=1; b=2"], &[("a", "1"), ("b", "2")]),
        (&["a=1", "b=2"], &[("a", "1"), ("b", "2")]),
        (&["  a = 1  "], &[("a", "1")]),
        (&[r#"a="1""#], &[("a", "1")]),
        (&[r#"a="1"#], &[("a", "\"1")]),
        (&["flag"], &[("flag", "")]),
        (&["a="], &[("a", "")]),
        (&["a=1;;b=2"], &[("a", "1"), ("b", "2")]),
        (&[";"], &[]),
        (&["token=ab=cd"], &[("token", "ab=cd")]),
        (&[], &[]),
    ];

    for (fields, expected) in cases {
        let read = pairs(jar(&cookies(fields)));
        let expected: Vec<(String, String)> =
            expected.iter().map(|(n, v)| ((*n).to_owned(), (*v).to_owned())).collect();
        assert_eq!(read, expected, "reading {fields:?}");
    }
}

#[test]
fn an_unprintable_field_does_not_hide_the_others() {
    let mut headers = cookies(&["a=1"]);
    headers.append(b"cookie", b"b=\xff");
    headers.append(b"cookie", b"c=3");

    let read = pairs(jar(&headers));
    assert_eq!(read, [("a".to_owned(), "1".to_owned()), ("c".to_owned(), "3".to_owned())]);
}

#[test]
fn a_repeated_name_reads_back_as_the_first_one_sent() {
    let headers = cookies(&["session=narrow", "session=wide"]);
    assert_eq!(text(value_of(&headers, b"session")).as_deref(), Some("narrow"));
}

#[test]
fn a_name_the_jar_does_not_hold_reads_back_as_absent() {
    let headers = cookies(&["a=1"]);
    assert_eq!(value_of(&headers, b"b"), None);
}

// --- quality values ------------------------------------------------------

#[test]
fn every_qvalue_the_grammar_admits_is_read_as_its_thousandths() {
    let mut swept = 0;

    for whole in ['0', '1'] {
        for places in 0..=3 {
            let mut bodies = vec![String::new()];
            for _ in 0..places {
                bodies = bodies
                    .iter()
                    .flat_map(|body| ('0'..='9').map(move |digit| format!("{body}{digit}")))
                    .collect();
            }

            for body in bodies {
                let value = if places == 0 { whole.to_string() } else { format!("{whole}.{body}") };

                let scaled = value.parse::<f64>().expect("a decimal") * 1000.0;
                let oracle = if scaled.round() as u32 <= 1000 { Some(scaled.round() as u16) } else { None };

                assert_eq!(kynos::http::quality::parse(value.as_bytes()), oracle, "q={value}");
                swept += 1;
            }
        }
    }

    assert_eq!(swept, 2 * (1 + 10 + 100 + 1000), "the space is not closed");
}

#[test]
fn a_weight_the_grammar_cannot_express_is_refused_rather_than_rounded() {
    for value in ["1.5", "0.1234", "0.", "0.x", "", ".5", "2", "-0.5"] {
        assert_eq!(kynos::http::quality::parse(value.as_bytes()), None, "q={value}");
    }
}

#[test]
fn every_instant_a_u64_can_count_has_a_date() {
    assert!(kynos::http::date::format(u64::MAX).is_some());
    // The year 10000 has five digits, so it renders but no longer reads back.
    let rendered = kynos::http::date::format(253_402_300_800).expect("a date");
    assert_eq!(text(Some(rendered.clone())).as_deref(), Some("Sat, 01 Jan 10000 00:00:00 GMT"));
    assert_eq!(kynos::http::date::parse(&rendered), None);
}

#[test]
fn any_unicode_whitespace_around_a_date_is_ignored() {
    let padded = "\u{a0}\u{2003}Sun, 06 Nov 1994 08:49:37 GMT\u{3000}\n";

    assert_eq!(parse(padded.as_bytes()), Some(784_111_777));
    assert_eq!(parse("\u{200b}Sun, 06 Nov 1994 08:49:37 GMT".as_bytes()), None, "a zero-width space is not whitespace");
}

#[test]
fn a_tag_list_member_loses_unicode_whitespace_too() {
    let members = split("\u{a0}\"a\"\u{2028}, \u{85}".as_bytes());

    assert_eq!(members, vec![b"\"a\"".to_vec()]);
}

// --- preferred codings ---------------------------------------------------
//
// The library finds the entry that decides each coding's qvalue; reading the
// qvalue as a float, and reducing it to the ordering key the library
// negotiates over, is the server's, done here as the server does it.

fn quality(accept: &str, token: &str) -> Option<f32> {
    kynos::http::coding::quality_text(accept.as_bytes(), token.as_bytes()).map(|stated| match stated {
        None => 1.0,
        Some(text) => std::str::from_utf8(&text)
            .ok()
            .and_then(|text| text.parse::<f32>().ok())
            .map_or(0.0, |weight| weight.clamp(0.0, 1.0)),
    })
}

fn weight(quality: f32) -> Weight {
    if quality.is_nan() {
        Weight { key: None }
    } else if quality <= 0.0 {
        Weight { key: Some(0) }
    } else {
        Weight { key: Some(quality.to_bits()) }
    }
}

fn preferred_for(accept: &str, available: &[&'static str]) -> Option<&'static str> {
    let weights: Vec<Option<Weight>> = available.iter().map(|token| quality(accept, token).map(weight)).collect();
    let identity = weight(quality(accept, "identity").unwrap_or(1.0));
    preferred(&weights, identity).map(|index| available[index])
}

#[test]
fn x_gzip_is_gzip() {
    assert_eq!(quality("x-gzip", "gzip"), Some(1.0));
    assert_eq!(quality("X-GZIP;q=0.5", "gzip"), Some(0.5));
    assert_eq!(quality("x-br", "br"), None);
}

#[test]
fn absence_and_refusal_are_distinguishable() {
    assert_eq!(quality("gzip", "br"), None);
    assert_eq!(quality("br;q=0", "br"), Some(0.0));
}

#[test]
fn an_out_of_range_weight_is_clamped_rather_than_believed() {
    assert_eq!(quality("gzip;q=1.5", "gzip"), Some(1.0));
    assert_eq!(quality("gzip;q=-1", "gzip"), Some(0.0));
    assert_eq!(quality("gzip;q=abc", "gzip"), Some(0.0));
}

#[test]
fn a_wildcard_answers_for_anything_not_named() {
    assert_eq!(quality("*;q=0.3", "br"), Some(0.3));
    assert_eq!(quality("br;q=0.9, *;q=0.3", "br"), Some(0.9));
}

fn identity_quality(accept: &str) -> f32 {
    quality(accept, "identity").unwrap_or(1.0)
}

/// What the library negotiates for a request accepting `accept`, or
/// accepting nothing at all.
fn negotiate_for(accept: Option<&str>) -> Negotiated {
    let accept = accept.map(str::trim);
    let text = accept.unwrap_or_default();
    let weights: Vec<Option<Weight>> =
        Coding::all().into_iter().map(|coding| quality(text, coding.token()).map(weight)).collect();
    negotiate(accept.is_some(), &weights, weight(identity_quality(text)))
}

#[test]
fn identity_is_acceptable_unless_it_is_excluded() {
    assert_eq!(identity_quality("gzip"), 1.0);
    assert_eq!(identity_quality("identity;q=0"), 0.0);
    assert_eq!(identity_quality("*;q=0"), 0.0);
    assert_eq!(identity_quality("*;q=0, identity;q=1"), 1.0);
}

#[test]
fn every_negotiation_rule_the_specification_states_is_applied() {
    let cases: &[(&str, Option<&str>, Negotiated)] = &[
        ("no field at all", None, Negotiated::Identity),
        ("an empty field value", Some(""), Negotiated::Identity),
        ("a plain coding", Some("gzip"), Negotiated::Encode(Coding::Gzip)),
        ("the deprecated spelling of one", Some("x-gzip"), Negotiated::Encode(Coding::Gzip)),
        ("a coding in another case", Some("GZIP"), Negotiated::Encode(Coding::Gzip)),
        ("two codings weighted equally", Some("gzip, zstd"), Negotiated::Encode(Coding::Zstd)),
        (
            "a client preferring the server's second choice",
            Some("gzip;q=1.0, zstd;q=0.5"),
            Negotiated::Encode(Coding::Gzip),
        ),
        ("identity refused by name", Some("gzip, identity;q=0"), Negotiated::Encode(Coding::Gzip)),
        ("identity refused through the wildcard", Some("gzip, *;q=0"), Negotiated::Encode(Coding::Gzip)),
        ("a wildcard refusal with identity readmitted", Some("*;q=0, identity"), Negotiated::Identity),
        ("every coding refused", Some("gzip;q=0, br;q=0, zstd;q=0"), Negotiated::Identity),
        ("everything refused", Some("*;q=0"), Negotiated::Nothing),
        (
            "every coding and identity refused by name",
            Some("gzip;q=0, br;q=0, zstd;q=0, identity;q=0"),
            Negotiated::Nothing,
        ),
        ("identity preferred over a coding", Some("gzip;q=0.5, identity;q=1.0"), Negotiated::Identity),
    ];

    for (description, accept, expected) in cases {
        assert_eq!(negotiate_for(*accept), *expected, "{description}");
    }
}

#[test]
fn a_weight_outside_the_range_cannot_outrank_one_inside_it() {
    assert_eq!(quality("gzip;q=1.5", "gzip"), Some(1.0));
    assert_eq!(quality("gzip;q=-1", "gzip"), Some(0.0));
    assert_eq!(negotiate_for(Some("gzip;q=1.5, zstd;q=1.0")), Negotiated::Encode(Coding::Zstd));
}

#[test]
fn an_unparsable_weight_is_a_refusal() {
    assert_eq!(quality("gzip;q=abc", "gzip"), Some(0.0));
}

#[test]
fn a_tie_goes_to_the_encoded_coding() {
    assert_eq!(preferred_for("gzip", &["gzip"]), Some("gzip"));
}

#[test]
fn identity_preferred_more_strongly_wins() {
    assert_eq!(preferred_for("gzip;q=0.5, identity;q=1.0", &["gzip"]), None);
}

#[test]
fn a_coding_that_is_not_available_is_not_chosen() {
    assert_eq!(preferred_for("br", &["gzip"]), None);
}

#[test]
fn the_clients_preference_orders_the_available_codings() {
    assert_eq!(preferred_for("gzip;q=0.5, br", &["gzip", "br"]), Some("br"));
    assert_eq!(preferred_for("gzip, br;q=0.5", &["gzip", "br"]), Some("gzip"));
}

#[test]
fn a_downweighted_coding_loses_to_identitys_default() {
    assert_eq!(preferred_for("br;q=0.9", &["br"]), None);
    assert_eq!(preferred_for("br;q=0.9, identity;q=0.5", &["br"]), Some("br"));
    assert_eq!(preferred_for("br;q=0.9, identity;q=0", &["br"]), Some("br"));
}

#[test]
fn a_tie_between_codings_goes_to_the_callers_order() {
    assert_eq!(preferred_for("gzip, br", &["br", "gzip"]), Some("br"));
    assert_eq!(preferred_for("gzip, br", &["gzip", "br"]), Some("gzip"));
}

#[test]
fn a_refused_coding_is_never_preferred() {
    assert_eq!(preferred_for("gzip;q=0, br;q=0.1, identity;q=0", &["gzip", "br"]), Some("br"));
    assert_eq!(preferred_for("gzip;q=0, identity;q=0", &["gzip"]), None);
}

// --- the entry that decides a coding's qvalue ---------------------------

fn stated(accept: &str, token: &str) -> Option<Option<String>> {
    kynos::http::coding::quality_text(accept.as_bytes(), token.as_bytes())
        .map(|q| q.map(|text| String::from_utf8(text).expect("ASCII")))
}

#[test]
fn x_gzip_stands_for_gzip_and_nothing_else_has_an_alias() {
    assert_eq!(stated("x-gzip", "gzip"), Some(None));
    assert_eq!(stated("X-GZIP;q=0.5", "gzip"), Some(Some("0.5".to_owned())));
    assert_eq!(stated("x-br", "br"), None);
    assert_eq!(kynos::http::coding::aliases(b"gzip"), vec![b"x-gzip".to_vec()]);
    assert!(kynos::http::coding::aliases(b"br").is_empty());
}

#[test]
fn a_coding_not_mentioned_differs_from_one_refused() {
    assert_eq!(stated("gzip", "br"), None);
    assert_eq!(stated("br;q=0", "br"), Some(Some("0".to_owned())));
}

#[test]
fn the_q_text_is_handed_over_trimmed_whatever_it_spells() {
    assert_eq!(stated("gzip;q=1.5", "gzip"), Some(Some("1.5".to_owned())));
    assert_eq!(stated("gzip;q=abc", "gzip"), Some(Some("abc".to_owned())));
    assert_eq!(stated(" gzip ; level=9 ; Q= 0.7 ", "gzip"), Some(Some("0.7".to_owned())));
    assert_eq!(stated("gzip;level=9", "gzip"), Some(None));
}

#[test]
fn the_named_entry_wins_over_a_wildcard_and_the_last_wildcard_answers_otherwise() {
    assert_eq!(stated("*;q=0.3", "br"), Some(Some("0.3".to_owned())));
    assert_eq!(stated("br;q=0.9, *;q=0.3", "br"), Some(Some("0.9".to_owned())));
    assert_eq!(stated("*;q=0.3, br;q=0.9", "br"), Some(Some("0.9".to_owned())));
    assert_eq!(stated("*;q=0.1, gzip, *;q=0.2", "br"), Some(Some("0.2".to_owned())));
    assert_eq!(stated("br;q=0.4, br;q=0.8", "br"), Some(Some("0.4".to_owned())));
}
