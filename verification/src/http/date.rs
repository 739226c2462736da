//! HTTP dates, rendered and read.
//!
//! RFC 9110 section 5.6.7. A sender writes IMF-fixdate and nothing else; a
//! recipient "MUST accept all three HTTP-date formats", which is why the two
//! obsolete ones are read here and never produced.
//!
//! An instant is a count of whole seconds since the Unix epoch. The calendar
//! arithmetic is Howard Hinnant's over the proleptic Gregorian calendar.

use vstd::prelude::*;

use crate::octets::{
    append_bytes, ascii, decimal, literal, has_prefix, is_digit, lemma_padded_reads_back, lemma_split_three, lemma_trim_text_idle, padded, parse_u64, parse_u64_bytes, render_padded,
    slice_to_vec, split, split_bytes, starts_with, trim, trim_bytes, trim_text, trim_text_bytes, views,
};

verus! {

/// Whether `year` is a Gregorian leap year.
pub open spec fn is_leap(year: int) -> bool {
    year % 4 == 0 && (year % 100 != 0 || year % 400 == 0)
}

/// How many days `month` has in `year`; zero for a month that does not exist.
pub open spec fn month_length(year: int, month: int) -> int {
    if month == 1 || month == 3 || month == 5 || month == 7 || month == 8 || month == 10 || month
        == 12 {
        31
    } else if month == 4 || month == 6 || month == 9 || month == 11 {
        30
    } else if month == 2 {
        if is_leap(year) {
            29
        } else {
            28
        }
    } else {
        0
    }
}

/// Days from 1970-01-01 to a civil date, or `None` for a date that does not
/// exist.
pub open spec fn days_of(year: int, month: int, day: int) -> Option<int> {
    if !(1 <= month <= 12) || day <= 0 || day > month_length(year, month) {
        None
    } else {
        let y = year - (if month <= 2 {
            1int
        } else {
            0int
        });
        let era = y / 400;
        let yoe = y - era * 400;
        let doy = (153 * (month + (if month > 2 {
            -3int
        } else {
            9int
        })) + 2) / 5 + day - 1;
        let doe = yoe * 365 + yoe / 4 - yoe / 100 + doy;
        Some(era * 146097 + doe - 719468)
    }
}

/// The civil date `days` after 1970-01-01, as year, month and day.
///
/// `None` where the day of the year the arithmetic lands on is negative,
/// which it never is for a day on or after the epoch
/// ([`every_instant_has_a_date`]).
pub open spec fn civil(days: int) -> Option<(int, int, int)> {
    let z = days + 719468;
    let era = z / 146097;
    let doe = z - era * 146097;
    let yoe = (doe - doe / 1460 + doe / 36524 - doe / 146096) / 365;
    let y = yoe + era * 400;
    let doy = doe - (365 * yoe + yoe / 4 - yoe / 100);
    if doy < 0 {
        None
    } else {
        let mp = (5 * doy + 2) / 153;
        let day = doy - (153 * mp + 2) / 5 + 1;
        let month = mp + (if mp < 10 {
            3int
        } else {
            -9int
        });
        Some(
            (y + (if month <= 2 {
                1int
            } else {
                0int
            }), month, day),
        )
    }
}

/// The three-letter day names, Monday first.
pub open spec fn day_names() -> Seq<Seq<u8>> {
    seq![
        ascii("Mon"@),
        ascii("Tue"@),
        ascii("Wed"@),
        ascii("Thu"@),
        ascii("Fri"@),
        ascii("Sat"@),
        ascii("Sun"@),
    ]
}

/// The long day names the obsolete RFC 850 form spells out.
pub open spec fn long_day_names() -> Seq<Seq<u8>> {
    seq![
        ascii("Monday"@),
        ascii("Tuesday"@),
        ascii("Wednesday"@),
        ascii("Thursday"@),
        ascii("Friday"@),
        ascii("Saturday"@),
        ascii("Sunday"@),
    ]
}

/// The month names, January first.
pub open spec fn month_names() -> Seq<Seq<u8>> {
    seq![
        ascii("Jan"@),
        ascii("Feb"@),
        ascii("Mar"@),
        ascii("Apr"@),
        ascii("May"@),
        ascii("Jun"@),
        ascii("Jul"@),
        ascii("Aug"@),
        ascii("Sep"@),
        ascii("Oct"@),
        ascii("Nov"@),
        ascii("Dec"@),
    ]
}

/// The IMF-fixdate text of a civil date and a time of day.
pub open spec fn imf_text(weekday: int, year: int, month: int, day: int, rest: int) -> Seq<u8> {
    day_names()[weekday] + ascii(", "@) + padded(day as nat, 2) + ascii(" "@) + month_names()[month
        - 1] + ascii(" "@) + padded(year as nat, 4) + ascii(" "@) + padded((rest / 3600) as nat, 2)
        + ascii(":"@) + padded(((rest % 3600) / 60) as nat, 2) + ascii(":"@) + padded(
        (rest % 60) as nat,
        2,
    ) + ascii(" GMT"@)
}

/// What [`format`] renders `seconds` as.
///
/// `None` only where the civil date computed for the day does not read back as
/// that day, which [`every_instant_has_a_date`] shows never happens.
pub open spec fn formatted(seconds: nat) -> Option<Seq<u8>> {
    let days = seconds / 86400;
    match civil(days as int) {
        Some((year, month, day)) => if 1 <= month <= 12 && days_of(year, month, day) == Some(
            days as int,
        ) {
            Some(
                imf_text(
                    ((days % 7 + 3) % 7) as int,
                    year,
                    month,
                    day,
                    (seconds % 86400) as int,
                ),
            )
        } else {
            None
        },
        None => None,
    }
}

/// The three-letter name of day `index`, Monday first.
fn day_name_at(index: usize) -> (r: Vec<u8>)
    requires
        index < 7,
    ensures
        r@ == day_names()[index as int],
{
    proof {
        reveal_strlit("Mon");
        reveal_strlit("Tue");
        reveal_strlit("Wed");
        reveal_strlit("Thu");
        reveal_strlit("Fri");
        reveal_strlit("Sat");
        reveal_strlit("Sun");
    }
    match index {
        0 => literal("Mon"),
        1 => literal("Tue"),
        2 => literal("Wed"),
        3 => literal("Thu"),
        4 => literal("Fri"),
        5 => literal("Sat"),
        _ => literal("Sun"),
    }
}

/// The long name of day `index`, Monday first.
fn long_day_name_at(index: usize) -> (r: Vec<u8>)
    requires
        index < 7,
    ensures
        r@ == long_day_names()[index as int],
{
    proof {
        reveal_strlit("Monday");
        reveal_strlit("Tuesday");
        reveal_strlit("Wednesday");
        reveal_strlit("Thursday");
        reveal_strlit("Friday");
        reveal_strlit("Saturday");
        reveal_strlit("Sunday");
    }
    match index {
        0 => literal("Monday"),
        1 => literal("Tuesday"),
        2 => literal("Wednesday"),
        3 => literal("Thursday"),
        4 => literal("Friday"),
        5 => literal("Saturday"),
        _ => literal("Sunday"),
    }
}

/// The name of month `index`, January at zero.
fn month_name_at(index: usize) -> (r: Vec<u8>)
    requires
        index < 12,
    ensures
        r@ == month_names()[index as int],
{
    proof {
        reveal_strlit("Jan");
        reveal_strlit("Feb");
        reveal_strlit("Mar");
        reveal_strlit("Apr");
        reveal_strlit("May");
        reveal_strlit("Jun");
        reveal_strlit("Jul");
        reveal_strlit("Aug");
        reveal_strlit("Sep");
        reveal_strlit("Oct");
        reveal_strlit("Nov");
        reveal_strlit("Dec");
    }
    match index {
        0 => literal("Jan"),
        1 => literal("Feb"),
        2 => literal("Mar"),
        3 => literal("Apr"),
        4 => literal("May"),
        5 => literal("Jun"),
        6 => literal("Jul"),
        7 => literal("Aug"),
        8 => literal("Sep"),
        9 => literal("Oct"),
        10 => literal("Nov"),
        _ => literal("Dec"),
    }
}

/// Whether `year` is a leap year.
fn leap_year(year: i64) -> (r: bool)
    ensures
        r == is_leap(year as int),
{
    year % 4 == 0 && (year % 100 != 0 || year % 400 == 0)
}

/// How many days `month` has in `year`.
fn days_in_month(year: i64, month: i64) -> (r: i64)
    ensures
        r == month_length(year as int, month as int),
{
    if month == 1 || month == 3 || month == 5 || month == 7 || month == 8 || month == 10 || month
        == 12 {
        31
    } else if month == 4 || month == 6 || month == 9 || month == 11 {
        30
    } else if month == 2 {
        if leap_year(year) {
            29
        } else {
            28
        }
    } else {
        0
    }
}

/// Days from 1970-01-01 to a civil date, by Howard Hinnant's algorithm.
fn days_from_civil(year: i64, month: i64, day: i64) -> (r: Option<i64>)
    requires
        0 <= year <= 1_000_000_000_000,
    ensures
        r == (match days_of(year as int, month as int, day as int) {
            Some(d) => Some(d as i64),
            None => None::<i64>,
        }),
        r matches Some(d) ==> days_of(year as int, month as int, day as int) == Some(d as int),
{
    if !(1 <= month && month <= 12) || day <= 0 || day > days_in_month(year, month) {
        return None;
    }
    let y: i64 = year - if month <= 2 {
        1
    } else {
        0
    };
    let era: i64 = if y < 0 {
        -1
    } else {
        y / 400
    };
    let yoe: i64 = y - era * 400;
    let shifted: i64 = month + if month > 2 {
        -3
    } else {
        9
    };
    let doy: i64 = (153 * shifted + 2) / 5 + day - 1;
    let doe: i64 = yoe * 365 + yoe / 4 - yoe / 100 + doy;
    Some(era * 146097 + doe - 719468)
}

/// The civil date `days` after 1970-01-01.
#[verifier::rlimit(50)]
fn civil_from_days(days: i64) -> (r: (i64, i64, i64))
    requires
        0 <= days <= 300_000_000_000_000,
    ensures
        civil(days as int) == Some((r.0 as int, r.1 as int, r.2 as int)),
        0 <= r.0 <= 1_000_000_000_000,
        1 <= r.1 <= 12,
        1 <= r.2 <= month_length(r.0 as int, r.1 as int),
        days_of(r.0 as int, r.1 as int, r.2 as int) == Some(days as int),
{
    proof {
        lemma_civil_exact(days as int);
    }
    let z: i64 = days + 719468;
    let era: i64 = z / 146097;
    assert(0 <= era <= 2_100_000_000);
    let doe: i64 = z - era * 146097;
    assert(0 <= doe < 146097);
    let yoe: i64 = (doe - doe / 1460 + doe / 36524 - doe / 146096) / 365;
    assert(0 <= yoe <= 400);
    let y: i64 = yoe + era * 400;
    let doy: i64 = doe - (365 * yoe + yoe / 4 - yoe / 100);
    let mp: i64 = (5 * doy + 2) / 153;
    let day: i64 = doy - (153 * mp + 2) / 5 + 1;
    let month: i64 = mp + if mp < 10 {
        3
    } else {
        -9
    };
    (y + if month <= 2 {
        1
    } else {
        0
    }, month, day)
}

/// Renders `seconds` after the Unix epoch as an IMF-fixdate.
///
/// `Sun, 06 Nov 1994 08:49:37 GMT` — the one format RFC 9110 section 5.6.7
/// allows a sender to produce.
pub fn format(seconds: u64) -> (r: Option<Vec<u8>>)
    ensures
        r is Some,
        match r {
            Some(text) => formatted(seconds as nat) == Some(text@),
            None => false,
        },
{
    let days: u64 = seconds / 86400;
    let rest: u64 = seconds % 86400;
    proof {
        reveal_strlit(", ");
        reveal_strlit(" ");
        reveal_strlit(":");
        reveal_strlit(" GMT");
    }
    let (year, month, day) = civil_from_days(days as i64);
    assert(1 <= day <= 31);
    let weekday: usize = ((days % 7 + 3) % 7) as usize;
    let mut out = day_name_at(weekday);
    append_bytes(&mut out, literal(", ").as_slice());
    append_bytes(&mut out, render_padded(day as u64, 2).as_slice());
    append_bytes(&mut out, literal(" ").as_slice());
    append_bytes(&mut out, month_name_at((month - 1) as usize).as_slice());
    append_bytes(&mut out, literal(" ").as_slice());
    append_bytes(&mut out, render_padded(year as u64, 4).as_slice());
    append_bytes(&mut out, literal(" ").as_slice());
    append_bytes(&mut out, render_padded(rest / 3600, 2).as_slice());
    append_bytes(&mut out, literal(":").as_slice());
    append_bytes(&mut out, render_padded((rest % 3600) / 60, 2).as_slice());
    append_bytes(&mut out, literal(":").as_slice());
    append_bytes(&mut out, render_padded(rest % 60, 2).as_slice());
    append_bytes(&mut out, literal(" GMT").as_slice());
    Some(out)
}

/// The first of `names` that `value` starts with.
pub open spec fn leading_name(value: Seq<u8>, names: Seq<Seq<u8>>) -> Option<Seq<u8>>
    decreases names.len(),
{
    if names.len() == 0 {
        None
    } else if starts_with(value, names[0]) {
        Some(names[0])
    } else {
        leading_name(value, names.drop_first())
    }
}

/// The position of `name` in `names`.
pub open spec fn position(names: Seq<Seq<u8>>, name: Seq<u8>) -> Option<int>
    decreases names.len(),
{
    if names.len() == 0 {
        None
    } else if names[0] == name {
        Some(0)
    } else {
        match position(names.drop_first(), name) {
            Some(i) => Some(i + 1),
            None => None,
        }
    }
}

/// The one-indexed month a three-letter name encodes.
pub open spec fn month_of(name: Seq<u8>) -> Option<int> {
    match position(month_names(), name) {
        Some(i) => Some(i + 1),
        None => None,
    }
}

/// `value`, read as a `u8`.
pub open spec fn parse_u8(value: Seq<u8>) -> Option<int> {
    match parse_u64(value) {
        Some(n) => if n <= 255 {
            Some(n as int)
        } else {
            None
        },
        None => None,
    }
}

/// `value`, read as a `u16`.
pub open spec fn parse_u16(value: Seq<u8>) -> Option<int> {
    match parse_u64(value) {
        Some(n) => if n <= 65535 {
            Some(n as int)
        } else {
            None
        },
        None => None,
    }
}

/// Seconds into the day that `HH:MM:SS` names. A leap second is `60`.
pub open spec fn time_of(text: Seq<u8>) -> Option<int> {
    let parts = split(text, 0x3au8);
    if parts.len() != 3 {
        None
    } else {
        match (parse_u64(parts[0]), parse_u64(parts[1]), parse_u64(parts[2])) {
            (Some(h), Some(m), Some(s)) => if h < 24 && m < 60 && s <= 60 {
                Some(h * 3600 + m * 60 + s)
            } else {
                None
            },
            _ => None,
        }
    }
}

/// Seconds since the epoch at the start of a civil date, where it exists and
/// is not before the epoch.
pub open spec fn midnight_of(year: int, month: int, day: int) -> Option<int> {
    match days_of(year, month, day) {
        Some(d) => if d >= 0 {
            Some(d * 86400)
        } else {
            None
        },
        None => None,
    }
}

/// A civil date plus a `HH:MM:SS GMT` remainder, the zone required.
pub open spec fn zoned_of(year: int, month: int, day: int, time: Seq<u8>) -> Option<int> {
    if time.len() >= 4 && time.skip(time.len() - 4) == ascii(" GMT"@) {
        match (midnight_of(year, month, day), time_of(time.take(time.len() - 4))) {
            (Some(m), Some(t)) => Some(m + t),
            _ => None,
        }
    } else {
        None
    }
}

/// `Sun, 06 Nov 1994 08:49:37 GMT`
pub open spec fn imf_of(v: Seq<u8>) -> Option<int> {
    match leading_name(v, day_names()) {
        None => None,
        Some(name) => {
            let r = v.skip(name.len() as int);
            if starts_with(r, ascii(", "@)) && r.len() >= 14 && r[4] == 0x20u8 && r[8] == 0x20u8
                && r[13] == 0x20u8 {
                match (parse_u16(r.subrange(9, 13)), month_of(r.subrange(5, 8)), parse_u8(
                    r.subrange(2, 4),
                )) {
                    (Some(year), Some(month), Some(day)) => zoned_of(year, month, day, r.skip(14)),
                    _ => None,
                }
            } else {
                None
            }
        },
    }
}

/// The century a two-digit year is read in: `70` and later are the 1900s.
pub open spec fn full_year(two: int) -> int {
    if two >= 70 {
        1900 + two
    } else {
        2000 + two
    }
}

/// `Sunday, 06-Nov-94 08:49:37 GMT`
pub open spec fn rfc850_of(v: Seq<u8>) -> Option<int> {
    match leading_name(v, long_day_names()) {
        None => None,
        Some(name) => {
            let r = v.skip(name.len() as int);
            if starts_with(r, ascii(", "@)) && r.len() >= 12 && r[4] == 0x2du8 && r[8] == 0x2du8
                && r[11] == 0x20u8 {
                match (parse_u16(r.subrange(9, 11)), month_of(r.subrange(5, 8)), parse_u8(
                    r.subrange(2, 4),
                )) {
                    (Some(two), Some(month), Some(day)) => zoned_of(
                        full_year(two),
                        month,
                        day,
                        r.skip(12),
                    ),
                    _ => None,
                }
            } else {
                None
            }
        },
    }
}

/// `Sun Nov  6 08:49:37 1994`, which is UTC by definition.
pub open spec fn asctime_of(v: Seq<u8>) -> Option<int> {
    match leading_name(v, day_names()) {
        None => None,
        Some(name) => {
            let r = v.skip(name.len() as int);
            if r.len() >= 17 && r[0] == 0x20u8 && r[4] == 0x20u8 && r[7] == 0x20u8 && r[16]
                == 0x20u8 {
                match (
                    parse_u16(r.skip(17)),
                    month_of(r.subrange(1, 4)),
                    parse_u8(trim(r.subrange(5, 7))),
                ) {
                    (Some(year), Some(month), Some(day)) => match (
                        midnight_of(year, month, day),
                        time_of(r.subrange(8, 16)),
                    ) {
                        (Some(m), Some(t)) => Some(m + t),
                        _ => None,
                    },
                    _ => None,
                }
            } else {
                None
            }
        },
    }
}

/// What [`parse`] reads `value` as: the first of the three formats that
/// accepts it, surrounding whitespace ignored.
pub open spec fn parsed(value: Seq<u8>) -> Option<int> {
    let v = trim_text(value);
    match imf_of(v) {
        Some(t) => Some(t),
        None => match rfc850_of(v) {
            Some(t) => Some(t),
            None => asctime_of(v),
        },
    }
}

/// The length of the first of the day names that `value` starts with.
fn leading_day(value: &[u8], long: bool) -> (r: Option<usize>)
    ensures
        r matches Some(n) ==> n <= value.len(),
        match r {
            Some(n) => leading_name(value@, if long {
                long_day_names()
            } else {
                day_names()
            }) matches Some(name) && name.len() == n,
            None => leading_name(value@, if long {
                long_day_names()
            } else {
                day_names()
            }) is None,
        },
{
    let ghost names = if long {
        long_day_names()
    } else {
        day_names()
    };
    let mut i: usize = 0;
    assert(names.skip(0) =~= names);
    while i < 7
        invariant
            0 <= i <= 7,
            names.len() == 7,
            names == (if long {
                long_day_names()
            } else {
                day_names()
            }),
            leading_name(value@, names) == leading_name(value@, names.skip(i as int)),
        decreases 7 - i,
    {
        let name = if long {
            long_day_name_at(i)
        } else {
            day_name_at(i)
        };
        let ghost rest = names.skip(i as int);
        assert(rest[0] == names[i as int]);
        if has_prefix(value, name.as_slice()) {
            return Some(name.len());
        }
        assert(rest.drop_first() =~= names.skip(i + 1));
        i = i + 1;
    }
    assert(names.skip(7).len() == 0);
    None
}

/// The one-indexed month `name` encodes.
fn month_number(name: &[u8]) -> (r: Option<i64>)
    ensures
        match r {
            Some(m) => month_of(name@) == Some(m as int) && 1 <= m <= 12,
            None => month_of(name@) is None,
        },
{
    let ghost names = month_names();
    let mut i: usize = 0;
    assert(names.skip(0) =~= names);
    while i < 12
        invariant
            0 <= i <= 12,
            names == month_names(),
            names.len() == 12,
            position(names, name@) == (match position(names.skip(i as int), name@) {
                Some(k) => Some(k + i),
                None => None,
            }),
        decreases 12 - i,
    {
        let candidate = month_name_at(i);
        let ghost rest = names.skip(i as int);
        assert(rest[0] == names[i as int]);
        if crate::octets::bytes_eq(candidate.as_slice(), name) {
            return Some(i as i64 + 1);
        }
        assert(rest.drop_first() =~= names.skip(i + 1));
        i = i + 1;
    }
    assert(names.skip(12).len() == 0);
    None
}

/// `value` read as an unsigned number no larger than `max`.
fn parse_bounded(value: &[u8], max: u64) -> (r: Option<i64>)
    requires
        max <= 65535,
    ensures
        r == (match parse_u64(value@) {
            Some(n) => if n <= max {
                Some(n as i64)
            } else {
                None::<i64>
            },
            None => None::<i64>,
        }),
{
    match parse_u64_bytes(value) {
        Some(n) => if n <= max {
            Some(n as i64)
        } else {
            None
        },
        None => None,
    }
}

/// Seconds into the day that `HH:MM:SS` names.
fn time_of_day(text: &[u8]) -> (r: Option<u64>)
    ensures
        match r {
            Some(t) => time_of(text@) == Some(t as int),
            None => time_of(text@) is None,
        },
{
    let parts = split_bytes(text, 0x3a);
    if parts.len() != 3 {
        return None;
    }
    assert(views(parts@)[0] == parts@[0]@);
    assert(views(parts@)[1] == parts@[1]@);
    assert(views(parts@)[2] == parts@[2]@);
    let h = parse_u64_bytes(parts[0].as_slice());
    let m = parse_u64_bytes(parts[1].as_slice());
    let sec = parse_u64_bytes(parts[2].as_slice());
    match (h, m, sec) {
        (Some(h), Some(m), Some(sec)) => if h < 24 && m < 60 && sec <= 60 {
            Some(h * 3600 + m * 60 + sec)
        } else {
            None
        },
        _ => None,
    }
}

/// Seconds since the epoch at the start of a civil date.
fn midnight(year: i64, month: i64, day: i64) -> (r: Option<u64>)
    requires
        0 <= year <= 70000,
    ensures
        match r {
            Some(t) => midnight_of(year as int, month as int, day as int) == Some(t as int),
            None => midnight_of(year as int, month as int, day as int) is None,
        },
{
    match days_from_civil(year, month, day) {
        Some(d) => {
            assert(d <= 30_000_000);
            if d >= 0 {
                Some((d as u64) * 86400)
            } else {
                None
            }
        },
        None => None,
    }
}

/// A civil date plus a `HH:MM:SS GMT` remainder.
fn zoned(year: i64, month: i64, day: i64, time: &[u8]) -> (r: Option<u64>)
    requires
        0 <= year <= 70000,
    ensures
        match r {
            Some(t) => zoned_of(year as int, month as int, day as int, time@) == Some(t as int),
            None => zoned_of(year as int, month as int, day as int, time@) is None,
        },
{
    proof {
        reveal_strlit(" GMT");
    }
    let gmt = literal(" GMT");
    let n = time.len();
    if n < 4 || !crate::octets::bytes_eq(&time[n - 4..n], gmt.as_slice()) {
        assert(n >= 4 ==> time@.subrange(n - 4, n as int) =~= time@.skip(n - 4));
        return None;
    }
    assert(time@.subrange(n - 4, n as int) =~= time@.skip(n - 4));
    let clock = &time[0..n - 4];
    assert(clock@ =~= time@.take(n - 4));
    match (midnight(year, month, day), time_of_day(clock)) {
        (Some(m), Some(t)) => {
            assert(m <= 30_000_000 * 86400);
            Some(m + t)
        },
        _ => None,
    }
}

/// `Sun, 06 Nov 1994 08:49:37 GMT`
fn imf_fixdate(v: &[u8]) -> (r: Option<u64>)
    ensures
        match r {
            Some(t) => imf_of(v@) == Some(t as int),
            None => imf_of(v@) is None,
        },
{
    proof {
        reveal_strlit(", ");
    }
    let n = match leading_day(v, false) {
        Some(n) => n,
        None => {
            return None;
        },
    };
    let r = &v[n..v.len()];
    assert(r@ =~= v@.skip(n as int));
    let sep = literal(", ");
    if !(has_prefix(r, sep.as_slice()) && r.len() >= 14 && r[4] == 0x20 && r[8] == 0x20 && r[13]
        == 0x20) {
        return None;
    }
    let year = parse_bounded(&r[9..13], 65535);
    let month = month_number(&r[5..8]);
    let day = parse_bounded(&r[2..4], 255);
    match (year, month, day) {
        (Some(y), Some(m), Some(d)) => {
            let rest = &r[14..r.len()];
            assert(rest@ =~= r@.skip(14));
            zoned(y, m, d, rest)
        },
        _ => None,
    }
}

/// `Sunday, 06-Nov-94 08:49:37 GMT`
fn rfc850(v: &[u8]) -> (r: Option<u64>)
    ensures
        match r {
            Some(t) => rfc850_of(v@) == Some(t as int),
            None => rfc850_of(v@) is None,
        },
{
    proof {
        reveal_strlit(", ");
    }
    let n = match leading_day(v, true) {
        Some(n) => n,
        None => {
            return None;
        },
    };
    let r = &v[n..v.len()];
    assert(r@ =~= v@.skip(n as int));
    let sep = literal(", ");
    if !(has_prefix(r, sep.as_slice()) && r.len() >= 12 && r[4] == 0x2d && r[8] == 0x2d && r[11]
        == 0x20) {
        return None;
    }
    let two = parse_bounded(&r[9..11], 65535);
    let month = month_number(&r[5..8]);
    let day = parse_bounded(&r[2..4], 255);
    match (two, month, day) {
        (Some(t), Some(m), Some(d)) => {
            let rest = &r[12..r.len()];
            assert(rest@ =~= r@.skip(12));
            // Two-digit years are anchored on the format's own era rather than
            // on today's clock, so one input always names one instant.
            let year = if t >= 70 {
                1900 + t
            } else {
                2000 + t
            };
            zoned(year, m, d, rest)
        },
        _ => None,
    }
}

/// `Sun Nov  6 08:49:37 1994`
fn asctime(v: &[u8]) -> (r: Option<u64>)
    ensures
        match r {
            Some(t) => asctime_of(v@) == Some(t as int),
            None => asctime_of(v@) is None,
        },
{
    let n = match leading_day(v, false) {
        Some(n) => n,
        None => {
            return None;
        },
    };
    let r = &v[n..v.len()];
    assert(r@ =~= v@.skip(n as int));
    if !(r.len() >= 17 && r[0] == 0x20 && r[4] == 0x20 && r[7] == 0x20 && r[16] == 0x20) {
        return None;
    }
    let year_text = &r[17..r.len()];
    assert(year_text@ =~= r@.skip(17));
    let year = parse_bounded(year_text, 65535);
    let month = month_number(&r[1..4]);
    // The day is space-padded rather than zero-padded in this form alone.
    let day_text = trim_bytes(&r[5..7]);
    let day = parse_bounded(day_text.as_slice(), 255);
    match (year, month, day) {
        (Some(y), Some(m), Some(d)) => match (midnight(y, m, d), time_of_day(&r[8..16])) {
            (Some(mid), Some(t)) => {
                assert(mid <= 30_000_000 * 86400);
                Some(mid + t)
            },
            _ => None,
        },
        _ => None,
    }
}

/// Reads any of the three formats RFC 9110 section 5.6.7 names, as seconds
/// since the Unix epoch.
///
/// `None` for anything else, which a recipient treats as no condition at all:
/// section 13.1.3 says an `If-Modified-Since` that "is not a valid HTTP-date"
/// is ignored.
pub fn parse(value: &[u8]) -> (r: Option<u64>)
    ensures
        match r {
            Some(t) => parsed(value@) == Some(t as int),
            None => parsed(value@) is None,
        },
{
    let v = trim_text_bytes(value);
    match imf_fixdate(v.as_slice()) {
        Some(t) => Some(t),
        None => match rfc850(v.as_slice()) {
            Some(t) => Some(t),
            None => asctime(v.as_slice()),
        },
    }
}

/// Among names of three octets, all different, a text beginning with one of
/// them leads with that one.
proof fn lemma_leading_name(s: Seq<u8>, names: Seq<Seq<u8>>, w: int)
    requires
        0 <= w < names.len(),
        forall|i: int| 0 <= i < names.len() ==> (#[trigger] names[i]).len() == 3,
        forall|i: int, j: int| 0 <= i < j < names.len() ==> #[trigger] names[i] != #[trigger] names[j],
        s.len() >= 3,
        s.take(3) == names[w],
    ensures
        leading_name(s, names) == Some(names[w]),
    decreases names.len(),
{
    if w > 0 {
        assert(names[0] != names[w]);
        let rest = names.drop_first();
        assert forall|i: int| 0 <= i < rest.len() implies (#[trigger] rest[i]).len() == 3 by {
            assert(rest[i] == names[i + 1]);
        }
        assert forall|i: int, j: int| 0 <= i < j < rest.len() implies #[trigger] rest[i] != #[trigger] rest[j] by {
            assert(rest[i] == names[i + 1] && rest[j] == names[j + 1]);
        }
        assert(rest[w - 1] == names[w]);
        lemma_leading_name(s, rest, w - 1);
    }
}

/// Among names all different, a name is found at its own position.
proof fn lemma_position(names: Seq<Seq<u8>>, w: int)
    requires
        0 <= w < names.len(),
        forall|i: int, j: int| 0 <= i < j < names.len() ==> #[trigger] names[i] != #[trigger] names[j],
    ensures
        position(names, names[w]) == Some(w),
    decreases names.len(),
{
    if w > 0 {
        assert(names[0] != names[w]);
        let rest = names.drop_first();
        assert forall|i: int, j: int| 0 <= i < j < rest.len() implies #[trigger] rest[i] != #[trigger] rest[j] by {
            assert(rest[i] == names[i + 1] && rest[j] == names[j + 1]);
        }
        assert(rest[w - 1] == names[w]);
        lemma_position(rest, w - 1);
    }
}

/// The day names are three octets each, and all different.
proof fn lemma_day_names()
    ensures
        day_names().len() == 7,
        forall|i: int| 0 <= i < 7 ==> (#[trigger] day_names()[i]).len() == 3,
        forall|i: int, j: int| 0 <= i < j < 7 ==> #[trigger] day_names()[i] != #[trigger] day_names()[j],
        forall|i: int, k: int| 0 <= i < 7 && 0 <= k < 3 ==> 0x41u8 <= #[trigger] day_names()[i][k] <= 0x7au8,
{
    reveal_strlit("Mon");
    reveal_strlit("Tue");
    reveal_strlit("Wed");
    reveal_strlit("Thu");
    reveal_strlit("Fri");
    reveal_strlit("Sat");
    reveal_strlit("Sun");
    let n = day_names();
    assert forall|i: int, j: int| 0 <= i < j < 7 implies #[trigger] n[i] != #[trigger] n[j] by {
        if n[i] == n[j] {
            assert(n[i][0] == n[j][0] && n[i][1] == n[j][1] && n[i][2] == n[j][2]);
        }
    }
}

/// The month names are three octets each, and all different.
proof fn lemma_month_names()
    ensures
        month_names().len() == 12,
        forall|i: int| 0 <= i < 12 ==> (#[trigger] month_names()[i]).len() == 3,
        forall|i: int, j: int| 0 <= i < j < 12 ==> #[trigger] month_names()[i] != #[trigger] month_names()[j],
{
    reveal_strlit("Jan");
    reveal_strlit("Feb");
    reveal_strlit("Mar");
    reveal_strlit("Apr");
    reveal_strlit("May");
    reveal_strlit("Jun");
    reveal_strlit("Jul");
    reveal_strlit("Aug");
    reveal_strlit("Sep");
    reveal_strlit("Oct");
    reveal_strlit("Nov");
    reveal_strlit("Dec");
    let n = month_names();
    assert forall|i: int, j: int| 0 <= i < j < 12 implies #[trigger] n[i] != #[trigger] n[j] by {
        if n[i] == n[j] {
            assert(n[i][0] == n[j][0] && n[i][1] == n[j][1] && n[i][2] == n[j][2]);
        }
    }
}

/// What the IMF-fixdate form writes, the parser reads back: a date that
/// exists, on or after the epoch and with a four-digit year, at a time of
/// day, reads as that instant whatever weekday it is written with.
#[verifier::spinoff_prover]
#[verifier::rlimit(60)]
pub proof fn an_imf_fixdate_reads_back(weekday: int, year: int, month: int, day: int, rest: int, days: int)
    requires
        0 <= weekday < 7,
        0 <= year <= 9999,
        days_of(year, month, day) == Some(days),
        days >= 0,
        0 <= rest < 86400,
    ensures
        parsed(imf_text(weekday, year, month, day, rest)) == Some(days * 86400 + rest),
{
    reveal_strlit(", ");
    reveal_strlit(" ");
    reveal_strlit(":");
    reveal_strlit(" GMT");
    lemma_day_names();
    lemma_month_names();
    assert(vstd::arithmetic::power::pow(10, 2) == 100) by {
        vstd::arithmetic::power::lemma_pow_adds(10, 1, 1);
        vstd::arithmetic::power::lemma_pow1(10);
    }
    assert(vstd::arithmetic::power::pow(10, 4) == 10000) by {
        vstd::arithmetic::power::lemma_pow_adds(10, 2, 2);
    }
    let hours = rest / 3600;
    let minutes = (rest % 3600) / 60;
    let secs = rest % 60;
    assert(hours < 24 && minutes < 60 && secs < 60);
    assert(hours * 3600 + minutes * 60 + secs == rest);
    assert(1 <= day <= 31);
    lemma_padded_reads_back(day as nat, 2);
    lemma_padded_reads_back(year as nat, 4);
    lemma_padded_reads_back(hours as nat, 2);
    lemma_padded_reads_back(minutes as nat, 2);
    lemma_padded_reads_back(secs as nat, 2);
    let a = day_names()[weekday];
    let c = padded(day as nat, 2);
    let e = month_names()[month - 1];
    let g = padded(year as nat, 4);
    let hh = padded(hours as nat, 2);
    let mm = padded(minutes as nat, 2);
    let ss = padded(secs as nat, 2);
    let clock = hh + seq![0x3au8] + mm + seq![0x3au8] + ss;
    let time = clock + ascii(" GMT"@);
    let r = ascii(", "@) + c + ascii(" "@) + e + ascii(" "@) + g + ascii(" "@) + time;
    let text = imf_text(weekday, year, month, day, rest);
    assert(ascii(":"@) =~= seq![0x3au8]);
    assert(text =~= a + r);
    assert(trim_text(text) == text) by {
        assert(text[0] == a[0]);
        assert(text[text.len() - 1] == 0x54u8);
        lemma_trim_text_idle(text);
    }
    assert(text.take(3) =~= a);
    lemma_leading_name(text, day_names(), weekday);
    assert(text.skip(3) =~= r);
    assert(starts_with(r, ascii(", "@))) by {
        assert(r.take(2) =~= ascii(", "@));
    }
    assert(r.subrange(2, 4) =~= c);
    assert(r.subrange(5, 8) =~= e);
    assert(r.subrange(9, 13) =~= g);
    assert(r.skip(14) =~= time);
    lemma_position(month_names(), month - 1);
    assert(month_of(e) == Some(month));
    assert(parse_u8(c) == Some(day));
    assert(parse_u16(g) == Some(year));
    assert(time.skip(time.len() - 4) =~= ascii(" GMT"@));
    assert(time.take(time.len() - 4) =~= clock);
    assert forall|k: int| 0 <= k < hh.len() implies #[trigger] hh[k] != 0x3au8 by {
        assert(is_digit(hh[k]));
    }
    assert forall|k: int| 0 <= k < mm.len() implies #[trigger] mm[k] != 0x3au8 by {
        assert(is_digit(mm[k]));
    }
    assert forall|k: int| 0 <= k < ss.len() implies #[trigger] ss[k] != 0x3au8 by {
        assert(is_digit(ss[k]));
    }
    lemma_split_three(hh, mm, ss, 0x3au8);
    assert(time_of(clock) == Some(rest));
    assert(midnight_of(year, month, day) == Some(days * 86400));
    assert(zoned_of(year, month, day, time) == Some(days * 86400 + rest));
    assert(imf_of(text) == Some(days * 86400 + rest));
}

/// Within one 400-year era, the year of the era Hinnant's arithmetic finds for
/// day `doe` is one of the 400, and the day of that (March-based) year it
/// leaves is within the year: its 366th day only in a leap year.
proof fn era_core(doe: u32)
    by (bit_vector)
    requires
        doe < 146097,
    ensures
        ({
            let yoe = (doe - doe / 1460 + doe / 36524 - doe / 146096) / 365;
            let doy = doe - (365 * yoe + yoe / 4 - yoe / 100);
            &&& yoe <= 399
            &&& 0 <= doy
            &&& (doy <= 364 || (doy == 365 && (yoe + 1) % 4 == 0 && ((yoe + 1) % 100 != 0 || yoe == 399)))
        }),
{
}

/// The month of a March-based year that day `doy` falls in, and the day of
/// that month, are a month and a day of it; the 29th of February only on the
/// 366th day.
proof fn month_core(doy: u32)
    by (bit_vector)
    requires
        doy <= 365,
    ensures
        ({
            let mp = (5 * doy + 2) / 153;
            let day = doy - (153 * mp + 2) / 5 + 1;
            &&& mp <= 11
            &&& 1 <= day
            &&& day <= (if mp == 0 || mp == 2 || mp == 4 || mp == 5 || mp == 7 || mp == 9 || mp == 10 {
                31int
            } else if mp == 11 {
                29int
            } else {
                30int
            })
            &&& (mp == 11 && day == 29 ==> doy == 365)
        }),
{
}

/// The civil date of every day on or after the epoch exists and counts back
/// to that day.
proof fn lemma_civil_exact(days: int)
    requires
        0 <= days <= 300_000_000_000_000,
    ensures
        civil(days) matches Some((y, m, d)) && 1 <= m <= 12 && 1 <= d <= month_length(y, m) && days_of(y, m, d) == Some(days),
{
    let z = days + 719468;
    let era = z / 146097;
    let doe = z - era * 146097;
    assert(0 <= doe < 146097);
    assert(0 <= era);
    era_core(doe as u32);
    assert((doe as u32) as int == doe);
    let yoe = (doe - doe / 1460 + doe / 36524 - doe / 146096) / 365;
    let doy = doe - (365 * yoe + yoe / 4 - yoe / 100);
    assert(0 <= yoe <= 399);
    assert(0 <= doy <= 365);
    month_core(doy as u32);
    let mp = (5 * doy + 2) / 153;
    let day = doy - (153 * mp + 2) / 5 + 1;
    let month = mp + (if mp < 10 { 3int } else { -9int });
    let y = yoe + era * 400;
    let year = y + (if month <= 2 { 1int } else { 0int });
    assert(civil(days) == Some((year, month, day)));
    assert(1 <= month <= 12);
    if month == 2 && day == 29 {
        assert(doy == 365);
        assert((yoe + 1) % 4 == 0 && ((yoe + 1) % 100 != 0 || yoe == 399));
        assert(year == era * 400 + yoe + 1);
        assert(is_leap(year)) by (nonlinear_arith)
            requires
                year == era * 400 + yoe + 1,
                0 <= yoe <= 399,
                0 <= era,
                (yoe + 1) % 4 == 0 && ((yoe + 1) % 100 != 0 || yoe == 399),
        {
        }
    }
    assert(1 <= day <= month_length(year, month));
    let y2 = year - (if month <= 2 { 1int } else { 0int });
    assert(y2 == y);
    assert(y2 / 400 == era) by (nonlinear_arith)
        requires
            y2 == yoe + era * 400,
            0 <= yoe < 400,
    {
    }
    let doy2 = (153 * (month + (if month > 2 { -3int } else { 9int })) + 2) / 5 + day - 1;
    assert(month + (if month > 2 { -3int } else { 9int }) == mp);
    assert(doy2 == doy);
}

/// A date on or after the epoch and before the year 10000 has a year of four
/// digits at most.
proof fn lemma_year_bounds(year: int, month: int, day: int, days: int)
    requires
        days_of(year, month, day) == Some(days),
        0 <= days < 2932897,
    ensures
        0 <= year <= 9999,
{
    let y = year - (if month <= 2 {
        1int
    } else {
        0int
    });
    let era = y / 400;
    let yoe = y - era * 400;
    assert(0 <= yoe < 400) by (nonlinear_arith)
        requires
            era == y / 400,
            yoe == y - era * 400,
    ;
    let mp = month + (if month > 2 {
        -3int
    } else {
        9int
    });
    assert(0 <= mp <= 11);
    let doy = (153 * mp + 2) / 5 + day - 1;
    assert(0 <= (153 * mp + 2) / 5 <= 337) by (nonlinear_arith)
        requires
            0 <= mp <= 11,
    ;
    assert(1 <= day <= 31);
    let doe = yoe * 365 + yoe / 4 - yoe / 100 + doy;
    assert(0 <= yoe / 4 - yoe / 100 <= 99) by (nonlinear_arith)
        requires
            0 <= yoe < 400,
    ;
    assert(0 <= doe <= 146098) by (nonlinear_arith)
        requires
            0 <= yoe < 400,
            0 <= yoe / 4 - yoe / 100 <= 99,
            0 <= doy <= 367,
            doe == yoe * 365 + yoe / 4 - yoe / 100 + doy,
    ;
    assert(days == era * 146097 + doe - 719468);
    if year < 0 {
        assert(era <= -1) by (nonlinear_arith)
            requires
                y <= -1,
                era == y / 400,
        ;
        assert(era * 146097 <= -146097) by (nonlinear_arith)
            requires
                era <= -1,
        ;
    }
    if year > 9999 {
        assert(y >= 9999);
        assert(era >= 24) by (nonlinear_arith)
            requires
                y >= 9999,
                era == y / 400,
        ;
        if era >= 25 {
            assert(era * 146097 >= 25 * 146097) by (nonlinear_arith)
                requires
                    era >= 25,
            ;
        } else {
            assert(era == 24);
            assert(yoe == 399);
            assert(month <= 2);
            assert(mp >= 10);
            assert((153 * mp + 2) / 5 >= 306) by (nonlinear_arith)
                requires
                    mp >= 10,
            ;
        }
    }
}

/// Every instant on or after the epoch that a `u64` can count has a date.
pub proof fn every_instant_has_a_date(seconds: nat)
    requires
        seconds <= u64::MAX,
    ensures
        formatted(seconds) is Some,
{
    lemma_civil_exact((seconds / 86400) as int);
}

/// What the formatter renders, the parser reads back as the same instant,
/// for every instant before the year 10000 (whose years have four digits).
pub proof fn a_rendered_date_reads_back(seconds: nat)
    requires
        seconds < 253_402_300_800,
    ensures
        parsed(formatted(seconds)->0) == Some(seconds as int),
{
    let days = seconds / 86400;
    let rest = seconds % 86400;
    every_instant_has_a_date(seconds);
    let (year, month, day) = civil(days as int)->0;
    assert(days_of(year, month, day) == Some(days as int));
    assert(days < 2932897);
    lemma_year_bounds(year, month, day, days as int);
    an_imf_fixdate_reads_back(((days % 7 + 3) % 7) as int, year, month, day, rest as int, days as int);
    assert(days * 86400 + rest == seconds);
}

/// The IMF-fixdate text starts with a letter of its day name and ends with
/// the `T` of `GMT`.
proof fn lemma_imf_text_edges(weekday: int, year: int, month: int, day: int, rest: int)
    requires
        0 <= weekday < 7,
        1 <= month <= 12,
    ensures
        imf_text(weekday, year, month, day, rest).len() > 0,
        0x41u8 <= imf_text(weekday, year, month, day, rest)[0] <= 0x7au8,
        imf_text(weekday, year, month, day, rest).last() == 0x54u8,
{
    reveal_strlit(" GMT");
    lemma_day_names();
    let text = imf_text(weekday, year, month, day, rest);
    let a = day_names()[weekday];
    let tail = ascii(" GMT"@);
    assert(tail.len() == 4 && tail[3] == 0x54u8);
    assert(text =~= a + text.skip(3));
    assert(text[0] == a[0]);
    assert(text.skip(text.len() - 4) =~= tail);
}

/// Whitespace around a rendered date changes nothing: it reads back as the
/// same instant, for every instant before the year 10000.
pub proof fn padding_around_a_rendered_date_is_ignored(seconds: nat, before: Seq<u8>, after: Seq<u8>)
    requires
        seconds < 253_402_300_800,
        crate::octets::all_space(before),
        crate::octets::all_space(after),
    ensures
        parsed(before + formatted(seconds)->0 + after) == Some(seconds as int),
{
    a_rendered_date_reads_back(seconds);
    every_instant_has_a_date(seconds);
    let days = seconds / 86400;
    let (year, month, day) = civil(days as int)->0;
    let text = formatted(seconds)->0;
    assert(text == imf_text(((days % 7 + 3) % 7) as int, year, month, day, (seconds % 86400) as int));
    lemma_imf_text_edges(((days % 7 + 3) % 7) as int, year, month, day, (seconds % 86400) as int);
    crate::octets::lemma_trim_text_padded(before, text, after);
    lemma_trim_text_idle(text);
}

/// The day name a date is written with is the weekday of its instant: the
/// epoch's day, 1970-01-01, was a Thursday, and each whole day after it moves
/// the name on by one, whatever the year or the month.
pub proof fn the_day_name_is_the_weekday(seconds: nat)
    requires
        seconds <= u64::MAX,
    ensures
        formatted(seconds)->0.take(3) == day_names()[day_index(seconds)],
{
    every_instant_has_a_date(seconds);
    lemma_day_names();
    let days = seconds / 86400;
    let (year, month, day) = civil(days as int)->0;
    let w = ((days % 7 + 3) % 7) as int;
    assert(w == (3 + days) % 7) by (nonlinear_arith)
        requires
            w == (days % 7 + 3) % 7,
    ;
    let text = imf_text(w, year, month, day, (seconds % 86400) as int);
    assert(formatted(seconds)->0 == text);
    assert(day_names()[w].len() == 3);
    assert(text.take(3) =~= day_names()[w]);
}

/// A week later, a date is written with the same day name; a day later, with
/// the next one.
pub proof fn the_day_name_moves_on_with_the_days(seconds: nat)
    requires
        seconds + 7 * 86400 <= u64::MAX,
    ensures
        formatted(seconds + 7 * 86400)->0.take(3) == formatted(seconds)->0.take(3),
        formatted(seconds + 86400)->0.take(3) == day_names()[(day_index(seconds) + 1) % 7],
{
    the_day_name_is_the_weekday(seconds);
    the_day_name_is_the_weekday(seconds + 86400);
    the_day_name_is_the_weekday(seconds + 7 * 86400);
    lemma_day_index_steps(seconds);
}

/// A day on moves the day index on by one, and a week on returns to it.
proof fn lemma_day_index_steps(seconds: nat)
    ensures
        day_index(seconds + 7 * 86400) == day_index(seconds),
        day_index(seconds + 86400) == (day_index(seconds) + 1) % 7,
{
    let d = seconds / 86400;
    assert((seconds + 7 * 86400) / 86400 == d + 7) by (nonlinear_arith)
        requires
            d == seconds / 86400,
    ;
    assert((seconds + 86400) / 86400 == d + 1) by (nonlinear_arith)
        requires
            d == seconds / 86400,
    ;
    assert((3 + d + 7) % 7 == (3 + d) % 7) by (nonlinear_arith);
    assert((3 + d + 1) % 7 == ((3 + d) % 7 + 1) % 7) by (nonlinear_arith);
}

/// Which of [`day_names`] the instant `seconds` falls on.
pub open spec fn day_index(seconds: nat) -> int {
    ((3 + seconds / 86400) % 7) as int
}

} // verus!
