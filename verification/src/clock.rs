//! Time as the walkthrough writes it: UTC timestamps in file names and
//! manifests, and how long ago something changed.

use vstd::prelude::*;
use crate::text::{decimal, digit_char};

verus! {

/// The earliest timestamp (in seconds) the time library represents: the
/// start of year -262143.
pub const FIRST_STAMP_SECS: i64 = -8334601228800;
/// The last timestamp (in seconds) the time library represents: the last
/// second of year 262142.
pub const LAST_STAMP_SECS: i64 = 8210266876799;

/// The proleptic Gregorian (year, month, day) of a day count from
/// 1970-01-01.
pub open spec fn civil_from_days(days: int) -> (int, int, int) {
    let z = days + 719468;
    let era = z / 146097;
    let doe = z - era * 146097;
    let yoe = (doe - doe / 1460 + doe / 36524 - doe / 146096) / 365;
    let doy = doe - (365 * yoe + yoe / 4 - yoe / 100);
    let mp = (5 * doy + 2) / 153;
    let d = doy - (153 * mp + 2) / 5 + 1;
    let m = if mp < 10 { mp + 3 } else { mp - 9 };
    let y = yoe + era * 400;
    (if m <= 2 { y + 1 } else { y }, m, d)
}

/// The `width` last decimal digits of `n`, with leading zeros.
pub open spec fn digits(n: nat, width: nat) -> Seq<char>
    decreases width,
{
    if width == 0 {
        Seq::empty()
    } else {
        digits(n / 10, (width - 1) as nat).push(digit_char(n % 10))
    }
}

/// A year as the time library writes it: four digits for years 0 to 9999,
/// otherwise a sign and at least four digits.
pub open spec fn year_text(y: int) -> Seq<char> {
    if 0 <= y <= 9999 {
        digits(y as nat, 4)
    } else {
        let a: nat = if y < 0 { (-y) as nat } else { y as nat };
        seq![if y < 0 { '-' } else { '+' }] + if a < 10000 { digits(a, 4) } else { decimal(a) }
    }
}

/// The UTC date of a timestamp as year, month and day digits.
pub open spec fn date_digits(secs: int, sep: Seq<char>) -> Seq<char> {
    let (y, m, d) = civil_from_days(secs / 86400);
    year_text(y) + sep + digits(m as nat, 2) + sep + digits(d as nat, 2)
}

/// The UTC time of day of a timestamp as hour, minute and second digits.
pub open spec fn time_digits(secs: int, sep: Seq<char>) -> Seq<char> {
    let t = secs % 86400;
    digits((t / 3600) as nat, 2) + sep + digits((t % 3600 / 60) as nat, 2) + sep + digits((t % 60) as nat, 2)
}

/// `%Y%m%d_%H%M%S` of a UTC timestamp.
pub open spec fn compact_stamp(secs: int) -> Seq<char> {
    date_digits(secs, Seq::empty()) + seq!['_'] + time_digits(secs, Seq::empty())
}

/// The fraction that RFC 3339 text with automatic precision gives to
/// `nanos` nanoseconds: none, or 3, 6 or 9 digits.
pub open spec fn second_fraction(nanos: nat) -> Seq<char> {
    if nanos == 0 {
        Seq::empty()
    } else if nanos % 1000000 == 0 {
        seq!['.'] + digits(nanos / 1000000, 3)
    } else if nanos % 1000 == 0 {
        seq!['.'] + digits(nanos / 1000, 6)
    } else {
        seq!['.'] + digits(nanos, 9)
    }
}

/// RFC 3339 text of a UTC instant: `YYYY-MM-DDTHH:MM:SS[.fraction]+00:00`.
pub open spec fn rfc3339_text(secs: int, nanos: nat) -> Seq<char> {
    date_digits(secs, seq!['-']) + seq!['T'] + time_digits(secs, seq![':'])
        + second_fraction(nanos) + seq!['+', '0', '0', ':', '0', '0']
}

/// Whether a timestamp falls in the years the time library represents
/// (-262143 to 262142).
pub open spec fn in_stamp_range(secs: int) -> bool {
    FIRST_STAMP_SECS <= secs <= LAST_STAMP_SECS
}

/// `chrono::DateTime::<Utc>::from_timestamp` followed by `format` with
/// `pattern` and `to_string`. Claimed: for the pattern `%Y%m%d_%H%M%S` and
/// an instant of years -262143 to 262142 (nanoseconds below one second)
/// there is a text, and it is the year as `year_text` writes it, then the
/// zero-padded month, day, `_`, hour, minute and second.
#[verifier::external_body]
fn format_utc(secs: i64, nanos: u32, pattern: &str) -> (r: Option<String>)
    requires
        pattern@ == "%Y%m%d_%H%M%S"@,
    ensures
        in_stamp_range(secs as int) && nanos < 1000000000 ==> r is Some,
        in_stamp_range(secs as int) && nanos < 1000000000 ==> r.unwrap()@ == compact_stamp(secs as int),
{
    chrono::DateTime::from_timestamp(secs, nanos).map(|t| t.format(pattern).to_string())
}

/// `chrono::DateTime::<Utc>::from_timestamp` followed by `to_rfc3339`.
/// Claimed: for an instant of years -262143 to 262142 (nanoseconds below
/// one second) there is a text, and it is the RFC 3339 form (the year as
/// `year_text` writes it) with the `+00:00` offset and the shortest of no,
/// 3, 6 or 9 fraction digits that is exact.
#[verifier::external_body]
fn rfc3339_utc(secs: i64, nanos: u32) -> (r: Option<String>)
    ensures
        in_stamp_range(secs as int) && nanos < 1000000000 ==> r is Some,
        in_stamp_range(secs as int) && nanos < 1000000000 ==> r.unwrap()@ == rfc3339_text(secs as int, nanos as nat),
{
    chrono::DateTime::from_timestamp(secs, nanos).map(|t| t.to_rfc3339())
}

/// `prefix`, the `%Y%m%d_%H%M%S` stamp of the UTC instant, then `suffix`:
/// the names of timestamped backups and versions. Nothing is promised of
/// instants outside the years -262143 to 262142 or of nanoseconds of one
/// second or more.
pub fn stamped_path(prefix: &str, secs: i64, nanos: u32, suffix: &str) -> (r: Option<String>)
    ensures
        in_stamp_range(secs as int) && nanos < 1000000000 ==> r is Some
            && r.unwrap()@ == prefix@ + compact_stamp(secs as int) + suffix@,
{
    match format_utc(secs, nanos, "%Y%m%d_%H%M%S") {
        Some(stamp) => {
            let mut t = String::from_str(prefix);
            t.append(stamp.as_str());
            t.append(suffix);
            Some(t)
        },
        None => None,
    }
}

/// The RFC 3339 text of a UTC instant (the manifest timestamp). Nothing is
/// promised of instants outside the years -262143 to 262142 or of
/// nanoseconds of one second or more.
pub fn instant_text(secs: i64, nanos: u32) -> (r: Option<String>)
    ensures
        in_stamp_range(secs as int) && nanos < 1000000000 ==> r is Some
            && r.unwrap()@ == rfc3339_text(secs as int, nanos as nat),
{
    rfc3339_utc(secs, nanos)
}

/// How long ago, in the largest whole unit among seconds (below a minute),
/// minutes (below an hour), hours (below a day) and days.
pub open spec fn elapsed_text(secs: nat) -> Seq<char> {
    if secs < 60 {
        decimal(secs) + " 秒前"@
    } else if secs < 3600 {
        decimal(secs / 60) + " 分钟前"@
    } else if secs < 86400 {
        decimal(secs / 3600) + " 小时前"@
    } else {
        decimal(secs / 86400) + " 天前"@
    }
}

/// The "time since the last change" text of the metadata walkthrough.
pub fn format_elapsed(secs: u64) -> (s: String)
    ensures
        s@ == elapsed_text(secs as nat),
{
    let mut s = String::new();
    if secs < 60 {
        crate::text::push_decimal(&mut s, secs as u128);
        s.append(" 秒前");
    } else if secs < 3600 {
        crate::text::push_decimal(&mut s, (secs / 60) as u128);
        s.append(" 分钟前");
    } else if secs < 86400 {
        crate::text::push_decimal(&mut s, (secs / 3600) as u128);
        s.append(" 小时前");
    } else {
        crate::text::push_decimal(&mut s, (secs / 86400) as u128);
        s.append(" 天前");
    }
    assert(s@ =~= elapsed_text(secs as nat));
    s
}

} // verus!
