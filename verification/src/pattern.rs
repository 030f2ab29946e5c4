//! Regular expressions (through `fancy_regex`) and calendar parsing
//! (through `chrono`) that the line-format detectors rely on.

use chrono::{Datelike, TimeZone, Timelike};
use vstd::prelude::*;
use vstd::string::*;

verus! {

#[verifier::external_type_specification]
#[verifier::external_body]
pub struct ExRegex(fancy_regex::Regex);

#[verifier::external_type_specification]
#[verifier::external_body]
pub struct ExRegexError(fancy_regex::Error);

/// Whether `fancy_regex` accepts `pattern`.
pub uninterp spec fn regex_compiles(pattern: Seq<char>) -> bool;

/// The outcome of `Regex::is_match` of the regex of `pattern` on `text`
/// (`None` when matching fails, e.g. on the backtrack limit).
pub uninterp spec fn regex_is_match(pattern: Seq<char>, text: Seq<char>) -> Option<bool>;

/// The capture groups (group 0 first) of the first match of the regex of
/// `pattern` in `text`: `Some(None)` without a match, `None` when matching
/// fails.
pub uninterp spec fn regex_captures(pattern: Seq<char>, text: Seq<char>) -> Option<
    Option<Seq<Option<Seq<char>>>>,
>;

/// Calendar fields (year, month, day, hour, minute, second, nanosecond) of
/// `NaiveDateTime::parse_from_str(text, format)`.
pub uninterp spec fn naive_datetime_fields(text: Seq<char>, format: Seq<char>) -> Option<
    (i32, u32, u32, u32, u32, u32, u32),
>;

/// Milliseconds since the Unix epoch of the instant that
/// `DateTime::parse_from_rfc3339` reads from `text`.
pub uninterp spec fn rfc3339_millis(text: Seq<char>) -> Option<i64>;

/// Microseconds since the Unix epoch of `DateTime::from_timestamp(secs,
/// nsecs)`, when that instant is in range.
pub uninterp spec fn utc_micros(secs: i64, nsecs: u32) -> Option<i64>;

/// Every character of `s` is an ASCII digit.
pub open spec fn all_digits(s: Seq<char>) -> bool {
    forall|i: int| 0 <= i < s.len() ==> '0' <= #[trigger] s[i] <= '9'
}

/// The number that the decimal digits `s` write.
pub open spec fn digits_value(s: Seq<char>) -> int
    decreases s.len(),
{
    if s.len() == 0 {
        0
    } else {
        digits_value(s.drop_last()) * 10 + (s.last() as int - '0' as int)
    }
}

/// The value of `str::parse::<i64>` on `text`: an optional `+` or `-`,
/// then one or more ASCII digits, whose value is in range.
pub open spec fn parsed_i64(text: Seq<char>) -> Option<i64> {
    let neg = text.len() > 0 && text[0] == '-';
    let signed = text.len() > 0 && (text[0] == '-' || text[0] == '+');
    let digits = if signed { text.skip(1) } else { text };
    let v = if neg { -digits_value(digits) } else { digits_value(digits) };
    if digits.len() == 0 || !all_digits(digits) || v < i64::MIN || v > i64::MAX {
        None
    } else {
        Some(v as i64)
    }
}

/// A run of digits is worth no less than any of its prefixes.
proof fn lemma_digits_value_grows(s: Seq<char>, k: int)
    requires
        all_digits(s),
        0 <= k <= s.len(),
    ensures
        digits_value(s) >= digits_value(s.take(k)) >= 0,
    decreases s.len(),
{
    if k < s.len() {
        let init = s.drop_last();
        assert(all_digits(init)) by {
            assert forall|i: int| 0 <= i < init.len() implies '0' <= #[trigger] init[i] <= '9' by {
                assert(init[i] == s[i]);
            }
        }
        lemma_digits_value_grows(init, k);
        assert(init.take(k) =~= s.take(k));
        assert('0' <= s[s.len() - 1] <= '9');
    } else {
        assert(s.take(k) =~= s);
        if s.len() > 0 {
            let init = s.drop_last();
            assert(all_digits(init)) by {
                assert forall|i: int| 0 <= i < init.len() implies '0' <= #[trigger] init[i] <= '9' by {
                    assert(init[i] == s[i]);
                }
            }
            lemma_digits_value_grows(init, 0);
            assert('0' <= s[s.len() - 1] <= '9');
        }
    }
}

/// `fancy_regex::Regex::new`.
#[verifier::external_body]
fn regex_new(pattern: &str) -> (r: Result<fancy_regex::Regex, fancy_regex::Error>)
    ensures
        r.is_ok() == regex_compiles(pattern@),
{
    fancy_regex::Regex::new(pattern)
}

/// A compiled regular expression together with its source text.
pub struct Pattern {
    source: String,
    regex: fancy_regex::Regex,
}

impl View for Pattern {
    type V = Seq<char>;

    closed spec fn view(&self) -> Seq<char> {
        self.source@
    }
}

/// The text captured by groups, as character sequences.
pub open spec fn groups_view(g: Vec<Option<String>>) -> Seq<Option<Seq<char>>> {
    g@.map_values(|o: Option<String>| match o {
        Some(s) => Some(s@),
        None => None,
    })
}

/// The view of a captures result.
pub open spec fn captures_view(r: Option<Option<Vec<Option<String>>>>) -> Option<
    Option<Seq<Option<Seq<char>>>>,
> {
    match r {
        Some(Some(g)) => Some(Some(groups_view(g))),
        Some(None) => Some(None),
        None => None,
    }
}

/// `pattern` compiles and matches `text`.
pub open spec fn pattern_matches(pattern: Seq<char>, text: Seq<char>) -> bool {
    regex_compiles(pattern) && regex_is_match(pattern, text) == Some(true)
}

impl Pattern {
    /// The source text is a valid regular expression.
    #[verifier::type_invariant]
    spec fn compiled(&self) -> bool {
        regex_compiles(self.source@)
    }

    /// Compiles `pattern`; `None` when it is not a valid regular expression.
    pub fn compile(pattern: &str) -> (r: Option<Pattern>)
        ensures
            r.is_some() == regex_compiles(pattern@),
            r matches Some(p) ==> p@ == pattern@,
    {
        match regex_new(pattern) {
            Ok(regex) => Some(Pattern { source: String::from_str(pattern), regex }),
            Err(_) => None,
        }
    }

    /// `Regex::is_match` (`None` when matching fails).
    #[verifier::external_body]
    pub(crate) fn try_match(&self, text: &str) -> (r: Option<bool>)
        ensures
            r == regex_is_match(self@, text@),
    {
        self.regex.is_match(text).ok()
    }

    /// `Regex::captures`, each group's text copied out.
    #[verifier::external_body]
    pub(crate) fn captures(&self, text: &str) -> (r: Option<Option<Vec<Option<String>>>>)
        ensures
            captures_view(r) == regex_captures(self@, text@),
    {
        match self.regex.captures(text) {
            Ok(Some(c)) => Some(Some(c.iter().map(|m| m.map(|m| m.as_str().to_string())).collect())),
            Ok(None) => Some(None),
            Err(_) => None,
        }
    }

    /// Whether the pattern matches `text` (a failed match counts as no match).
    pub fn is_match(&self, text: &str) -> (r: bool)
        ensures
            r == pattern_matches(self@, text@),
    {
        proof {
            use_type_invariant(self);
        }
        match self.try_match(text) {
            Some(b) => b,
            None => false,
        }
    }
}

/// `chrono::NaiveDateTime::parse_from_str`, as calendar fields.
#[verifier::external_body]
pub(crate) fn parse_naive_datetime(text: &str, format: &str) -> (r: Option<
    (i32, u32, u32, u32, u32, u32, u32),
>)
    ensures
        r == naive_datetime_fields(text@, format@),
{
    chrono::NaiveDateTime::parse_from_str(text, format).ok().map(
        |d| (d.year(), d.month(), d.day(), d.hour(), d.minute(), d.second(), d.nanosecond()),
    )
}

/// The days from 1970-01-01 to a date of the proleptic Gregorian calendar.
pub open spec fn days_from_civil(y: int, m: int, d: int) -> int {
    let yy = if m <= 2 { y - 1 } else { y };
    let era = yy / 400;
    let yoe = yy - era * 400;
    let mp = if m > 2 { m - 3 } else { m + 9 };
    let doy = (153 * mp + 2) / 5 + d - 1;
    let doe = yoe * 365 + yoe / 4 - yoe / 100 + doy;
    era * 146097 + doe - 719468
}

/// The calendar fields (year, month, day, hour, minute, second,
/// nanosecond) read as UTC, in milliseconds since the Unix epoch.
pub open spec fn utc_reading_millis(f: (i32, u32, u32, u32, u32, u32, u32)) -> int {
    (days_from_civil(f.0 as int, f.1 as int, f.2 as int) * 86400 + f.3 * 3600 + f.4 * 60 + f.5) * 1000
        + f.6 / 1_000_000
}

/// `ms` is a reading of the local fields `f` in some time zone: it differs
/// from their UTC reading by a whole number of seconds, less than a day
/// (the range of a `chrono::FixedOffset`).
pub open spec fn local_reading(f: (i32, u32, u32, u32, u32, u32, u32), ms: i64) -> bool {
    let diff = utc_reading_millis(f) - ms;
    &&& diff % 1000 == 0
    &&& -86_400_000 < diff < 86_400_000
}

/// `chrono::Local::from_local_datetime(..).single()`, as milliseconds since
/// the Unix epoch. Which instant comes out depends on the machine's time
/// zone, and so does whether one does (`None` for a local time that does
/// not exist or is ambiguous there). Every outcome subtracts the zone's
/// offset, a whole number of seconds under a day, from the fields' UTC
/// reading; a valid time of day is needed.
#[verifier::external_body]
pub(crate) fn local_datetime_millis(f: (i32, u32, u32, u32, u32, u32, u32)) -> (r: Option<i64>)
    ensures
        r matches Some(ms) ==> local_reading(f, ms),
        r is Some ==> f.3 < 24 && f.4 < 60 && f.5 < 60 && f.6 < 2_000_000_000,
{
    let date = chrono::NaiveDate::from_ymd_opt(f.0, f.1, f.2)?;
    let ndt = date.and_hms_nano_opt(f.3, f.4, f.5, f.6)?;
    chrono::Local.from_local_datetime(&ndt).single().map(|dt| dt.timestamp_millis())
}

/// `chrono::DateTime::parse_from_rfc3339`, as milliseconds since the Unix
/// epoch (the instant does not depend on a time zone).
#[verifier::external_body]
pub(crate) fn parse_rfc3339_millis(text: &str) -> (r: Option<i64>)
    ensures
        r == rfc3339_millis(text@),
{
    chrono::DateTime::parse_from_rfc3339(text).ok().map(|d| d.timestamp_millis())
}

/// `chrono::Utc.timestamp_opt(secs, nsecs).single()`, as microseconds since
/// the Unix epoch. The instant exists for every time of day within about
/// 262,000 years of the epoch (stated here for 8e12 seconds after it).
#[verifier::external_body]
pub(crate) fn utc_timestamp_micros(secs: i64, nsecs: u32) -> (r: Option<i64>)
    ensures
        r == utc_micros(secs, nsecs),
        r matches Some(v) ==> v == secs * 1_000_000 + nsecs / 1000,
        0 <= secs <= 8_000_000_000_000 && nsecs < 1_000_000_000 ==> r is Some,
{
    chrono::Utc.timestamp_opt(secs, nsecs).single().map(|d| d.timestamp_micros())
}

/// Parses a decimal `i64` as `str::parse::<i64>` does.
pub fn parse_i64(text: &str) -> (r: Option<i64>)
    ensures
        r == parsed_i64(text@),
{
    let chars = crate::chars::str_chars(text);
    let n = chars.len();
    let mut start: usize = 0;
    let mut neg = false;
    if n > 0 && chars[0] == '-' {
        neg = true;
        start = 1;
    } else if n > 0 && chars[0] == '+' {
        start = 1;
    }
    let ghost digits = chars@.skip(start as int);
    assert(digits == if text@.len() > 0 && (text@[0] == '-' || text@[0] == '+') { text@.skip(1) } else { text@ });
    if start >= n {
        return None;
    }
    let mut acc: i128 = 0;
    let mut i: usize = start;
    assert(chars@.subrange(start as int, start as int) =~= Seq::<char>::empty());
    while i < n
        invariant
            start <= i <= n,
            n == chars@.len(),
            digits == chars@.skip(start as int),
            chars@ == text@,
            neg == (text@.len() > 0 && text@[0] == '-'),
            digits == if text@.len() > 0 && (text@[0] == '-' || text@[0] == '+') { text@.skip(1) } else { text@ },
            0 <= acc <= 9_223_372_036_854_775_808,
            acc == digits_value(chars@.subrange(start as int, i as int)),
            forall|j: int| start <= j < i ==> '0' <= #[trigger] chars@[j] <= '9',
        decreases n - i,
    {
        let c = chars[i];
        if !('0' <= c && c <= '9') {
            assert(digits[i - start] == c);
            return None;
        }
        let d: i128 = (c as u32 - '0' as u32) as i128;
        assert(chars@.subrange(start as int, i + 1).drop_last() =~= chars@.subrange(start as int, i as int));
        acc = acc * 10 + d;
        if acc > 9_223_372_036_854_775_808 {
            proof {
                if all_digits(digits) {
                    assert(digits.take(i + 1 - start) =~= chars@.subrange(start as int, i + 1));
                    lemma_digits_value_grows(digits, i + 1 - start);
                }
            }
            return None;
        }
        i += 1;
    }
    proof {
        assert(chars@.subrange(start as int, n as int) =~= digits);
        assert(all_digits(digits)) by {
            assert forall|j: int| 0 <= j < digits.len() implies '0' <= #[trigger] digits[j] <= '9' by {
                assert(digits[j] == chars@[j + start]);
            }
        }
    }
    if neg {
        Some((0 - acc) as i64)
    } else if acc <= 9_223_372_036_854_775_807 {
        Some(acc as i64)
    } else {
        None
    }
}

} // verus!
