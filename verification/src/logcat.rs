//! Android logcat lines: `MM-DD HH:MM:SS.mmm` followed by the message. The
//! lines carry no year, so the reader supplies one.

use crate::detect::LOGCAT_TIMESTAMP;
use crate::generic::DASH_MILLIS_FORMAT;
use crate::pattern::{local_datetime_millis, local_reading, naive_datetime_fields, parse_naive_datetime, regex_captures, Pattern};
use crate::text::{dec, push_char, push_dec, push_str};
use vstd::prelude::*;

verus! {

/// A logcat line.
pub struct LogcatLogLine {
    /// The line as read.
    pub raw_line: String,
    /// Milliseconds since the Unix epoch.
    pub timestamp_ms: i64,
    /// Everything after the timestamp.
    pub message_text: String,
    /// 1-based line number in the file.
    pub line_number: usize,
}

/// A year as `{}` writes it.
pub open spec fn year_text(year: i32) -> Seq<char> {
    if year < 0 {
        seq!['-'] + dec((-year) as nat)
    } else {
        dec(year as nat)
    }
}

/// The calendar fields and the message of a logcat line in `year`: the
/// timestamp's month, day and time completed with the year.
pub open spec fn logcat_fields(raw: Seq<char>, year: i32) -> Option<((i32, u32, u32, u32, u32, u32, u32), Seq<char>)> {
    match regex_captures(LOGCAT_TIMESTAMP@, raw) {
        Some(Some(g)) => if g.len() > 2 && g[1] is Some && g[2] is Some {
            match naive_datetime_fields(year_text(year) + seq!['-'] + (g[1]->0), DASH_MILLIS_FORMAT@) {
                Some(f) => Some((f, g[2]->0)),
                None => None,
            }
        } else {
            None
        },
        _ => None,
    }
}

/// The calendar fields and message of a logcat line, given the compiled
/// logcat pattern.
pub fn locate_logcat(p: &Pattern, raw: &str, year: i32) -> (r: Option<((i32, u32, u32, u32, u32, u32, u32), String)>)
    requires
        p@ == LOGCAT_TIMESTAMP@,
    ensures
        match logcat_fields(raw@, year) {
            Some((f, m)) => r matches Some((f2, m2)) && f2 == f && m2@ == m,
            None => r is None,
        },
{
    let g = match p.captures(raw) {
        Some(Some(g)) => g,
        _ => return None,
    };
    if g.len() <= 2 {
        return None;
    }
    match (&g[1], &g[2]) {
        (Some(stamp), Some(message)) => {
            let mut text = String::new();
            if year < 0 {
                push_char(&mut text, '-');
                let magnitude: u64 = if year == i32::MIN { 2147483648 } else { (-year) as u64 };
                push_dec(&mut text, magnitude);
            } else {
                push_dec(&mut text, year as u64);
            }
            push_char(&mut text, '-');
            push_str(&mut text, stamp.as_str());
            assert(text@ =~= year_text(year) + seq!['-'] + stamp@);
            match parse_naive_datetime(text.as_str(), DASH_MILLIS_FORMAT) {
                Some(f) => Some((f, message.clone())),
                None => None,
            }
        },
        _ => None,
    }
}

/// Parse a single logcat line in `year`; `None` when it is not a logcat
/// line (or its local time does not exist in the machine's time zone).
pub fn parse_logcat_line(raw: String, line_number: usize, year: i32) -> (r: Option<LogcatLogLine>)
    ensures
        logcat_fields(raw@, year) is None ==> r is None,
        r matches Some(l) ==> {
            &&& logcat_fields(raw@, year) is Some
            &&& l.raw_line@ == raw@
            &&& l.message_text@ == (logcat_fields(raw@, year)->0).1
            &&& l.line_number == line_number
            &&& local_reading((logcat_fields(raw@, year)->0).0, l.timestamp_ms)
        },
{
    let p = match Pattern::compile(LOGCAT_TIMESTAMP) {
        Some(p) => p,
        None => return None,
    };
    match locate_logcat(&p, raw.as_str(), year) {
        Some((fields, message)) => match local_datetime_millis(fields) {
            Some(ms) => Some(LogcatLogLine { raw_line: raw, timestamp_ms: ms, message_text: message, line_number }),
            None => None,
        },
        None => None,
    }
}

} // verus!
