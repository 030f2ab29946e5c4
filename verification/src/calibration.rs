//! Reading the target time that the user types to calibrate a log's clock.

use crate::pattern::{local_datetime_millis, local_reading, naive_datetime_fields, parse_naive_datetime};
use crate::text::{push_str, str_trim, trimmed};
use vstd::prelude::*;

verus! {

/// The calibration time formats, tried in order: with milliseconds, with
/// seconds, and a date alone (at midnight).
pub open spec fn calibration_fields(text: Seq<char>) -> Option<(i32, u32, u32, u32, u32, u32, u32)> {
    let s = trimmed(text);
    match naive_datetime_fields(s, "%Y-%m-%d %H:%M:%S%.3f"@) {
        Some(f) => Some(f),
        None => match naive_datetime_fields(s, "%Y-%m-%d %H:%M:%S"@) {
            Some(f) => Some(f),
            None => naive_datetime_fields(s + " 00:00:00"@, "%Y-%m-%d %H:%M:%S"@),
        },
    }
}

/// Reads a calibration target time (`YYYY-MM-DD HH:MM:SS.mmm`, seconds
/// without fraction, or a date alone) in the local time zone, as
/// milliseconds since the Unix epoch.
pub fn parse_calibration_time(text: &str) -> (r: Result<i64, String>)
    ensures
        calibration_fields(text@) is None <==> (r matches Err(e) && e@
            == "Invalid format. Use: YYYY-MM-DD HH:MM:SS.mmm"@),
        calibration_fields(text@) is Some ==> (r matches Err(e) ==> e@ == "Ambiguous or invalid local time"@),
        r matches Ok(ms) ==> calibration_fields(text@) matches Some(f) && local_reading(f, ms),
{
    proof {
        reveal_strlit("Invalid format. Use: YYYY-MM-DD HH:MM:SS.mmm");
        reveal_strlit("Ambiguous or invalid local time");
        assert("Ambiguous or invalid local time"@.len() != "Invalid format. Use: YYYY-MM-DD HH:MM:SS.mmm"@.len());
    }
    let s = str_trim(text);
    let mut fields = parse_naive_datetime(s, "%Y-%m-%d %H:%M:%S%.3f");
    if fields.is_none() {
        fields = parse_naive_datetime(s, "%Y-%m-%d %H:%M:%S");
    }
    if fields.is_none() {
        let mut with_midnight = s.to_owned();
        push_str(&mut with_midnight, " 00:00:00");
        fields = parse_naive_datetime(with_midnight.as_str(), "%Y-%m-%d %H:%M:%S");
    }
    assert(fields == calibration_fields(text@));
    match fields {
        Some(f) => match local_datetime_millis(f) {
            Some(ms) => Ok(ms),
            None => Err("Ambiguous or invalid local time".to_owned()),
        },
        None => Err("Invalid format. Use: YYYY-MM-DD HH:MM:SS.mmm".to_owned()),
    }
}

} // verus!
