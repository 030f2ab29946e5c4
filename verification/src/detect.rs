//! Line-format detection: dmesg and logcat line headers, and the Android
//! bugreport header (dumpstate time and uptime) that fixes the year and the
//! boot time of a bugreport.

use crate::chars::{split_lines, str_chars, string_from_chars, text_lines};
use crate::pattern::{
    local_datetime_millis, local_reading, regex_compiles, naive_datetime_fields, parse_i64, parse_naive_datetime, parsed_i64,
    pattern_matches, regex_captures, Pattern,
};
use crate::text::{utf8_lossy, utf8_lossy_string};
use vstd::prelude::*;
use vstd::string::*;

verus! {

/// `[SECONDS.MICROSECONDS] message`: any number of seconds, exactly six
/// fractional digits.
pub const DMESG_TIMESTAMP: &'static str = "^\\[\\s*(\\d+)\\.(\\d{6})\\] (.*)$";

/// `MM-DD HH:MM:SS.mmm message`.
pub const LOGCAT_TIMESTAMP: &'static str = "^(\\d{2}-\\d{2}\\s+\\d{2}:\\d{2}:\\d{2}\\.\\d{3})\\s+(.*)$";

/// `== dumpstate: YYYY-MM-DD HH:MM:SS`.
pub const DUMPSTATE_FULL: &'static str = "==\\s*dumpstate:\\s*(\\d{4}-\\d{2}-\\d{2}\\s+\\d{2}:\\d{2}:\\d{2})";

/// `Uptime: up W weeks, D days, H hours, M minutes`.
pub const UPTIME_LINE: &'static str = "^Uptime: up (\\d+) weeks?, (\\d+) days?, (\\d+) hours?, (\\d+) minutes?";

/// The calendar format of the dumpstate time.
pub const DUMPSTATE_TIME_FORMAT: &'static str = "%Y-%m-%d %H:%M:%S";

/// How many leading lines a sniffer or the header scan looks at.
pub const SCAN_LINES: usize = 100;

/// How many matching lines make a sample count as a format.
pub const MIN_MATCHING_LINES: usize = 10;

/// Returns `true` when the line starts with a dmesg-style `[SSSSSS.UUUUUU]`
/// header.
pub fn is_dmesg_line(line: &str) -> (r: bool)
    ensures
        r == pattern_matches(DMESG_TIMESTAMP@, line@),
{
    match Pattern::compile(DMESG_TIMESTAMP) {
        Some(p) => p.is_match(line),
        None => false,
    }
}

/// Check if a line looks like a logcat line (starts with MM-DD
/// HH:MM:SS.mmm).
pub fn is_logcat_line(line: &str) -> (r: bool)
    ensures
        r == pattern_matches(LOGCAT_TIMESTAMP@, line@),
{
    match Pattern::compile(LOGCAT_TIMESTAMP) {
        Some(p) => p.is_match(line),
        None => false,
    }
}

/// How many of `lines` the pattern matches.
pub open spec fn count_matches(pattern: Seq<char>, lines: Seq<Seq<char>>) -> nat
    decreases lines.len(),
{
    if lines.len() == 0 {
        0
    } else {
        count_matches(pattern, lines.drop_last()) + if pattern_matches(pattern, lines.last()) {
            1nat
        } else {
            0nat
        }
    }
}

/// The first `SCAN_LINES` lines of a text.
pub open spec fn scanned_lines(text: Seq<char>) -> Seq<Seq<char>> {
    let l = text_lines(text);
    if l.len() > SCAN_LINES { l.take(SCAN_LINES as int) } else { l }
}

/// The non-empty lines among `lines`, in order.
pub open spec fn non_empty_lines(lines: Seq<Seq<char>>) -> Seq<Seq<char>>
    decreases lines.len(),
{
    if lines.len() == 0 {
        Seq::empty()
    } else {
        let r = non_empty_lines(lines.drop_last());
        if lines.last().len() > 0 { r.push(lines.last()) } else { r }
    }
}

/// The first `SCAN_LINES` non-empty lines of a text.
pub open spec fn sniffed_lines(text: Seq<char>) -> Seq<Seq<char>> {
    let l = non_empty_lines(text_lines(text));
    if l.len() > SCAN_LINES { l.take(SCAN_LINES as int) } else { l }
}

/// A sample (decoded leniently from bytes) is in the format of `pattern`
/// when at least ten of its first hundred non-empty lines match.
pub open spec fn sample_looks_like(pattern: Seq<char>, sample: Seq<u8>) -> bool {
    count_matches(pattern, sniffed_lines(utf8_lossy(sample))) >= MIN_MATCHING_LINES
}

/// The non-empty lines of a prefix of `lines` begin those of `lines`.
proof fn lemma_non_empty_prefix(lines: Seq<Seq<char>>, i: int)
    requires
        0 <= i <= lines.len(),
    ensures
        non_empty_lines(lines.take(i)).len() <= non_empty_lines(lines).len(),
        non_empty_lines(lines).take(non_empty_lines(lines.take(i)).len() as int) == non_empty_lines(lines.take(i)),
    decreases lines.len(),
{
    if i == lines.len() {
        assert(lines.take(i) =~= lines);
        assert(non_empty_lines(lines).take(non_empty_lines(lines).len() as int) =~= non_empty_lines(lines));
    } else {
        let init = lines.drop_last();
        lemma_non_empty_prefix(init, i);
        assert(init.take(i) =~= lines.take(i));
        let k = non_empty_lines(lines.take(i)).len() as int;
        if lines.last().len() > 0 {
            assert(non_empty_lines(init).push(lines.last()).take(k) =~= non_empty_lines(init).take(k));
        }
    }
}

/// Whether at least ten of the first hundred non-empty lines of `sample`
/// match `pattern`.
pub fn text_looks_like(pattern: &str, sample: &[u8]) -> (r: bool)
    ensures
        r == sample_looks_like(pattern@, sample@),
{
    let text = utf8_lossy_string(sample);
    let chars = str_chars(text.as_str());
    let lines = split_lines(chars.as_slice());
    let ghost ls = lines@.map_values(|l: Vec<char>| l@);
    let ghost sniffed = sniffed_lines(text@);
    assert(text_lines(text@) =~= ls);
    let p = match Pattern::compile(pattern) {
        Some(p) => p,
        None => {
            proof {
                lemma_count_none(pattern@, sniffed);
            }
            return false;
        },
    };
    let n = lines.len();
    let mut count: usize = 0;
    let mut seen: usize = 0;
    let mut i: usize = 0;
    proof {
        assert(ls.take(0) =~= Seq::<Seq<char>>::empty());
    }
    while i < n && seen < SCAN_LINES
        invariant
            n == lines@.len(),
            ls == lines@.map_values(|l: Vec<char>| l@),
            p@ == pattern@,
            i <= n,
            seen <= SCAN_LINES,
            count <= seen,
            seen == non_empty_lines(ls.take(i as int)).len(),
            count == count_matches(pattern@, non_empty_lines(ls.take(i as int))),
        decreases n - i,
    {
        assert(ls.take(i + 1).drop_last() =~= ls.take(i as int));
        assert(ls.take(i + 1).last() == ls[i as int]);
        if lines[i].len() > 0 {
            let line = string_from_chars(lines[i].as_slice());
            let ghost before = non_empty_lines(ls.take(i as int));
            assert(before.push(ls[i as int]).drop_last() =~= before);
            if p.is_match(line.as_str()) {
                count += 1;
            }
            seen += 1;
        }
        i += 1;
    }
    proof {
        if i == n {
            assert(ls.take(i as int) =~= ls);
        } else {
            lemma_non_empty_prefix(ls, i as int);
        }
        assert(sniffed == non_empty_lines(ls.take(i as int)));
    }
    count >= MIN_MATCHING_LINES
}

/// A pattern that does not compile matches nothing.
proof fn lemma_count_none(pattern: Seq<char>, lines: Seq<Seq<char>>)
    requires
        !crate::pattern::regex_compiles(pattern),
    ensures
        count_matches(pattern, lines) == 0,
    decreases lines.len(),
{
    if lines.len() > 0 {
        lemma_count_none(pattern, lines.drop_last());
    }
}

/// Whether a file sample looks like dmesg output.
pub fn looks_like_dmesg(sample: &[u8]) -> (r: bool)
    ensures
        r == sample_looks_like(DMESG_TIMESTAMP@, sample@),
{
    text_looks_like(DMESG_TIMESTAMP, sample)
}

/// Whether a file sample looks like logcat output.
pub fn looks_like_logcat(sample: &[u8]) -> (r: bool)
    ensures
        r == sample_looks_like(LOGCAT_TIMESTAMP@, sample@),
{
    text_looks_like(LOGCAT_TIMESTAMP, sample)
}

/// Calendar fields of the dumpstate time in a header line.
pub open spec fn dumpstate_fields(line: Seq<char>) -> Option<(i32, u32, u32, u32, u32, u32, u32)> {
    match regex_captures(DUMPSTATE_FULL@, line) {
        Some(Some(g)) => if g.len() > 1 && g[1] is Some {
            naive_datetime_fields(g[1]->0, DUMPSTATE_TIME_FORMAT@)
        } else {
            None
        },
        _ => None,
    }
}

/// The line holds a dumpstate time in `year`.
pub open spec fn announces_year(line: Seq<char>, year: i32) -> bool {
    match dumpstate_fields(line) {
        Some(f) => f.0 == year,
        None => false,
    }
}

/// Some scanned line of `content` holds a dumpstate time in `year`.
pub open spec fn header_has_year(content: Seq<char>, year: i32) -> bool {
    exists|i: int| 0 <= i < scanned_lines(content).len() && #[trigger] announces_year(scanned_lines(content)[i], year)
}

/// No scanned line of `content` holds a dumpstate time.
pub open spec fn header_missing(content: Seq<char>) -> bool {
    forall|i: int| 0 <= i < scanned_lines(content).len() ==> #[trigger] dumpstate_fields(scanned_lines(content)[i]) is None
}

/// A captured number, or 0 when it does not parse.
pub open spec fn number_or_zero(g: Option<Seq<char>>) -> i64 {
    match g {
        Some(t) => match parsed_i64(t) {
            Some(v) => v,
            None => 0,
        },
        None => 0,
    }
}

/// The uptime in minutes that an `Uptime:` line announces (weeks, days,
/// hours and minutes, in 64-bit wrapping arithmetic).
pub open spec fn uptime_minutes(line: Seq<char>) -> Option<i64> {
    match regex_captures(UPTIME_LINE@, line) {
        Some(Some(g)) => if g.len() > 4 {
            Some(
                number_or_zero(g[1]).wrapping_mul(10080).wrapping_add(
                    number_or_zero(g[2]).wrapping_mul(1440),
                ).wrapping_add(number_or_zero(g[3]).wrapping_mul(60)).wrapping_add(
                    number_or_zero(g[4]),
                ),
            )
        } else {
            None
        },
        _ => None,
    }
}

fn group_number(g: &Vec<Option<String>>, i: usize) -> (r: i64)
    requires
        i < g@.len(),
    ensures
        r == number_or_zero(crate::pattern::groups_view(*g)[i as int]),
{
    match &g[i] {
        Some(t) => match parse_i64(t.as_str()) {
            Some(v) => v,
            None => 0,
        },
        None => 0,
    }
}

fn read_dumpstate(p: &Pattern, line: &str) -> (r: Option<(i32, u32, u32, u32, u32, u32, u32)>)
    requires
        p@ == DUMPSTATE_FULL@,
    ensures
        r == dumpstate_fields(line@),
{
    match p.captures(line) {
        Some(Some(g)) => {
            if g.len() > 1 {
                match &g[1] {
                    Some(t) => parse_naive_datetime(t.as_str(), DUMPSTATE_TIME_FORMAT),
                    None => None,
                }
            } else {
                None
            }
        },
        _ => None,
    }
}

fn read_uptime(p: &Pattern, line: &str) -> (r: Option<i64>)
    requires
        p@ == UPTIME_LINE@,
    ensures
        r == uptime_minutes(line@),
{
    match p.captures(line) {
        Some(Some(g)) => {
            if g.len() > 4 {
                let weeks = group_number(&g, 1);
                let days = group_number(&g, 2);
                let hours = group_number(&g, 3);
                let minutes = group_number(&g, 4);
                Some(
                    weeks.wrapping_mul(10080).wrapping_add(days.wrapping_mul(1440)).wrapping_add(
                        hours.wrapping_mul(60),
                    ).wrapping_add(minutes),
                )
            } else {
                None
            }
        },
        _ => None,
    }
}

/// The uptime announced by the first of `lines` that has one.
pub open spec fn first_uptime(lines: Seq<Seq<char>>) -> Option<i64>
    decreases lines.len(),
{
    if lines.len() == 0 {
        None
    } else {
        match first_uptime(lines.drop_last()) {
            Some(m) => Some(m),
            None => uptime_minutes(lines.last()),
        }
    }
}

/// The boot time of a device whose dumpstate ran at `dumpstate_ms` after
/// `uptime` minutes up (64-bit wrapping arithmetic); 0 when the uptime is
/// unknown.
pub open spec fn boot_time(dumpstate_ms: i64, uptime: Option<i64>) -> i64 {
    match uptime {
        Some(minutes) => dumpstate_ms.wrapping_sub(minutes.wrapping_mul(60_000)),
        None => 0,
    }
}

/// The boot time from the dumpstate time and the uptime in minutes.
pub fn boot_time_from(dumpstate_ms: i64, uptime: Option<i64>) -> (r: i64)
    ensures
        r == boot_time(dumpstate_ms, uptime),
{
    match uptime {
        Some(minutes) => dumpstate_ms.wrapping_sub(minutes.wrapping_mul(60_000)),
        None => 0,
    }
}

/// Line `i` of `lines` holds the dumpstate time of `year`, `ms` is a local
/// reading of it, and `boot` is the boot time from `ms` and `uptime`.
pub open spec fn header_read_at(lines: Seq<Seq<char>>, i: int, ms: i64, year: i32, boot: i64, uptime: Option<i64>) -> bool {
    &&& 0 <= i < lines.len()
    &&& dumpstate_fields(lines[i]) matches Some(f)
    &&& f.0 == year
    &&& local_reading(f, ms)
    &&& boot == boot_time(ms, uptime)
}

/// Some line of `lines` holds the dumpstate time of `year`, and `boot` is
/// the boot time from a local reading of it and `uptime`.
pub open spec fn header_readable(lines: Seq<Seq<char>>, year: i32, boot: i64, uptime: Option<i64>) -> bool {
    exists|i: int, ms: i64| #[trigger] header_read_at(lines, i, ms, year, boot, uptime)
}

/// Some line of `lines` holds the dumpstate time of `year` and reads in
/// some time zone.
pub open spec fn year_readable(lines: Seq<Seq<char>>, year: i32, uptime: Option<i64>) -> bool {
    exists|b: i64| #[trigger] header_readable(lines, year, b, uptime)
}

/// The uptime that the header scan finds: that of the first scanned line
/// announcing one, when the uptime pattern compiles.
pub open spec fn scanned_uptime(content: Seq<char>) -> Option<i64> {
    if regex_compiles(UPTIME_LINE@) {
        first_uptime(scanned_lines(content))
    } else {
        None
    }
}

proof fn lemma_first_uptime_step(lines: Seq<Seq<char>>, i: int)
    requires
        0 <= i < lines.len(),
    ensures
        first_uptime(lines.take(i + 1)) == match first_uptime(lines.take(i)) {
            Some(m) => Some(m),
            None => uptime_minutes(lines[i]),
        },
{
    assert(lines.take(i + 1).drop_last() =~= lines.take(i));
}

proof fn lemma_first_uptime_settled(lines: Seq<Seq<char>>, i: int)
    requires
        0 <= i <= lines.len(),
        first_uptime(lines.take(i)) is Some,
    ensures
        first_uptime(lines) == first_uptime(lines.take(i)),
    decreases lines.len() - i,
{
    if i < lines.len() {
        lemma_first_uptime_step(lines, i);
        lemma_first_uptime_settled(lines, i + 1);
    } else {
        assert(lines.take(i) =~= lines);
    }
}

proof fn lemma_header_read(lines: Seq<Seq<char>>, i: int, ms: i64, year: i32, boot: i64, uptime: Option<i64>)
    requires
        0 <= i < lines.len(),
        dumpstate_fields(lines[i]) matches Some(f) && f.0 == year && local_reading(f, ms),
        boot == boot_time(ms, uptime),
    ensures
        header_readable(lines, year, boot, uptime),
{
    assert(header_read_at(lines, i, ms, year, boot, uptime));
}

/// Extract year and approximate boot time from the bugreport header.
///
/// Scans the first hundred lines for the `dumpstate:` time and the
/// `Uptime: up …` line. Returns `(year, boot_time_ms)`, the boot time being
/// the dumpstate time (in the local time zone) minus the uptime, or 0 when
/// there is no uptime line. Returns `None` without a dumpstate header.
/// The dumpstate fields of the scanned lines go, in order, to the local
/// time conversion until one converts; whether one does depends on the
/// machine's time zone.
pub fn detect_header_info(content: &str) -> (r: Option<(i32, i64)>)
    ensures
        r is Some ==> header_readable(scanned_lines(content@), (r->0).0, (r->0).1, scanned_uptime(content@)),
        r is Some ==> header_has_year(content@, (r->0).0),
        header_missing(content@) ==> r is None,
        r is Some && (forall|i: int| 0 <= i < scanned_lines(content@).len() ==> #[trigger] uptime_minutes(
            scanned_lines(content@)[i],
        ) is None) ==> (r->0).1 == 0,
{
    let p_dump = Pattern::compile(DUMPSTATE_FULL);
    let p_up = Pattern::compile(UPTIME_LINE);
    let chars = str_chars(content);
    let lines = split_lines(chars.as_slice());
    let ghost ls = lines@.map_values(|l: Vec<char>| l@);
    let limit = if lines.len() > SCAN_LINES { SCAN_LINES } else { lines.len() };
    let ghost scanned = scanned_lines(content@);
    assert(scanned =~= ls.take(limit as int));
    let mut dumpstate: Option<(i32, i64)> = None;
    let ghost mut at: int = 0;
    let mut uptime: Option<i64> = None;
    let mut i: usize = 0;
    proof {
        assert(scanned.take(0) =~= Seq::<Seq<char>>::empty());
    }
    while i < limit
        invariant
            limit <= lines@.len(),
            ls == lines@.map_values(|l: Vec<char>| l@),
            scanned == ls.take(limit as int),
            scanned.len() == limit,
            p_dump matches Some(p) ==> p@ == DUMPSTATE_FULL@,
            p_up matches Some(p) ==> p@ == UPTIME_LINE@,
            p_up is Some == regex_compiles(UPTIME_LINE@),
            i <= limit,
            scanned == scanned_lines(content@),
            dumpstate is Some ==> header_has_year(content@, (dumpstate->0).0),
            dumpstate matches Some((y, ms)) ==> 0 <= at < i && (dumpstate_fields(scanned[at]) matches Some(f)
                && f.0 == y && local_reading(f, ms)),
            (forall|j: int| 0 <= j < i ==> #[trigger] uptime_minutes(scanned[j]) is None) ==> uptime is None,
            p_up is Some ==> uptime == first_uptime(scanned.take(i as int)),
            p_up is None ==> uptime is None,
        ensures
            i == limit || uptime is Some,
        decreases limit - i,
    {
        let line = string_from_chars(lines[i].as_slice());
        assert(line@ == scanned[i as int]);
        if dumpstate.is_none() {
            if let Some(p) = &p_dump {
                if let Some(f) = read_dumpstate(p, line.as_str()) {
                    if let Some(ms) = local_datetime_millis(f) {
                        dumpstate = Some((f.0, ms));
                        proof {
                            at = i as int;
                        }
                        assert(announces_year(scanned[i as int], f.0));
                    }
                }
            }
        }
        proof {
            lemma_first_uptime_step(scanned, i as int);
        }
        if uptime.is_none() {
            if let Some(p) = &p_up {
                uptime = read_uptime(p, line.as_str());
            }
        }
        i += 1;
        if dumpstate.is_some() && uptime.is_some() {
            break;
        }
    }
    proof {
        if dumpstate is Some && header_missing(content@) {
            let k = choose|k: int| 0 <= k < scanned.len() && #[trigger] announces_year(scanned[k], (dumpstate->0).0);
            assert(dumpstate_fields(scanned[k]) is None);
        }
        if uptime is Some {
            lemma_first_uptime_settled(scanned, i as int);
        } else if p_up is Some {
            assert(scanned.take(i as int) =~= scanned);
        }
    }
    let (year, dumpstate_ms) = dumpstate?;
    let boot_time_ms = boot_time_from(dumpstate_ms, uptime);
    proof {
        lemma_header_read(scanned_lines(content@), at, dumpstate_ms, year, boot_time_ms, scanned_uptime(content@));
    }
    Some((year, boot_time_ms))
}

/// Detect the year from bugreport header lines.
/// That is the year of `detect_header_info`: the year of the first
/// dumpstate line whose time converts in the machine's time zone.
pub fn detect_year_from_header(content: &str) -> (r: Option<i32>)
    ensures
        r is Some ==> year_readable(scanned_lines(content@), r->0, scanned_uptime(content@)),
        r is Some ==> header_has_year(content@, r->0),
        header_missing(content@) ==> r is None,
{
    match detect_header_info(content) {
        Some((year, boot)) => {
            assert(header_readable(scanned_lines(content@), year, boot, scanned_uptime(content@)));
            Some(year)
        },
        None => None,
    }
}

/// Whether a file sample starts like an Android bugreport: a dumpstate
/// header with a year.
pub fn looks_like_bugreport(sample: &[u8]) -> (r: bool)
    ensures
        r ==> exists|y: i32| header_has_year(utf8_lossy(sample@), y),
        header_missing(utf8_lossy(sample@)) ==> !r,
{
    let text = utf8_lossy_string(sample);
    match detect_year_from_header(text.as_str()) {
        Some(y) => {
            assert(header_has_year(utf8_lossy(sample@), y));
            true
        },
        None => false,
    }
}

} // verus!
