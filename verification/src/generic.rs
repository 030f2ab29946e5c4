//! The catch-all text format: a line is kept when it starts with one of the
//! timestamp forms that common tools write (ISO 8601, syslog, logcat,
//! bracketed, slash-separated, time of day only, ...). The first form whose
//! pattern matches decides; the rest of the line is the message.

use crate::chars::{chars_range, str_chars, string_from_chars};
use crate::pattern::{
    groups_view, local_datetime_millis, local_reading, naive_datetime_fields, parse_naive_datetime,
    parse_rfc3339_millis, regex_captures, regex_compiles, rfc3339_millis, Pattern,
};
use crate::text::{push_char, push_str, str_trim_start, trim_start};
use vstd::prelude::*;

verus! {

/// `YYYY/MM/DD HH:MM:SS[.f]`.
pub const SLASH_TIMESTAMP: &'static str = "^(\\d{4}/\\d{2}/\\d{2}\\s+\\d{2}:\\d{2}:\\d{2}(?:\\.\\d+)?)";

/// `YYYY-MM-DD-HH:MM:SS[.mmm]`.
pub const HYPHENATED_TIMESTAMP: &'static str = "^(\\d{4}-\\d{2}-\\d{2}-\\d{2}:\\d{2}:\\d{2}(?:\\.\\d{3})?)";

/// ISO 8601: `YYYY-MM-DD[T ]HH:MM:SS[.mmm][Z|+HH:MM|+HHMM]`.
pub const ISO_TIMESTAMP: &'static str = "^(\\d{4}-\\d{2}-\\d{2}[T\\s]\\d{2}:\\d{2}:\\d{2}(?:\\.\\d{3})?(?:Z|[+-]\\d{2}:?\\d{2})?)";

/// `[YYYY-MM-DD HH:MM:SS[.mmm]]`.
pub const BRACKETED_TIMESTAMP: &'static str = "^\\[(\\d{4}-\\d{2}-\\d{2}\\s+\\d{2}:\\d{2}:\\d{2}(?:\\.\\d{3})?)\\]";

/// `[Www Mmm D HH:MM:SS YYYY]`, as `ctime` writes it.
pub const BRACKETED_CTIME_TIMESTAMP: &'static str = "^\\[([A-Z][a-z]{2}\\s+[A-Z][a-z]{2}\\s+\\d{1,2}\\s+\\d{2}:\\d{2}:\\d{2}\\s+\\d{4})\\]";

/// `MM-DD HH:MM:SS.mmm`, as logcat writes it.
pub const LOGCAT_TIMESTAMP_GENERIC: &'static str = "^(\\d{2}-\\d{2}\\s+\\d{2}:\\d{2}:\\d{2}\\.\\d{3})";

/// `Mmm D HH:MM:SS[.mmm]`, as syslog writes it.
pub const SYSLOG_TIMESTAMP: &'static str = "^([A-Z][a-z]{2}\\s+\\d{1,2}\\s+\\d{2}:\\d{2}:\\d{2}(?:\\.\\d{3})?)";

/// `HH:MM:SS[.f]`.
pub const TIME_ONLY_TIMESTAMP: &'static str = "^(\\d{2}:\\d{2}:\\d{2}(?:\\.\\d+)?)";

/// How many timestamp forms are tried.
pub const GENERIC_FORMS: usize = 8;

pub const SLASH_FRACTION_FORMAT: &'static str = "%Y/%m/%d %H:%M:%S%.f";
pub const SLASH_FORMAT: &'static str = "%Y/%m/%d %H:%M:%S";
pub const DASH_FRACTION_FORMAT: &'static str = "%Y-%m-%d %H:%M:%S%.f";
pub const DASH_MILLIS_FORMAT: &'static str = "%Y-%m-%d %H:%M:%S%.3f";
pub const DASH_FORMAT: &'static str = "%Y-%m-%d %H:%M:%S";
pub const CTIME_FORMAT: &'static str = "%a %b %e %H:%M:%S %Y";
pub const SYSLOG_MILLIS_FORMAT: &'static str = "%Y %b %d %H:%M:%S%.3f";
pub const SYSLOG_FORMAT: &'static str = "%Y %b %d %H:%M:%S";

/// The pattern of form `k`, in the order in which the forms are tried.
pub open spec fn generic_pattern(k: nat) -> Seq<char> {
    if k == 0 {
        SLASH_TIMESTAMP@
    } else if k == 1 {
        HYPHENATED_TIMESTAMP@
    } else if k == 2 {
        ISO_TIMESTAMP@
    } else if k == 3 {
        BRACKETED_TIMESTAMP@
    } else if k == 4 {
        BRACKETED_CTIME_TIMESTAMP@
    } else if k == 5 {
        LOGCAT_TIMESTAMP_GENERIC@
    } else if k == 6 {
        SYSLOG_TIMESTAMP@
    } else {
        TIME_ONLY_TIMESTAMP@
    }
}

/// Every form's pattern compiles.
pub open spec fn generic_patterns_compile() -> bool {
    forall|k: nat| k < GENERIC_FORMS ==> #[trigger] regex_compiles(generic_pattern(k))
}

/// The time a timestamp denotes: calendar fields in the local time zone,
/// or an instant (milliseconds since the Unix epoch) when the text carries
/// its own offset.
#[derive(Clone, Copy, Debug)]
pub enum StampTime {
    Local((i32, u32, u32, u32, u32, u32, u32)),
    Instant(i64),
}

/// A timestamp found at the start of a line: its time, and how many
/// characters the matched text covers.
#[derive(Clone, Copy, Debug)]
pub struct GenericStamp {
    pub time: StampTime,
    pub consumed: usize,
}

/// The first of two calendar formats that reads `text`.
pub open spec fn read_calendar(text: Seq<char>, first: Seq<char>, second: Option<Seq<char>>) -> Option<StampTime> {
    match naive_datetime_fields(text, first) {
        Some(f) => Some(StampTime::Local(f)),
        None => match second {
            Some(fmt) => match naive_datetime_fields(text, fmt) {
                Some(f) => Some(StampTime::Local(f)),
                None => None,
            },
            None => None,
        },
    }
}

/// `s` with every space replaced by `T`.
pub open spec fn spaces_to_t(s: Seq<char>) -> Seq<char> {
    s.map_values(|c: char| if c == ' ' { 'T' } else { c })
}

/// The last index before `i` holding `a` or `b`.
pub open spec fn last_of_before(s: Seq<char>, a: char, b: char, i: int) -> Option<int>
    decreases i,
{
    if i <= 0 || i > s.len() {
        None
    } else if s[i - 1] == a || s[i - 1] == b {
        Some(i - 1)
    } else {
        last_of_before(s, a, b, i - 1)
    }
}

/// An ISO timestamp in RFC 3339 form: the date and time joined by `T`, and
/// an offset written without a colon (`+HHMM`) given one (`+HH:MM`).
pub open spec fn iso_normalized(t: Seq<char>) -> Seq<char> {
    match last_of_before(t, '+', '-', t.len() as int) {
        Some(p) => {
            let tz = t.skip(p);
            if tz.len() == 5 && !tz.contains(':') {
                spaces_to_t(t.take(p)) + tz.take(3) + seq![':'] + tz.skip(3)
            } else {
                spaces_to_t(t)
            }
        },
        None => spaces_to_t(t),
    }
}

/// The time that form `k` reads from its captured timestamp text `t`.
pub open spec fn form_time(k: nat, t: Seq<char>) -> Option<StampTime> {
    if k == 0 {
        read_calendar(t, SLASH_FRACTION_FORMAT@, Some(SLASH_FORMAT@))
    } else if k == 1 {
        if t.len() >= 11 {
            read_calendar(
                t.take(10) + seq![' '] + t.skip(11),
                DASH_FRACTION_FORMAT@,
                Some(DASH_FORMAT@),
            )
        } else {
            None
        }
    } else if k == 2 {
        match rfc3339_millis(iso_normalized(t)) {
            Some(ms) => Some(StampTime::Instant(ms)),
            None => read_calendar(t, DASH_MILLIS_FORMAT@, Some(DASH_FORMAT@)),
        }
    } else if k == 3 {
        read_calendar(t, DASH_MILLIS_FORMAT@, Some(DASH_FORMAT@))
    } else if k == 4 {
        read_calendar(t, CTIME_FORMAT@, None)
    } else if k == 5 {
        read_calendar("1970-"@ + t, DASH_MILLIS_FORMAT@, None)
    } else if k == 6 {
        read_calendar("1970 "@ + t, SYSLOG_MILLIS_FORMAT@, Some(SYSLOG_FORMAT@))
    } else {
        read_calendar("1970-01-01 "@ + t, DASH_FRACTION_FORMAT@, Some(DASH_FORMAT@))
    }
}

/// The stamp that form `k` reads from its capture groups: group 0 is the
/// whole match, group 1 the timestamp text.
pub open spec fn stamp_with(k: nat, g: Seq<Option<Seq<char>>>) -> Option<GenericStamp> {
    if g.len() > 1 && g[0] is Some && g[1] is Some {
        match form_time(k, g[1]->0) {
            Some(t) => Some(GenericStamp { time: t, consumed: (g[0]->0).len() as usize }),
            None => None,
        }
    } else {
        None
    }
}

/// The capture groups of form `k` on `raw`, when its pattern matches.
pub open spec fn form_groups(k: nat, raw: Seq<char>) -> Option<Seq<Option<Seq<char>>>> {
    match regex_captures(generic_pattern(k), raw) {
        Some(Some(g)) => Some(g),
        _ => None,
    }
}

/// The stamp of `raw` from form `k` on: the first form whose pattern
/// matches decides, and a matching form whose text does not read as a
/// time gives no stamp.
pub open spec fn stamp_from(raw: Seq<char>, k: nat) -> Option<GenericStamp>
    decreases GENERIC_FORMS - k,
{
    if k >= GENERIC_FORMS {
        None
    } else {
        match form_groups(k, raw) {
            Some(g) => stamp_with(k, g),
            None => stamp_from(raw, k + 1),
        }
    }
}

/// The timestamp at the start of `raw`, if any.
pub open spec fn generic_stamp(raw: Seq<char>) -> Option<GenericStamp> {
    stamp_from(raw, 0)
}

/// The message of a line whose timestamp covers `consumed` characters: the
/// rest of the line without leading whitespace, or the whole line when
/// nothing is left.
pub open spec fn generic_message(raw: Seq<char>, consumed: nat) -> Seq<char> {
    let rest = if consumed <= raw.len() { trim_start(raw.skip(consumed as int)) } else { Seq::empty() };
    if rest.len() == 0 { raw } else { rest }
}

/// A line of the catch-all format.
pub struct GenericLogLine {
    /// The line as read.
    pub raw_line: String,
    /// Milliseconds since the Unix epoch.
    pub timestamp_ms: i64,
    /// The line after its timestamp.
    pub message_text: String,
    /// 1-based line number in the file.
    pub line_number: usize,
}

/// `s` with every space replaced by `T`.
fn replace_spaces(v: &[char]) -> (r: Vec<char>)
    ensures
        r@ == spaces_to_t(v@),
{
    let mut r: Vec<char> = Vec::new();
    let mut i: usize = 0;
    while i < v.len()
        invariant
            i <= v@.len(),
            r@ == spaces_to_t(v@.take(i as int)),
        decreases v.len() - i,
    {
        let c = v[i];
        r.push(if c == ' ' { 'T' } else { c });
        i += 1;
        assert(spaces_to_t(v@.take(i as int)) =~= spaces_to_t(v@.take(i - 1)).push(
            if c == ' ' { 'T' } else { c },
        ));
    }
    assert(v@.take(v@.len() as int) =~= v@);
    r
}

/// The last index of `v` holding `a` or `b`.
fn rfind_either(v: &[char], a: char, b: char) -> (r: Option<usize>)
    ensures
        r matches Some(i) ==> i < v@.len() && last_of_before(v@, a, b, v@.len() as int) == Some(
            i as int,
        ),
        r is None ==> last_of_before(v@, a, b, v@.len() as int) is None,
{
    let mut i: usize = v.len();
    while i > 0
        invariant
            i <= v@.len(),
            last_of_before(v@, a, b, v@.len() as int) == last_of_before(v@, a, b, i as int),
        decreases i,
    {
        if v[i - 1] == a || v[i - 1] == b {
            return Some(i - 1);
        }
        i -= 1;
    }
    None
}

/// Whether `v` holds `c`.
fn contains_char(v: &[char], c: char) -> (r: bool)
    ensures
        r == v@.contains(c),
{
    let mut i: usize = 0;
    while i < v.len()
        invariant
            i <= v@.len(),
            forall|k: int| 0 <= k < i ==> v@[k] != c,
        decreases v.len() - i,
    {
        if v[i] == c {
            assert(v@[i as int] == c);
            return true;
        }
        i += 1;
    }
    false
}

/// The ISO timestamp in RFC 3339 form.
fn normalize_iso(t: &str) -> (r: String)
    ensures
        r@ == iso_normalized(t@),
{
    let v = str_chars(t);
    match rfind_either(v.as_slice(), '+', '-') {
        Some(p) => {
            let tz = chars_range(v.as_slice(), p, v.len());
            assert(tz@ == t@.skip(p as int));
            if tz.len() == 5 && !contains_char(tz.as_slice(), ':') {
                let head = replace_spaces(chars_range(v.as_slice(), 0, p).as_slice());
                let mut r = string_from_chars(head.as_slice());
                crate::chars::push_chars(&mut r, chars_range(tz.as_slice(), 0, 3).as_slice());
                push_char(&mut r, ':');
                crate::chars::push_chars(&mut r, chars_range(tz.as_slice(), 3, 5).as_slice());
                assert(t@.take(p as int) =~= v@.subrange(0, p as int));
                assert(tz@.take(3) =~= tz@.subrange(0, 3));
                assert(tz@.skip(3) =~= tz@.subrange(3, 5));
                r
            } else {
                string_from_chars(replace_spaces(v.as_slice()).as_slice())
            }
        },
        None => string_from_chars(replace_spaces(v.as_slice()).as_slice()),
    }
}

/// Reads `text` with the first calendar format, else with the second.
fn read_calendar_exec(text: &str, first: &str, second: Option<&str>) -> (r: Option<StampTime>)
    ensures
        r == read_calendar(
            text@,
            first@,
            match second {
                Some(s) => Some(s@),
                None => None,
            },
        ),
{
    match parse_naive_datetime(text, first) {
        Some(f) => Some(StampTime::Local(f)),
        None => match second {
            Some(fmt) => match parse_naive_datetime(text, fmt) {
                Some(f) => Some(StampTime::Local(f)),
                None => None,
            },
            None => None,
        },
    }
}

/// `prefix` followed by `t`.
fn prefixed(prefix: &str, t: &str) -> (r: String)
    ensures
        r@ == prefix@ + t@,
{
    let mut r = String::new();
    push_str(&mut r, prefix);
    push_str(&mut r, t);
    r
}

/// The time that form `k` reads from its timestamp text.
fn form_time_exec(k: usize, t: &str) -> (r: Option<StampTime>)
    requires
        k < GENERIC_FORMS,
    ensures
        r == form_time(k as nat, t@),
{
    if k == 0 {
        read_calendar_exec(t, SLASH_FRACTION_FORMAT, Some(SLASH_FORMAT))
    } else if k == 1 {
        let v = str_chars(t);
        if v.len() >= 11 {
            let mut s = string_from_chars(chars_range(v.as_slice(), 0, 10).as_slice());
            push_char(&mut s, ' ');
            crate::chars::push_chars(&mut s, chars_range(v.as_slice(), 11, v.len()).as_slice());
            assert(s@ =~= t@.take(10) + seq![' '] + t@.skip(11));
            read_calendar_exec(s.as_str(), DASH_FRACTION_FORMAT, Some(DASH_FORMAT))
        } else {
            None
        }
    } else if k == 2 {
        let normalized = normalize_iso(t);
        match parse_rfc3339_millis(normalized.as_str()) {
            Some(ms) => Some(StampTime::Instant(ms)),
            None => read_calendar_exec(t, DASH_MILLIS_FORMAT, Some(DASH_FORMAT)),
        }
    } else if k == 3 {
        read_calendar_exec(t, DASH_MILLIS_FORMAT, Some(DASH_FORMAT))
    } else if k == 4 {
        read_calendar_exec(t, CTIME_FORMAT, None)
    } else if k == 5 {
        let s = prefixed("1970-", t);
        read_calendar_exec(s.as_str(), DASH_MILLIS_FORMAT, None)
    } else if k == 6 {
        let s = prefixed("1970 ", t);
        read_calendar_exec(s.as_str(), SYSLOG_MILLIS_FORMAT, Some(SYSLOG_FORMAT))
    } else {
        let s = prefixed("1970-01-01 ", t);
        read_calendar_exec(s.as_str(), DASH_FRACTION_FORMAT, Some(DASH_FORMAT))
    }
}

/// The stamp that form `k` reads from its capture groups.
fn stamp_with_exec(k: usize, g: &Vec<Option<String>>) -> (r: Option<GenericStamp>)
    requires
        k < GENERIC_FORMS,
    ensures
        r == stamp_with(k as nat, groups_view(*g)),
{
    if g.len() > 1 {
        match (&g[0], &g[1]) {
            (Some(whole), Some(t)) => {
                match form_time_exec(k, t.as_str()) {
                    Some(time) => {
                        let consumed = str_chars(whole.as_str()).len();
                        Some(GenericStamp { time, consumed })
                    },
                    None => None,
                }
            },
            _ => None,
        }
    } else {
        None
    }
}

/// Builds the line once its timestamp has been resolved to milliseconds;
/// without a timestamp the line is dropped.
pub fn build_generic_line(
    raw: String,
    line_number: usize,
    consumed: usize,
    timestamp_ms: Option<i64>,
) -> (r: Option<GenericLogLine>)
    ensures
        r is Some == timestamp_ms is Some,
        r matches Some(l) ==> {
            &&& l.raw_line@ == raw@
            &&& l.timestamp_ms == timestamp_ms->0
            &&& l.message_text@ == generic_message(raw@, consumed as nat)
            &&& l.line_number == line_number
        },
{
    let v = str_chars(raw.as_str());
    let rest: String = if consumed <= v.len() {
        let tail = string_from_chars(chars_range(v.as_slice(), consumed, v.len()).as_slice());
        assert(tail@ =~= raw@.skip(consumed as int));
        let trimmed = str_trim_start(tail.as_str());
        trimmed.to_string()
    } else {
        String::new()
    };
    let message = if str_chars(rest.as_str()).len() == 0 {
        raw.clone()
    } else {
        rest
    };
    match timestamp_ms {
        Some(ts) => Some(GenericLogLine { raw_line: raw, timestamp_ms: ts, message_text: message, line_number }),
        None => None,
    }
}

/// The compiled timestamp patterns of the catch-all format.
pub struct GenericLineParser {
    patterns: Vec<Pattern>,
}

impl GenericLineParser {
    /// Pattern `k` is form `k`'s.
    #[verifier::type_invariant]
    spec fn holds_forms(&self) -> bool {
        &&& self.patterns@.len() == GENERIC_FORMS
        &&& forall|k: int| 0 <= k < GENERIC_FORMS ==> #[trigger] self.patterns@[k]@ == generic_pattern(k as nat)
    }

    /// Compiles the patterns of all forms; `None` when one does not compile.
    pub fn new() -> (r: Option<Self>)
        ensures
            r is Some == generic_patterns_compile(),
    {
        let mut patterns: Vec<Pattern> = Vec::new();
        let mut k: usize = 0;
        while k < GENERIC_FORMS
            invariant
                k <= GENERIC_FORMS,
                patterns@.len() == k,
                forall|j: int| 0 <= j < k ==> #[trigger] patterns@[j]@ == generic_pattern(j as nat),
                forall|j: nat| j < k ==> #[trigger] regex_compiles(generic_pattern(j)),
            decreases GENERIC_FORMS - k,
        {
            let source = if k == 0 {
                SLASH_TIMESTAMP
            } else if k == 1 {
                HYPHENATED_TIMESTAMP
            } else if k == 2 {
                ISO_TIMESTAMP
            } else if k == 3 {
                BRACKETED_TIMESTAMP
            } else if k == 4 {
                BRACKETED_CTIME_TIMESTAMP
            } else if k == 5 {
                LOGCAT_TIMESTAMP_GENERIC
            } else if k == 6 {
                SYSLOG_TIMESTAMP
            } else {
                TIME_ONLY_TIMESTAMP
            };
            assert(source@ == generic_pattern(k as nat));
            match Pattern::compile(source) {
                Some(p) => patterns.push(p),
                None => {
                    assert(!regex_compiles(generic_pattern(k as nat)));
                    return None;
                },
            }
            k += 1;
        }
        Some(GenericLineParser { patterns })
    }

    /// The timestamp at the start of `raw`, if any.
    pub fn locate(&self, raw: &str) -> (r: Option<GenericStamp>)
        ensures
            r == generic_stamp(raw@),
    {
        proof {
            use_type_invariant(self);
        }
        let mut k: usize = 0;
        while k < GENERIC_FORMS
            invariant
                k <= GENERIC_FORMS,
                self.patterns@.len() == GENERIC_FORMS,
                forall|j: int| 0 <= j < GENERIC_FORMS ==> #[trigger] self.patterns@[j]@ == generic_pattern(j as nat),
                stamp_from(raw@, 0) == stamp_from(raw@, k as nat),
            decreases GENERIC_FORMS - k,
        {
            assert(self.patterns@[k as int]@ == generic_pattern(k as nat));
            match self.patterns[k].captures(raw) {
                Some(Some(g)) => {
                    return stamp_with_exec(k, &g);
                },
                _ => {},
            }
            k += 1;
        }
        None
    }

    /// Parses one line; `None` when it does not start with a timestamp (or
    /// its local time does not exist in the machine's time zone).
    pub fn parse(&self, raw: String, line_number: usize) -> (r: Option<GenericLogLine>)
        ensures
            generic_stamp(raw@) is None ==> r is None,
            r matches Some(l) ==> {
                &&& generic_stamp(raw@) is Some
                &&& l.raw_line@ == raw@
                &&& l.message_text@ == generic_message(raw@, (generic_stamp(raw@)->0).consumed as nat)
                &&& l.line_number == line_number
            },
            generic_stamp(raw@) matches Some(s) ==> (s.time matches StampTime::Instant(ms) ==> r
                matches Some(l) && l.timestamp_ms == ms),
            generic_stamp(raw@) matches Some(s) ==> (s.time matches StampTime::Local(f) ==> (r
                matches Some(l) ==> local_reading(f, l.timestamp_ms))),
    {
        match self.locate(raw.as_str()) {
            Some(stamp) => {
                let ms = match stamp.time {
                    StampTime::Local(f) => local_datetime_millis(f),
                    StampTime::Instant(ms) => Some(ms),
                };
                build_generic_line(raw, line_number, stamp.consumed, ms)
            },
            None => None,
        }
    }
}

/// Parse a single line and return the concrete `GenericLogLine` if it has a
/// recognised timestamp.
pub fn parse_generic_line(raw: String, line_number: usize) -> (r: Option<GenericLogLine>)
    ensures
        generic_stamp(raw@) is None ==> r is None,
        r matches Some(l) ==> {
            &&& generic_stamp(raw@) is Some
            &&& l.raw_line@ == raw@
            &&& l.message_text@ == generic_message(raw@, (generic_stamp(raw@)->0).consumed as nat)
            &&& l.line_number == line_number
        },
        generic_patterns_compile() ==> (generic_stamp(raw@) matches Some(s) ==> (
        s.time matches StampTime::Instant(ms) ==> r matches Some(l) && l.timestamp_ms == ms)),
        generic_stamp(raw@) matches Some(s) ==> (s.time matches StampTime::Local(f) ==> (r
            matches Some(l) ==> local_reading(f, l.timestamp_ms))),
{
    match GenericLineParser::new() {
        Some(p) => p.parse(raw, line_number),
        None => None,
    }
}

} // verus!
