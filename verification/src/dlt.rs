//! AUTOSAR DLT (Diagnostic Log and Trace) messages: the text shown for a
//! message, and the two clocks a message can be placed on: the storage
//! header's wall-clock time, or the header's time since boot counted from
//! a boot time inferred per (ECU, application).

use crate::chars::{chars_eq, chars_range, find_either, first_of, lemma_first_of_from, str_chars, string_from_chars};
use crate::config::DltTimestampSource;
use crate::pattern::{utc_micros, utc_timestamp_micros};
use crate::text::{
    dec, hex_lower, joined, lemma_joined_step, push_char, push_dec, push_dec_i128, push_dec_u128,
    push_hex_lower, push_str, signed_dec, zero_pad, lemma_dec_is_numeral, lemma_signed_dec_is_numeral,
    signed_numeral_of,
};
use vstd::prelude::*;

verus! {

/// The value of a verbose argument. A boolean is its byte as stored; a
/// floating-point value arrives as the text `{}` writes for it.
pub enum DltValue {
    Bool(u8),
    U8(u8),
    U16(u16),
    U32(u32),
    U64(u64),
    U128(u128),
    I8(i8),
    I16(i16),
    I32(i32),
    I64(i64),
    I128(i128),
    Float(String),
    Str(String),
    Raw(Vec<u8>),
}

/// A verbose argument: an optional name and a value.
pub struct DltArgument {
    pub name: Option<String>,
    pub value: DltValue,
}

/// The payload of a message.
pub enum DltPayload {
    Verbose(Vec<DltArgument>),
    NonVerbose(Vec<u8>),
    ControlMsg(Vec<u8>),
    /// A network trace, by its number of traces.
    NetworkTrace(usize),
}

/// The extended header: message type (as its name), application and
/// context.
pub struct DltExtendedHeader {
    pub message_type: String,
    pub application_id: String,
    pub context_id: String,
}

/// The storage header: when the message was stored, and by which ECU.
pub struct DltStorageHeader {
    pub seconds: u32,
    pub microseconds: u32,
    pub ecu_id: String,
}

/// A DLT message.
pub struct DltRecord {
    pub ecu_id: Option<String>,
    pub session_id: Option<u32>,
    /// Time since boot in units of 0.1 ms.
    pub timestamp: Option<u32>,
    pub extended_header: Option<DltExtendedHeader>,
    pub storage_header: Option<DltStorageHeader>,
    pub payload: DltPayload,
}

/// Bytes as `{:02x?}` writes them: `[0a, ff]`.
pub open spec fn hex_list(b: Seq<u8>) -> Seq<char> {
    seq!['['] + joined(b.map_values(|x: u8| zero_pad(hex_lower(x as nat), 2)), ", "@) + seq![']']
}

/// The text of a value.
pub open spec fn value_text(v: DltValue) -> Seq<char> {
    match v {
        DltValue::Bool(n) => dec(n as nat),
        DltValue::U8(n) => dec(n as nat),
        DltValue::U16(n) => dec(n as nat),
        DltValue::U32(n) => dec(n as nat),
        DltValue::U64(n) => dec(n as nat),
        DltValue::U128(n) => dec(n as nat),
        DltValue::I8(n) => signed_dec(n as int),
        DltValue::I16(n) => signed_dec(n as int),
        DltValue::I32(n) => signed_dec(n as int),
        DltValue::I64(n) => signed_dec(n as int),
        DltValue::I128(n) => signed_dec(n as int),
        DltValue::Float(s) => s@,
        DltValue::Str(s) => s@,
        DltValue::Raw(b) => hex_list(b@),
    }
}

/// Every integer argument prints as the decimal rendering of its value,
/// whatever its width: a `-` before the magnitude when negative, digits
/// without leading zeros otherwise.
pub proof fn lemma_integer_values_print_in_decimal(v: DltValue)
    ensures
        match v {
            DltValue::Bool(n) => signed_numeral_of(value_text(v), n as int),
            DltValue::U8(n) => signed_numeral_of(value_text(v), n as int),
            DltValue::U16(n) => signed_numeral_of(value_text(v), n as int),
            DltValue::U32(n) => signed_numeral_of(value_text(v), n as int),
            DltValue::U64(n) => signed_numeral_of(value_text(v), n as int),
            DltValue::U128(n) => signed_numeral_of(value_text(v), n as int),
            DltValue::I8(n) => signed_numeral_of(value_text(v), n as int),
            DltValue::I16(n) => signed_numeral_of(value_text(v), n as int),
            DltValue::I32(n) => signed_numeral_of(value_text(v), n as int),
            DltValue::I64(n) => signed_numeral_of(value_text(v), n as int),
            DltValue::I128(n) => signed_numeral_of(value_text(v), n as int),
            _ => true,
        },
{
    match v {
        DltValue::Bool(n) => lemma_dec_is_numeral(n as nat),
        DltValue::U8(n) => lemma_dec_is_numeral(n as nat),
        DltValue::U16(n) => lemma_dec_is_numeral(n as nat),
        DltValue::U32(n) => lemma_dec_is_numeral(n as nat),
        DltValue::U64(n) => lemma_dec_is_numeral(n as nat),
        DltValue::U128(n) => lemma_dec_is_numeral(n as nat),
        DltValue::I8(n) => lemma_signed_dec_is_numeral(n as int),
        DltValue::I16(n) => lemma_signed_dec_is_numeral(n as int),
        DltValue::I32(n) => lemma_signed_dec_is_numeral(n as int),
        DltValue::I64(n) => lemma_signed_dec_is_numeral(n as int),
        DltValue::I128(n) => lemma_signed_dec_is_numeral(n as int),
        _ => {},
    }
}

/// The text of an argument: `name: value`, or the value alone.
pub open spec fn argument_text(a: DltArgument) -> Seq<char> {
    match a.name {
        Some(n) => n@ + ": "@ + value_text(a.value),
        None => value_text(a.value),
    }
}

/// The text of a payload.
pub open spec fn payload_text(p: DltPayload) -> Seq<char> {
    match p {
        DltPayload::Verbose(args) => joined(args@.map_values(|a: DltArgument| argument_text(a)), " || "@),
        DltPayload::NonVerbose(b) => hex_list(b@),
        DltPayload::ControlMsg(b) => "ControlMsg: "@ + hex_list(b@),
        DltPayload::NetworkTrace(n) => "NetworkTrace: "@ + dec(n as nat) + " traces"@,
    }
}

/// The message text: `{ecu} {session} {app} {ctx} {type} {payload}`.
pub open spec fn body_text(r: DltRecord) -> Seq<char> {
    let ecu = match r.ecu_id {
        Some(e) => e@,
        None => "UnknownECU"@,
    };
    let session = match r.session_id {
        Some(s) => s,
        None => 0,
    };
    let (mtype, app, ctx) = match r.extended_header {
        Some(h) => (h.message_type@, h.application_id@, h.context_id@),
        None => ("Unknown"@, Seq::<char>::empty(), Seq::<char>::empty()),
    };
    ecu + " "@ + dec(session as nat) + " "@ + app + " "@ + ctx + " "@ + mtype + " "@ + payload_text(r.payload)
}

/// Appends bytes as `{:02x?}` writes them.
fn push_hex_list(s: &mut String, b: &Vec<u8>)
    ensures
        final(s)@ == old(s)@ + hex_list(b@),
{
    let ghost parts = b@.map_values(|x: u8| zero_pad(hex_lower(x as nat), 2));
    let ghost start = old(s)@;
    push_char(s, '[');
    let mut i: usize = 0;
    while i < b.len()
        invariant
            i <= b@.len(),
            parts == b@.map_values(|x: u8| zero_pad(hex_lower(x as nat), 2)),
            s@ == start + seq!['['] + joined(parts.take(i as int), ", "@),
        decreases b.len() - i,
    {
        proof {
            lemma_joined_step(parts, ", "@, i as int);
        }
        if i > 0 {
            push_str(s, ", ");
        }
        push_hex_lower(s, b[i] as u64, 2);
        i += 1;
        assert(s@ =~= start + seq!['['] + joined(parts.take(i as int), ", "@));
    }
    assert(parts.take(b@.len() as int) =~= parts);
    push_char(s, ']');
    assert(s@ =~= start + hex_list(b@));
}

/// Appends the text of a value.
fn push_value(s: &mut String, v: &DltValue)
    ensures
        final(s)@ == old(s)@ + value_text(*v),
{
    match v {
        DltValue::Bool(n) => push_dec(s, *n as u64),
        DltValue::U8(n) => push_dec(s, *n as u64),
        DltValue::U16(n) => push_dec(s, *n as u64),
        DltValue::U32(n) => push_dec(s, *n as u64),
        DltValue::U64(n) => push_dec(s, *n),
        DltValue::U128(n) => push_dec_u128(s, *n),
        DltValue::I8(n) => push_dec_i128(s, *n as i128),
        DltValue::I16(n) => push_dec_i128(s, *n as i128),
        DltValue::I32(n) => push_dec_i128(s, *n as i128),
        DltValue::I64(n) => push_dec_i128(s, *n as i128),
        DltValue::I128(n) => push_dec_i128(s, *n),
        DltValue::Float(t) => push_str(s, t.as_str()),
        DltValue::Str(t) => push_str(s, t.as_str()),
        DltValue::Raw(b) => push_hex_list(s, b),
    }
}

/// Appends the text of a payload.
fn push_payload(s: &mut String, p: &DltPayload)
    ensures
        final(s)@ == old(s)@ + payload_text(*p),
{
    match p {
        DltPayload::Verbose(args) => {
            let ghost parts = args@.map_values(|a: DltArgument| argument_text(a));
            let ghost start = old(s)@;
            let mut i: usize = 0;
            while i < args.len()
                invariant
                    i <= args@.len(),
                    parts == args@.map_values(|a: DltArgument| argument_text(a)),
                    s@ == start + joined(parts.take(i as int), " || "@),
                decreases args.len() - i,
            {
                proof {
                    lemma_joined_step(parts, " || "@, i as int);
                }
                if i > 0 {
                    push_str(s, " || ");
                }
                let ghost before = s@;
                match &args[i].name {
                    Some(n) => {
                        push_str(s, n.as_str());
                        push_str(s, ": ");
                    },
                    None => {},
                }
                push_value(s, &args[i].value);
                assert(s@ =~= before + argument_text(args@[i as int]));
                i += 1;
                assert(s@ =~= start + joined(parts.take(i as int), " || "@));
            }
            assert(parts.take(args@.len() as int) =~= parts);
        },
        DltPayload::NonVerbose(b) => push_hex_list(s, b),
        DltPayload::ControlMsg(b) => {
            push_str(s, "ControlMsg: ");
            push_hex_list(s, b);
            assert(s@ =~= old(s)@ + payload_text(*p));
        },
        DltPayload::NetworkTrace(n) => {
            push_str(s, "NetworkTrace: ");
            push_dec(s, *n as u64);
            push_str(s, " traces");
            assert(s@ =~= old(s)@ + payload_text(*p));
        },
    }
}

/// The text shown for a message.
pub fn format_body(r: &DltRecord) -> (s: String)
    ensures
        s@ == body_text(*r),
{
    let mut s = String::new();
    match &r.ecu_id {
        Some(e) => push_str(&mut s, e.as_str()),
        None => push_str(&mut s, "UnknownECU"),
    }
    push_str(&mut s, " ");
    let session: u32 = match r.session_id {
        Some(v) => v,
        None => 0,
    };
    push_dec(&mut s, session as u64);
    push_str(&mut s, " ");
    match &r.extended_header {
        Some(h) => {
            push_str(&mut s, h.application_id.as_str());
            push_str(&mut s, " ");
            push_str(&mut s, h.context_id.as_str());
            push_str(&mut s, " ");
            push_str(&mut s, h.message_type.as_str());
        },
        None => {
            proof {
                reveal_strlit("");
            }
            push_str(&mut s, "");
            push_str(&mut s, " ");
            push_str(&mut s, "");
            push_str(&mut s, " ");
            push_str(&mut s, "Unknown");
        },
    }
    push_str(&mut s, " ");
    push_payload(&mut s, &r.payload);
    assert(s@ =~= body_text(*r));
    s
}

/// A DLT message placed in time.
pub struct DltLogLine {
    pub record: DltRecord,
    /// The storage header's time, in microseconds since the Unix epoch.
    pub storage_time_us: i64,
    /// The header's time since boot, in microseconds.
    pub header_timestamp_us: Option<i64>,
    /// The ECU (empty when absent).
    pub ecu_id: String,
    /// The application (empty when absent).
    pub app_id: String,
    /// 1-based number of the message in the file.
    pub line_number: usize,
}

impl DltLogLine {
    /// The line's message text.
    pub fn message(&self) -> (s: String)
        ensures
            s@ == body_text(self.record),
    {
        format_body(&self.record)
    }
}

/// The storage time of a message, when it has a storage header with a
/// time in range.
pub open spec fn storage_micros(r: DltRecord) -> Option<i64> {
    match r.storage_header {
        Some(h) => utc_micros(h.seconds as i64, (h.microseconds * 1000) as u32),
        None => None,
    }
}

/// Places a message: it needs a storage time and an extended header. The
/// header time counts in units of 100 µs.
pub fn convert_dlt_message(record: DltRecord, line_number: usize) -> (r: Option<DltLogLine>)
    requires
        record.storage_header matches Some(h) ==> h.microseconds as nat * 1000 <= u32::MAX,
    ensures
        r is Some <==> (storage_micros(record) is Some && record.extended_header is Some),
        r matches Some(l) ==> {
            &&& l.storage_time_us == storage_micros(record)->0
            &&& l.header_timestamp_us == match record.timestamp {
                Some(t) => Some((t * 100) as i64),
                None => None,
            }
            &&& l.ecu_id@ == match record.ecu_id {
                Some(e) => e@,
                None => Seq::empty(),
            }
            &&& l.app_id@ == (record.extended_header->0).application_id@
            &&& l.line_number == line_number
        },
{
    let storage_time_us = match &record.storage_header {
        Some(h) => match utc_timestamp_micros(h.seconds as i64, h.microseconds * 1000) {
            Some(t) => t,
            None => return None,
        },
        None => return None,
    };
    let app_id = match &record.extended_header {
        Some(h) => h.application_id.clone(),
        None => return None,
    };
    let header_timestamp_us: Option<i64> = match record.timestamp {
        Some(t) => Some(t as i64 * 100),
        None => None,
    };
    let ecu_id = match &record.ecu_id {
        Some(e) => e.clone(),
        None => String::new(),
    };
    Some(DltLogLine { record, storage_time_us, header_timestamp_us, ecu_id, app_id, line_number })
}

/// The boot time recorded for `(ecu, app)`: the first entry for it.
pub open spec fn boot_time_in(entries: Seq<(Seq<char>, Seq<char>, i64)>, ecu: Seq<char>, app: Seq<char>) -> Option<i64>
    decreases entries.len(),
{
    if entries.len() == 0 {
        None
    } else {
        match boot_time_in(entries.drop_last(), ecu, app) {
            Some(t) => Some(t),
            None => if entries.last().0 == ecu && entries.last().1 == app {
                Some(entries.last().2)
            } else {
                None
            },
        }
    }
}

/// Per-source time settings of a DLT file: the offset added to storage
/// times, and the boot time of each (ECU, application).
pub struct DltTimes {
    storage_offset_ms: i64,
    boot_times: Vec<(String, String, i64)>,
}

impl DltTimes {
    /// The boot times, first entry per key winning.
    pub closed spec fn entries(&self) -> Seq<(Seq<char>, Seq<char>, i64)> {
        self.boot_times@.map_values(|e: (String, String, i64)| (e.0@, e.1@, e.2))
    }

    /// The offset added to storage times, in milliseconds.
    pub closed spec fn offset_ms(&self) -> i64 {
        self.storage_offset_ms
    }

    /// The offset added to storage times, in milliseconds.
    pub fn storage_offset_ms(&self) -> (r: i64)
        ensures
            r == self.offset_ms(),
    {
        self.storage_offset_ms
    }

    /// Sets the offset added to storage times (a calibration).
    pub fn set_storage_offset_ms(&mut self, ms: i64)
        ensures
            final(self).offset_ms() == ms,
            forall|e: Seq<char>, a: Seq<char>| #[trigger] final(self).boot_time(e, a) == old(self).boot_time(e, a),
    {
        self.storage_offset_ms = ms;
    }

    /// The boot time of `(ecu, app)`, in microseconds since the Unix epoch.
    pub open spec fn boot_time(&self, ecu: Seq<char>, app: Seq<char>) -> Option<i64> {
        boot_time_in(self.entries(), ecu, app)
    }

    /// No offset and no boot times.
    pub fn new() -> (r: Self)
        ensures
            r.offset_ms() == 0,
            forall|e: Seq<char>, a: Seq<char>| #[trigger] r.boot_time(e, a) is None,
    {
        let r = DltTimes { storage_offset_ms: 0, boot_times: Vec::new() };
        assert(r.entries() =~= Seq::<(Seq<char>, Seq<char>, i64)>::empty());
        r
    }

    /// The boot time of `(ecu, app)`.
    pub fn get_boot_time(&self, ecu: &str, app: &str) -> (r: Option<i64>)
        ensures
            r == self.boot_time(ecu@, app@),
    {
        let e = str_chars(ecu);
        let a = str_chars(app);
        let ghost es = self.entries();
        let mut i: usize = 0;
        while i < self.boot_times.len()
            invariant
                i <= self.boot_times@.len(),
                es == self.entries(),
                es.len() == self.boot_times@.len(),
                e@ == ecu@,
                a@ == app@,
                boot_time_in(es.take(i as int), ecu@, app@) is None,
            decreases self.boot_times.len() - i,
        {
            assert(es[i as int] == (self.boot_times@[i as int].0@, self.boot_times@[i as int].1@, self.boot_times@[i as int].2));
            assert(es.take(i + 1).drop_last() =~= es.take(i as int));
            let ke = str_chars(self.boot_times[i].0.as_str());
            let ka = str_chars(self.boot_times[i].1.as_str());
            if chars_eq(ke.as_slice(), e.as_slice()) && chars_eq(ka.as_slice(), a.as_slice()) {
                proof {
                    lemma_boot_time_prefix(es, i as int + 1, ecu@, app@);
                }
                return Some(self.boot_times[i].2);
            }
            i += 1;
        }
        assert(es.take(es.len() as int) =~= es);
        None
    }

    /// Records the boot time of `(ecu, app)` unless it has one already
    /// (a persisted calibration or an earlier message wins).
    pub fn observe(&mut self, ecu: &str, app: &str, boot_us: i64)
        ensures
            final(self).offset_ms() == old(self).offset_ms(),
            final(self).boot_time(ecu@, app@) == match old(self).boot_time(ecu@, app@) {
                Some(t) => Some(t),
                None => Some(boot_us),
            },
            forall|e: Seq<char>, a: Seq<char>| !(e == ecu@ && a == app@) ==> #[trigger] final(self).boot_time(e, a)
                == old(self).boot_time(e, a),
    {
        if self.get_boot_time(ecu, app).is_none() {
            let ghost before = self.entries();
            self.boot_times.push((ecu.to_string(), app.to_string(), boot_us));
            assert(self.entries().drop_last() =~= before);
        }
    }

    /// The time of a line on the chosen clock, in microseconds: on the
    /// inferred monotonic clock, its boot time plus its time since boot
    /// when both are known; otherwise its storage time plus the offset.
    pub fn timestamp_us(&self, line: &DltLogLine, source: DltTimestampSource) -> (r: i64)
        ensures
            r == placed_time(self, line, source),
    {
        if source == DltTimestampSource::InferredMonotonic {
            if let Some(header_us) = line.header_timestamp_us {
                if let Some(boot) = self.get_boot_time(line.ecu_id.as_str(), line.app_id.as_str()) {
                    return boot.wrapping_add(header_us);
                }
            }
        }
        line.storage_time_us.wrapping_add(self.storage_offset_ms.wrapping_mul(1000))
    }
}

/// The time of a line on the chosen clock (64-bit wrapping arithmetic).
pub open spec fn placed_time(times: &DltTimes, line: &DltLogLine, source: DltTimestampSource) -> i64 {
    let storage = line.storage_time_us.wrapping_add(times.offset_ms().wrapping_mul(1000));
    if source == DltTimestampSource::InferredMonotonic {
        match (line.header_timestamp_us, times.boot_time(line.ecu_id@, line.app_id@)) {
            (Some(h), Some(b)) => b.wrapping_add(h),
            _ => storage,
        }
    } else {
        storage
    }
}

/// A boot time found in a prefix stays the boot time of the whole list.
proof fn lemma_boot_time_prefix(es: Seq<(Seq<char>, Seq<char>, i64)>, k: int, ecu: Seq<char>, app: Seq<char>)
    requires
        0 <= k <= es.len(),
        boot_time_in(es.take(k), ecu, app) is Some,
    ensures
        boot_time_in(es, ecu, app) == boot_time_in(es.take(k), ecu, app),
    decreases es.len() - k,
{
    if k < es.len() {
        assert(es.take(k + 1).drop_last() =~= es.take(k));
        lemma_boot_time_prefix(es, k + 1, ecu, app);
    } else {
        assert(es.take(k) =~= es);
    }
}

/// Reads DLT messages in file order: numbers them and infers the boot
/// time of each (ECU, application) from its first message with a header
/// time.
pub struct DltReaderState {
    line_number: usize,
}

impl DltReaderState {
    pub closed spec fn next_line(&self) -> usize {
        self.line_number
    }

    pub fn new() -> (r: Self)
        ensures
            r.next_line() == 1,
    {
        DltReaderState { line_number: 1 }
    }

    /// Takes the next message: a message that cannot be placed is skipped;
    /// a placed one gets the next line number and, when it carries a time
    /// since boot, proposes its storage time minus that as the boot time.
    pub fn accept(&mut self, record: DltRecord, times: &mut DltTimes) -> (r: Option<DltLogLine>)
        requires
            record.storage_header matches Some(h) ==> h.microseconds as nat * 1000 <= u32::MAX,
            old(self).next_line() < usize::MAX,
        ensures
            r is Some <==> (storage_micros(record) is Some && record.extended_header is Some),
            r matches Some(l) ==> {
                &&& l.line_number == old(self).next_line()
                &&& final(self).next_line() == old(self).next_line() + 1
                &&& l.header_timestamp_us matches Some(h) ==> final(times).boot_time(l.ecu_id@, l.app_id@)
                    == match old(times).boot_time(l.ecu_id@, l.app_id@) {
                    Some(t) => Some(t),
                    None => Some(l.storage_time_us.wrapping_sub(h)),
                }
            },
            r matches Some(l) ==> forall|e: Seq<char>, a: Seq<char>|
                !(l.header_timestamp_us is Some && e == l.ecu_id@ && a == l.app_id@) ==> #[trigger] final(times).boot_time(e, a)
                    == old(times).boot_time(e, a),
            r is None ==> final(self).next_line() == old(self).next_line() && forall|e: Seq<char>, a: Seq<char>|
                #[trigger] final(times).boot_time(e, a) == old(times).boot_time(e, a),
            final(times).offset_ms() == old(times).offset_ms(),
    {
        match convert_dlt_message(record, self.line_number) {
            Some(line) => {
                if let Some(h) = line.header_timestamp_us {
                    times.observe(line.ecu_id.as_str(), line.app_id.as_str(), line.storage_time_us.wrapping_sub(h));
                }
                self.line_number = self.line_number + 1;
                Some(line)
            },
            None => None,
        }
    }
}

/// Separates the ECU and the application in the saved key of a boot time.
pub const BOOT_TIME_KEY_SEP: char = '\x1F';

/// The saved key of the boot time of (`ecu`, `app`).
pub open spec fn boot_key_text(ecu: Seq<char>, app: Seq<char>) -> Seq<char> {
    ecu + seq![BOOT_TIME_KEY_SEP] + app
}

/// The (ECU, application) of a saved key: the text around its first
/// separator; none without one.
pub open spec fn split_boot_key(key: Seq<char>) -> Option<(Seq<char>, Seq<char>)> {
    match first_of(key, BOOT_TIME_KEY_SEP, BOOT_TIME_KEY_SEP) {
        Some(i) => Some((key.take(i), key.skip(i + 1))),
        None => None,
    }
}

/// The saved key of the boot time of (`ecu`, `app`).
pub fn boot_time_key(ecu: &str, app: &str) -> (r: String)
    ensures
        r@ == boot_key_text(ecu@, app@),
{
    let mut key = ecu.to_owned();
    push_char(&mut key, BOOT_TIME_KEY_SEP);
    push_str(&mut key, app);
    key
}

/// The (ECU, application) of a saved boot-time key; keys without a
/// separator are skipped.
pub fn split_boot_time_key(key: &str) -> (r: Option<(String, String)>)
    ensures
        match r {
            Some((ecu, app)) => split_boot_key(key@) == Some((ecu@, app@)),
            None => split_boot_key(key@) is None,
        },
{
    let k = str_chars(key);
    let ks = k.as_slice();
    match find_either(ks, BOOT_TIME_KEY_SEP, BOOT_TIME_KEY_SEP) {
        Some(i) => {
            assert(i < k.len());
            let ecu = chars_range(k.as_slice(), 0, i);
            let app = chars_range(k.as_slice(), i + 1, k.len());
            proof {
                assert(ecu@ =~= key@.take(i as int));
                assert(app@ =~= key@.skip(i + 1));
            }
            Some((string_from_chars(ecu.as_slice()), string_from_chars(app.as_slice())))
        },
        None => None,
    }
}

/// Splitting the saved key of (`ecu`, `app`) gives them back, as long as
/// the ECU holds no separator.
pub proof fn lemma_boot_key_round_trip(ecu: Seq<char>, app: Seq<char>)
    requires
        !ecu.contains(BOOT_TIME_KEY_SEP),
    ensures
        split_boot_key(boot_key_text(ecu, app)) == Some((ecu, app)),
{
    let k = boot_key_text(ecu, app);
    lemma_first_of_from(k, BOOT_TIME_KEY_SEP, BOOT_TIME_KEY_SEP, 0);
    assert(k[ecu.len() as int] == BOOT_TIME_KEY_SEP);
    match first_of(k, BOOT_TIME_KEY_SEP, BOOT_TIME_KEY_SEP) {
        Some(j) => {
            if j < ecu.len() {
                assert(k[j] == ecu[j]);
                assert(ecu.contains(BOOT_TIME_KEY_SEP));
            }
            assert(j == ecu.len());
            assert(k.take(j) =~= ecu);
            assert(k.skip(j + 1) =~= app);
        },
        None => {},
    }
}

} // verus!
