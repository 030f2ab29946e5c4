//! OpenTelemetry logs in OTLP JSON form: each log record of each scope of
//! each resource becomes one line, numbered from one, whose message is the
//! resource's service name, the record's severity and its body.

use crate::text::{push_char, push_str};
use opentelemetry_proto::tonic::common::v1::any_value::Value as OTelValue;
use opentelemetry_proto::tonic::common::v1::KeyValue;
use opentelemetry_proto::tonic::logs::v1::{LogRecord, LogsData, ResourceLogs};
use vstd::prelude::*;

verus! {

/// One attribute of an OTLP resource: its key, and its value where that
/// value is a string.
pub struct OtelAttribute {
    pub key: String,
    pub string_value: Option<String>,
}

/// One OTLP log record, as the values that make its line.
pub struct OtelRecord {
    /// Time when the event occurred, in nanoseconds since the epoch (0 when
    /// unknown).
    pub time_unix_nano: u64,
    /// Time when the event was observed, in nanoseconds since the epoch (0
    /// when unknown).
    pub observed_time_unix_nano: u64,
    pub severity_text: String,
    /// The body as text: a string body as it is, another value in its debug
    /// form, no body as the empty string.
    pub body: String,
    /// The record written back as JSON.
    pub raw: String,
}

/// The logs of one OTLP resource.
pub struct OtelResourceLogs {
    /// The resource's attributes (none when the resource is absent).
    pub attributes: Vec<OtelAttribute>,
    /// The log records of each instrumentation scope, in order.
    pub scope_logs: Vec<Vec<OtelRecord>>,
}

/// A single OpenTelemetry log record as a line.
pub struct OtelLogLine {
    pub raw_line: String,
    /// The record's time in nanoseconds since the epoch; 0 (the epoch) when
    /// the record carries no time.
    pub timestamp_nanos: u64,
    pub message_text: String,
    pub line_number: usize,
}

/// An attribute as plain values.
pub open spec fn attribute_view(a: OtelAttribute) -> (Seq<char>, Option<Seq<char>>) {
    (
        a.key@,
        match a.string_value {
            Some(s) => Some(s@),
            None => None,
        },
    )
}

/// The service name of a resource: the string value of the first
/// `service.name` attribute that has one.
pub open spec fn service_name_of(attrs: Seq<(Seq<char>, Option<Seq<char>>)>) -> Option<Seq<char>>
    decreases attrs.len(),
{
    if attrs.len() == 0 {
        None
    } else if attrs[0].0 == "service.name"@ && attrs[0].1 is Some {
        attrs[0].1
    } else {
        service_name_of(attrs.drop_first())
    }
}

/// The record's time: when it occurred, else when it was observed.
pub open spec fn record_nanos(r: OtelRecord) -> u64 {
    if r.time_unix_nano > 0 {
        r.time_unix_nano
    } else {
        r.observed_time_unix_nano
    }
}

/// The message of a record: the service name and a space, where there is
/// one; the severity and a space, where it is not empty; then the body.
pub open spec fn otel_message(service: Option<Seq<char>>, severity: Seq<char>, body: Seq<char>) -> Seq<char> {
    let head = match service {
        Some(s) => s + seq![' '],
        None => Seq::<char>::empty(),
    };
    let mid = if severity.len() > 0 {
        severity + seq![' ']
    } else {
        Seq::<char>::empty()
    };
    head + mid + body
}

/// The records of the given scopes in order, each with the service name.
pub open spec fn scope_entries(service: Option<Seq<char>>, scopes: Seq<Vec<OtelRecord>>) -> Seq<
    (Option<Seq<char>>, OtelRecord),
>
    decreases scopes.len(),
{
    if scopes.len() == 0 {
        Seq::empty()
    } else {
        scope_entries(service, scopes.drop_last()) + scopes.last()@.map_values(
            |r: OtelRecord| (service, r),
        )
    }
}

/// The records of all resources in order, each with its resource's service
/// name.
pub open spec fn otel_entries(resources: Seq<OtelResourceLogs>) -> Seq<(Option<Seq<char>>, OtelRecord)>
    decreases resources.len(),
{
    if resources.len() == 0 {
        Seq::empty()
    } else {
        let last = resources.last();
        otel_entries(resources.drop_last()) + scope_entries(
            service_name_of(last.attributes@.map_values(|a: OtelAttribute| attribute_view(a))),
            last.scope_logs@,
        )
    }
}

/// `line` is the line of record `e` at line number `n`.
pub open spec fn is_otel_line(line: OtelLogLine, e: (Option<Seq<char>>, OtelRecord), n: int) -> bool {
    &&& line.raw_line@ == e.1.raw@
    &&& line.timestamp_nanos == record_nanos(e.1)
    &&& line.message_text@ == otel_message(e.0, e.1.severity_text@, e.1.body@)
    &&& line.line_number == n
}

/// The service name of a resource, from its attributes.
pub fn find_service_name(attributes: &Vec<OtelAttribute>) -> (r: Option<String>)
    ensures
        match r {
            Some(s) => service_name_of(attributes@.map_values(|a: OtelAttribute| attribute_view(a)))
                == Some(s@),
            None => service_name_of(attributes@.map_values(|a: OtelAttribute| attribute_view(a)))
                is None,
        },
{
    let ghost views = attributes@.map_values(|a: OtelAttribute| attribute_view(a));
    let key = "service.name".to_owned();
    proof {
        reveal_strlit("service.name");
        assert(views.skip(0) =~= views);
    }
    let mut i: usize = 0;
    while i < attributes.len()
        invariant
            i <= attributes@.len(),
            views == attributes@.map_values(|a: OtelAttribute| attribute_view(a)),
            key@ == "service.name"@,
            service_name_of(views) == service_name_of(views.skip(i as int)),
        decreases attributes.len() - i,
    {
        let a = &attributes[i];
        proof {
            assert(views.skip(i as int).drop_first() =~= views.skip(i + 1));
            assert(views.skip(i as int)[0] == attribute_view(*a));
        }
        if a.key == key {
            match &a.string_value {
                Some(s) => {
                    return Some(s.clone());
                },
                None => {},
            }
        }
        i += 1;
    }
    proof {
        assert(views.skip(i as int).len() == 0);
    }
    None
}

/// The message of a record (see `otel_message`).
pub fn build_otel_message(service: &Option<String>, severity: &String, body: &String) -> (m: String)
    ensures
        m@ == otel_message(
            match service {
                Some(s) => Some(s@),
                None => None,
            },
            severity@,
            body@,
        ),
{
    let mut message = String::new();
    match service {
        Some(svc) => {
            push_str(&mut message, svc.as_str());
            push_char(&mut message, ' ');
        },
        None => {},
    }
    if !severity.as_str().is_empty() {
        push_str(&mut message, severity.as_str());
        push_char(&mut message, ' ');
    }
    push_str(&mut message, body.as_str());
    proof {
        let head = match service {
            Some(s) => s@ + seq![' '],
            None => Seq::<char>::empty(),
        };
        let mid = if severity@.len() > 0 {
            severity@ + seq![' ']
        } else {
            Seq::<char>::empty()
        };
        assert(message@ =~= head + mid + body@);
    }
    message
}

/// The lines of OTLP log data: one per log record, in order, numbered from
/// one.
pub fn otel_log_lines(resources: &Vec<OtelResourceLogs>) -> (lines: Vec<OtelLogLine>)
    requires
        otel_entries(resources@).len() < usize::MAX,
    ensures
        lines@.len() == otel_entries(resources@).len(),
        forall|i: int|
            0 <= i < lines@.len() ==> is_otel_line(#[trigger] lines@[i], otel_entries(resources@)[i], i + 1),
{
    let mut lines: Vec<OtelLogLine> = Vec::new();
    let mut i: usize = 0;
    while i < resources.len()
        invariant
            i <= resources@.len(),
            otel_entries(resources@).len() < usize::MAX,
            lines@.len() == otel_entries(resources@.take(i as int)).len(),
            forall|k: int|
                0 <= k < lines@.len() ==> is_otel_line(
                    #[trigger] lines@[k],
                    otel_entries(resources@.take(i as int))[k],
                    k + 1,
                ),
        decreases resources.len() - i,
    {
        let resource = &resources[i];
        let service = find_service_name(&resource.attributes);
        let ghost svc = service_name_of(
            resource.attributes@.map_values(|a: OtelAttribute| attribute_view(a)),
        );
        let ghost before = otel_entries(resources@.take(i as int));
        proof {
            assert(resources@.take(i + 1).drop_last() =~= resources@.take(i as int));
            assert(otel_entries(resources@.take(i + 1)) == before + scope_entries(svc, resource.scope_logs@));
            lemma_entries_prefix(resources@, i + 1);
        }
        let mut j: usize = 0;
        while j < resource.scope_logs.len()
            invariant
                i < resources@.len(),
                resource == resources@[i as int],
                j <= resource.scope_logs@.len(),
                svc == service_name_of(resource.attributes@.map_values(|a: OtelAttribute| attribute_view(a))),
                match service {
                    Some(s) => svc == Some(s@),
                    None => svc is None,
                },
                before == otel_entries(resources@.take(i as int)),
                (before + scope_entries(svc, resource.scope_logs@)).len() <= otel_entries(resources@).len(),
                otel_entries(resources@).len() < usize::MAX,
                lines@.len() == (before + scope_entries(svc, resource.scope_logs@.take(j as int))).len(),
                forall|k: int|
                    0 <= k < lines@.len() ==> is_otel_line(
                        #[trigger] lines@[k],
                        (before + scope_entries(svc, resource.scope_logs@.take(j as int)))[k],
                        k + 1,
                    ),
            decreases resource.scope_logs.len() - j,
        {
            let records = &resource.scope_logs[j];
            let ghost done = before + scope_entries(svc, resource.scope_logs@.take(j as int));
            proof {
                assert(resource.scope_logs@.take(j + 1).drop_last() =~= resource.scope_logs@.take(j as int));
                assert(resource.scope_logs@.take(j + 1).last() == records);
                assert(done + records@.map_values(|r: OtelRecord| (svc, r)) == before + scope_entries(
                    svc,
                    resource.scope_logs@.take(j + 1),
                ));
                lemma_scope_entries_prefix(svc, resource.scope_logs@, j + 1);
                assert(records@.map_values(|r: OtelRecord| (svc, r)).len() == records@.len());
            }
            let mut k: usize = 0;
            while k < records.len()
                invariant
                    records == resource.scope_logs@[j as int],
                    j < resource.scope_logs@.len(),
                    k <= records@.len(),
                    done == before + scope_entries(svc, resource.scope_logs@.take(j as int)),
                    (done + records@.map_values(|r: OtelRecord| (svc, r))).len() <= otel_entries(resources@).len(),
                    otel_entries(resources@).len() < usize::MAX,
                    match service {
                        Some(s) => svc == Some(s@),
                        None => svc is None,
                    },
                    lines@.len() == done.len() + k,
                    forall|m: int|
                        0 <= m < lines@.len() ==> is_otel_line(
                            #[trigger] lines@[m],
                            (done + records@.map_values(|r: OtelRecord| (svc, r)))[m],
                            m + 1,
                        ),
                decreases records.len() - k,
            {
                let record = &records[k];
                let nanos = if record.time_unix_nano > 0 {
                    record.time_unix_nano
                } else {
                    record.observed_time_unix_nano
                };
                let message = build_otel_message(&service, &record.severity_text, &record.body);
                let line_number = lines.len() + 1;
                lines.push(
                    OtelLogLine {
                        raw_line: record.raw.clone(),
                        timestamp_nanos: nanos,
                        message_text: message,
                        line_number,
                    },
                );
                k += 1;
            }
            proof {
                assert(records@.map_values(|r: OtelRecord| (svc, r)).len() == records@.len());
                assert(done + records@.map_values(|r: OtelRecord| (svc, r)) =~= before + scope_entries(
                    svc,
                    resource.scope_logs@.take(j + 1),
                ));
            }
            j += 1;
        }
        proof {
            assert(resource.scope_logs@.take(j as int) =~= resource.scope_logs@);
        }
        i += 1;
    }
    proof {
        assert(resources@.take(i as int) =~= resources@);
    }
    lines
}

/// The entries of a prefix of the resources are a prefix of all entries.
proof fn lemma_entries_prefix(resources: Seq<OtelResourceLogs>, n: int)
    requires
        0 <= n <= resources.len(),
    ensures
        otel_entries(resources.take(n)).len() <= otel_entries(resources).len(),
    decreases resources.len() - n,
{
    if n < resources.len() {
        lemma_entries_prefix(resources, n + 1);
        assert(resources.take(n + 1).drop_last() =~= resources.take(n));
    } else {
        assert(resources.take(n) =~= resources);
    }
}

/// The entries of a prefix of the scopes are a prefix of all their entries.
proof fn lemma_scope_entries_prefix(service: Option<Seq<char>>, scopes: Seq<Vec<OtelRecord>>, n: int)
    requires
        0 <= n <= scopes.len(),
    ensures
        scope_entries(service, scopes.take(n)).len() <= scope_entries(service, scopes).len(),
    decreases scopes.len() - n,
{
    if n < scopes.len() {
        lemma_scope_entries_prefix(service, scopes, n + 1);
        assert(scopes.take(n + 1).drop_last() =~= scopes.take(n));
    } else {
        assert(scopes.take(n) =~= scopes);
    }
}

/// The logs of one resource in an OTLP message.
#[verifier::external_type_specification]
#[verifier::external_body]
pub struct ExResourceLogs(ResourceLogs);

/// One log record in an OTLP message.
#[verifier::external_type_specification]
#[verifier::external_body]
pub struct ExLogRecord(LogRecord);

/// One attribute (key and value) in an OTLP message.
#[verifier::external_type_specification]
#[verifier::external_body]
pub struct ExKeyValue(KeyValue);

/// A record as plain values.
pub open spec fn record_view(r: OtelRecord) -> (u64, u64, Seq<char>, Seq<char>, Seq<char>) {
    (r.time_unix_nano, r.observed_time_unix_nano, r.severity_text@, r.body@, r.raw@)
}

/// The logs of a resource as plain values.
pub open spec fn resource_view(r: OtelResourceLogs) -> (
    Seq<(Seq<char>, Option<Seq<char>>)>,
    Seq<Seq<(u64, u64, Seq<char>, Seq<char>, Seq<char>)>>,
) {
    (
        r.attributes@.map_values(|a: OtelAttribute| attribute_view(a)),
        r.scope_logs@.map_values(|s: Vec<OtelRecord>| s@.map_values(|x: OtelRecord| record_view(x))),
    )
}

/// The resources of an OTLP JSON message (`LogsData`), as plain values:
/// each attribute with its string value, and each record with its times,
/// severity, body as text (a string as it is, another value in its debug
/// form) and the record written back as JSON; `None` when the text is not
/// such a message.
pub uninterp spec fn otlp_resources(text: Seq<char>) -> Option<
    Seq<(Seq<(Seq<char>, Option<Seq<char>>)>, Seq<Seq<(u64, u64, Seq<char>, Seq<char>, Seq<char>)>>)>,
>;

/// `serde_json::from_str::<LogsData>` (`opentelemetry_proto`'s OTLP JSON
/// form), each resource converted to plain values.
#[verifier::external_body]
fn parse_otlp_json(text: &str) -> (r: Option<Vec<OtelResourceLogs>>)
    ensures
        match r {
            Some(v) => otlp_resources(text@) == Some(v@.map_values(|x: OtelResourceLogs| resource_view(x))),
            None => otlp_resources(text@) is None,
        },
{
    let data: LogsData = serde_json::from_str(text).ok()?;
    Some(data.resource_logs.iter().map(otlp_resource).collect())
}

/// The plain values of an OTLP resource's logs (field for field).
#[verifier::external_body]
fn otlp_resource(r: &ResourceLogs) -> OtelResourceLogs {
    OtelResourceLogs {
        attributes: r.resource.as_ref().map(|res| res.attributes.iter().map(otlp_attribute).collect()).unwrap_or_default(),
        scope_logs: r.scope_logs.iter().map(|s| s.log_records.iter().map(otlp_record).collect()).collect(),
    }
}

/// The plain values of an OTLP attribute: its key, and its value where that
/// is a string.
#[verifier::external_body]
fn otlp_attribute(kv: &KeyValue) -> OtelAttribute {
    let string_value = match kv.value.as_ref().and_then(|v| v.value.as_ref()) {
        Some(OTelValue::StringValue(s)) => Some(s.clone()),
        _ => None,
    };
    OtelAttribute { key: kv.key.clone(), string_value }
}

/// The plain values of an OTLP log record: the body as text (a string as
/// it is, another value in its debug form, none as empty) and the record
/// written back as JSON (`serde_json::to_string`).
#[verifier::external_body]
fn otlp_record(r: &LogRecord) -> OtelRecord {
    let body = match r.body.as_ref().and_then(|v| v.value.as_ref()) {
        Some(OTelValue::StringValue(s)) => s.clone(),
        Some(other) => format!("{other:?}"),
        None => String::new(),
    };
    let raw = serde_json::to_string(r).unwrap_or_else(|_| body.clone());
    OtelRecord { time_unix_nano: r.time_unix_nano, observed_time_unix_nano: r.observed_time_unix_nano, severity_text: r.severity_text.clone(), body, raw }
}

/// Resources `v` are the parsed form of `text`.
pub open spec fn parsed_as(text: Seq<char>, v: Seq<OtelResourceLogs>) -> bool {
    otlp_resources(text) == Some(v.map_values(|x: OtelResourceLogs| resource_view(x)))
}

/// `lines` are the lines of the OTLP message `text`.
pub open spec fn lines_of_text(text: Seq<char>, lines: Seq<OtelLogLine>) -> bool {
    exists|v: Seq<OtelResourceLogs>| #[trigger] parsed_as(text, v) && lines.len() == otel_entries(v).len()
        && forall|i: int| 0 <= i < lines.len() ==> is_otel_line(#[trigger] lines[i], otel_entries(v)[i], i + 1)
}

/// The OTLP message `text` holds too many records to number.
pub open spec fn too_many_records(text: Seq<char>) -> bool {
    exists|v: Seq<OtelResourceLogs>| #[trigger] parsed_as(text, v) && otel_entries(v).len() >= usize::MAX
}

/// The number of records of OTLP log data; `None` when it does not fit
/// below `usize::MAX`.
pub fn otel_record_count(resources: &Vec<OtelResourceLogs>) -> (r: Option<usize>)
    ensures
        match r {
            Some(n) => n == otel_entries(resources@).len() && n < usize::MAX,
            None => otel_entries(resources@).len() >= usize::MAX,
        },
{
    let mut count: usize = 0;
    let mut i: usize = 0;
    while i < resources.len()
        invariant
            i <= resources@.len(),
            count == otel_entries(resources@.take(i as int)).len(),
            count < usize::MAX,
        decreases resources.len() - i,
    {
        let resource = &resources[i];
        let ghost svc = service_name_of(resource.attributes@.map_values(|a: OtelAttribute| attribute_view(a)));
        let ghost before = otel_entries(resources@.take(i as int));
        proof {
            assert(resources@.take(i + 1).drop_last() =~= resources@.take(i as int));
            assert(otel_entries(resources@.take(i + 1)) == before + scope_entries(svc, resource.scope_logs@));
            assert(resource.scope_logs@.take(0) =~= Seq::<Vec<OtelRecord>>::empty());
        }
        let mut j: usize = 0;
        while j < resource.scope_logs.len()
            invariant
                i < resources@.len(),
                resource == resources@[i as int],
                j <= resource.scope_logs@.len(),
                count == before.len() + scope_entries(svc, resource.scope_logs@.take(j as int)).len(),
                count < usize::MAX,
                before == otel_entries(resources@.take(i as int)),
                otel_entries(resources@.take(i + 1)) == before + scope_entries(svc, resource.scope_logs@),
            decreases resource.scope_logs.len() - j,
        {
            let n = resource.scope_logs[j].len();
            proof {
                assert(resource.scope_logs@.take(j + 1).drop_last() =~= resource.scope_logs@.take(j as int));
                assert(resource.scope_logs@.take(j + 1).last() == resource.scope_logs@[j as int]);
                assert(resource.scope_logs@[j as int]@.map_values(|r: OtelRecord| (svc, r)).len() == n);
                assert(scope_entries(svc, resource.scope_logs@.take(j + 1)).len() == scope_entries(
                    svc,
                    resource.scope_logs@.take(j as int),
                ).len() + n);
            }
            if count >= usize::MAX - n {
                proof {
                    lemma_scope_entries_prefix(svc, resource.scope_logs@, j + 1);
                    lemma_entries_prefix(resources@, i + 1);
                    assert(otel_entries(resources@.take(i + 1)).len() == before.len() + scope_entries(
                        svc,
                        resource.scope_logs@,
                    ).len());
                }
                return None;
            }
            count = count + n;
            j += 1;
        }
        proof {
            assert(resource.scope_logs@.take(j as int) =~= resource.scope_logs@);
        }
        i += 1;
    }
    proof {
        assert(resources@.take(i as int) =~= resources@);
    }
    Some(count)
}

/// Stateful reader for OpenTelemetry OTLP JSON log files: the lines of the
/// parsed records, handed out in batches, with the share of the file they
/// stand for.
pub struct OtelFileType {
    records: Vec<OtelLogLine>,
    file_size: u64,
    bytes_read: u64,
}

/// How far a reader has got through a file of `file_size` bytes when
/// `remaining` of `total` lines are still to be handed out.
pub open spec fn consumed_share(file_size: u64, remaining: nat, total: nat) -> int {
    file_size - (file_size * remaining) / (total as int)
}

impl OtelFileType {
    /// The lines not yet handed out, in order.
    pub closed spec fn pending(&self) -> Seq<OtelLogLine> {
        self.records@
    }

    /// The size of the file the lines were read from.
    pub closed spec fn size_of_file(&self) -> u64 {
        self.file_size
    }

    /// The bytes of the file that the lines handed out stand for.
    pub closed spec fn consumed(&self) -> u64 {
        self.bytes_read
    }

    /// A reader over the records of parsed OTLP log data from a file of
    /// `file_size` bytes.
    pub fn open(resources: &Vec<OtelResourceLogs>, file_size: u64) -> (r: Self)
        requires
            otel_entries(resources@).len() < usize::MAX,
        ensures
            r.pending().len() == otel_entries(resources@).len(),
            forall|i: int|
                0 <= i < r.pending().len() ==> is_otel_line(
                    #[trigger] r.pending()[i],
                    otel_entries(resources@)[i],
                    i + 1,
                ),
            r.size_of_file() == file_size,
            r.consumed() == 0,
    {
        OtelFileType { records: otel_log_lines(resources), file_size, bytes_read: 0 }
    }

    /// Hands out up to `lines_to_read` lines. When none are left, the whole
    /// file counts as consumed; otherwise the share of the lines handed out
    /// so far.
    pub fn read(&mut self, lines_to_read: usize) -> (batch: Vec<OtelLogLine>)
        ensures
            ({
                let n = if lines_to_read < old(self).pending().len() {
                    lines_to_read as int
                } else {
                    old(self).pending().len() as int
                };
                &&& batch@ == old(self).pending().take(n)
                &&& final(self).pending() == old(self).pending().skip(n)
            }),
            final(self).size_of_file() == old(self).size_of_file(),
            batch@.len() == 0 ==> final(self).consumed() == old(self).size_of_file(),
            batch@.len() > 0 ==> final(self).consumed() == consumed_share(
                old(self).size_of_file(),
                final(self).pending().len(),
                final(self).pending().len() + batch@.len(),
            ),
    {
        let n = if lines_to_read < self.records.len() {
            lines_to_read
        } else {
            self.records.len()
        };
        let mut batch = self.records.split_off(n);
        std::mem::swap(&mut self.records, &mut batch);
        if batch.len() == 0 {
            self.bytes_read = self.file_size;
        } else {
            let remaining = self.records.len();
            let total = remaining as u128 + batch.len() as u128;
            let size = self.file_size as u128;
            assert(size * remaining <= 0xffff_ffff_ffff_ffffu128 * 0xffff_ffff_ffff_ffffu128) by (nonlinear_arith)
                requires
                    size <= 0xffff_ffff_ffff_ffffu128,
                    remaining <= 0xffff_ffff_ffff_ffffu128,
            ;
            let product = size * (remaining as u128);
            let share = product / total;
            assert(share <= size) by (nonlinear_arith)
                requires
                    share == product / total,
                    product == size * remaining,
                    remaining < total,
                    0 < total,
            {
                assert(size * remaining <= size * total);
            }
            self.bytes_read = (size - share) as u64;
        }
        batch
    }

    /// The bytes of the file that the lines handed out so far stand for.
    pub fn bytes_consumed(&self) -> (r: u64)
        ensures
            r == self.consumed(),
    {
        self.bytes_read
    }
}

impl OtelFileType {
    /// A reader over the lines of an OTLP JSON message `text` read from a file
    /// of `file_size` bytes; `None` when the text is not such a message (or has
    /// too many records to number).
    pub fn open_text(text: &str, file_size: u64) -> (r: Option<OtelFileType>)
        ensures
            otlp_resources(text@) is None ==> r is None,
            r is None && otlp_resources(text@) is Some ==> too_many_records(text@),
            r matches Some(f) ==> lines_of_text(text@, f.pending()) && f.size_of_file() == file_size && f.consumed()
                == 0,
    {
        let resources = parse_otlp_json(text)?;
        proof {
            assert(parsed_as(text@, resources@));
        }
        match otel_record_count(&resources) {
            Some(_) => {
                let f = OtelFileType::open(&resources, file_size);
                assert(parsed_as(text@, resources@) && f.pending().len() == otel_entries(resources@).len());
                Some(f)
            },
            None => None,
        }
    }
}


} // verus!
