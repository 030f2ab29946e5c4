//! The data exchanged with the anomaly-scoring sidecar: model descriptions,
//! the lines sent for scoring, the stream's start frame, and how the lines
//! are cut into chunks.

use vstd::prelude::*;

verus! {

/// How many lines one `lines` frame of a scoring stream carries.
pub const LINES_PER_CHUNK: usize = 512;

/// The sidecar's answer to a health check.
pub struct HealthResponse {
    pub api_version: String,
    pub status: String,
}

/// The data a model was trained on.
pub struct TrainingCorpus {
    pub filter_profile: String,
    pub description: String,
    /// Filetype slug with the normalisation version the training data was
    /// built with.
    pub normalization_versions: Vec<(String, u32)>,
}

/// How many lines a model prefers, and accepts, per chunk.
pub struct ChunkPolicy {
    pub recommended_lines_per_chunk: usize,
    pub max_lines_per_chunk: usize,
}

/// What a model's scores mean.
pub struct OutputInfo {
    pub score_kind: String,
    pub higher_is_more_anomalous: bool,
    pub supports_explanations: bool,
}

/// A model the sidecar offers.
pub struct ModelInfo {
    /// Stable machine-readable slug, used as `model_id` in the scoring
    /// protocol.
    pub id: String,
    /// Human-readable label describing the model and its training domain.
    pub name: String,
    /// Model architecture identifier (e.g. `temporal_logbert`).
    pub architecture: String,
    pub kind: String,
    pub version: String,
    pub status: String,
    pub input_mode: String,
    pub training_corpus: TrainingCorpus,
    pub chunk_policy: ChunkPolicy,
    pub output: OutputInfo,
}

/// A filter profile the sidecar offers.
pub struct FilterProfileInfo {
    pub id: String,
    pub description: String,
}

/// Identifies a line in a scoring stream.
pub struct LineId {
    /// 16-bit source identifier.
    source_id: u16,
    line_number: usize,
    /// Milliseconds since the Unix epoch.
    timestamp_unix_ms: u64,
}

impl LineId {
    pub closed spec fn spec_source_id(&self) -> u16 {
        self.source_id
    }

    pub closed spec fn spec_line_number(&self) -> usize {
        self.line_number
    }

    pub closed spec fn spec_timestamp_unix_ms(&self) -> u64 {
        self.timestamp_unix_ms
    }

    /// The 16-bit source identifier.
    pub fn source_id(&self) -> (r: u16)
        ensures
            r == self.spec_source_id(),
    {
        self.source_id
    }

    /// The line number within its source.
    pub fn line_number(&self) -> (r: usize)
        ensures
            r == self.spec_line_number(),
    {
        self.line_number
    }

    /// Milliseconds since the Unix epoch.
    pub fn timestamp_unix_ms(&self) -> (r: u64)
        ensures
            r == self.spec_timestamp_unix_ms(),
    {
        self.timestamp_unix_ms
    }
}

/// One line sent for scoring.
pub struct InputLine {
    pub line_id: LineId,
    pub message: String,
    pub template_key: Option<String>,
    pub source_file: Option<String>,
    pub filetype: Option<String>,
}

impl InputLine {
    pub fn new(
        source_id: u16,
        line_number: usize,
        timestamp_unix_ms: u64,
        message: String,
        template_key: Option<String>,
        source_file: Option<String>,
        filetype: Option<String>,
    ) -> (r: Self)
        ensures
            r.line_id.spec_source_id() == source_id,
            r.line_id.spec_line_number() == line_number,
            r.line_id.spec_timestamp_unix_ms() == timestamp_unix_ms,
            r.message@ == message@,
            r.template_key == template_key,
            r.source_file == source_file,
            r.filetype == filetype,
    {
        InputLine {
            line_id: LineId { source_id, line_number, timestamp_unix_ms },
            message,
            template_key,
            source_file,
            filetype,
        }
    }
}

/// The frame that opens a scoring stream.
pub struct StartFrame<'a> {
    pub type_: &'static str,
    pub api_version: &'static str,
    pub model_id: &'a str,
    pub filtering_mode: &'static str,
    pub normalization_versions: &'a Vec<(String, u32)>,
}

impl<'a> StartFrame<'a> {
    /// The start frame for `model_id`: protocol version 1, with the
    /// sidecar deciding which lines are filtered.
    pub fn new(model_id: &'a str, normalization_versions: &'a Vec<(String, u32)>) -> (r: Self)
        ensures
            r.type_@ == "start"@,
            r.api_version@ == "1"@,
            r.model_id@ == model_id@,
            r.filtering_mode@ == "backend_authoritative"@,
            r.normalization_versions@ == normalization_versions@,
    {
        StartFrame {
            type_: "start",
            api_version: "1",
            model_id,
            filtering_mode: "backend_authoritative",
            normalization_versions,
        }
    }
}

/// Label applied by the user when manually classifying a log sample.
#[derive(Clone, Copy, Debug, PartialEq, Eq, Structural)]
pub enum SampleLabel {
    Benign,
    Anomalous,
}

impl SampleLabel {
    /// The label as the protocol writes it.
    pub open spec fn label_text(self) -> Seq<char> {
        match self {
            SampleLabel::Benign => "benign"@,
            SampleLabel::Anomalous => "anomalous"@,
        }
    }

    pub fn as_str(self) -> (r: &'static str)
        ensures
            r@ == self.label_text(),
    {
        match self {
            SampleLabel::Benign => "benign",
            SampleLabel::Anomalous => "anomalous",
        }
    }
}

/// How many `lines` frames carry `n` lines: the last chunk may be short.
pub fn chunk_count(n: usize) -> (r: usize)
    ensures
        r as int == (n as int + LINES_PER_CHUNK - 1) / (LINES_PER_CHUNK as int),
        (r as int) * LINES_PER_CHUNK >= n,
        r > 0 ==> ((r - 1) as int) * LINES_PER_CHUNK < n,
{
    let r = n / LINES_PER_CHUNK + if n % LINES_PER_CHUNK == 0 { 0 } else { 1 };
    assert(r as int == (n as int + LINES_PER_CHUNK - 1) / (LINES_PER_CHUNK as int)) by (nonlinear_arith)
        requires
            r == n / 512 + if n % 512 == 0 { 0int } else { 1int },
    {
    }
    r
}

/// The lines `[start, end)` that chunk `index` of `n` lines carries.
pub fn chunk_bounds(n: usize, index: usize) -> (r: (usize, usize))
    requires
        index < chunk_count_spec(n),
    ensures
        r.0 == index * LINES_PER_CHUNK,
        r.1 == if (index + 1) * LINES_PER_CHUNK <= n { (index + 1) * LINES_PER_CHUNK } else { n as int },
        r.0 < r.1 <= n,
{
    assert(index * 512 < n) by (nonlinear_arith)
        requires
            index < (n as int + 511) / 512,
    {
    }
    let start = index * LINES_PER_CHUNK;
    let end = if n - start >= LINES_PER_CHUNK { start + LINES_PER_CHUNK } else { n };
    (start, end)
}

/// How many chunks `n` lines take.
pub open spec fn chunk_count_spec(n: usize) -> int {
    (n as int + LINES_PER_CHUNK - 1) / (LINES_PER_CHUNK as int)
}

} // verus!
