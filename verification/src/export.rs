//! The records that the export tool writes, one per log line.

use vstd::prelude::*;

verus! {

/// How many lines the export tool reads per chunk.
pub const EXPORT_CHUNK: usize = 4096;

/// One NDJSON record emitted by the export tool.
pub struct ExportRecord<'a> {
    pub line_number: usize,
    pub timestamp_unix_ms: i64,
    pub message: String,
    pub source_file: &'a str,
    pub filetype: &'a str,
}

impl<'a> ExportRecord<'a> {
    /// The record of one line of `source_file`, read as `filetype`.
    pub fn new(
        line_number: usize,
        timestamp_unix_ms: i64,
        message: String,
        source_file: &'a str,
        filetype: &'a str,
    ) -> (r: Self)
        ensures
            r.line_number == line_number,
            r.timestamp_unix_ms == timestamp_unix_ms,
            r.message@ == message@,
            r.source_file@ == source_file@,
            r.filetype@ == filetype@,
    {
        ExportRecord { line_number, timestamp_unix_ms, message, source_file, filetype }
    }
}

} // verus!
