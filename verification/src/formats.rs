//! The registered file formats and how a file's format is recognised:
//! binary formats by magic bytes, text formats by sniffing the first bytes,
//! tried in registration order with the catch-all format last.

use crate::chars::{chars_eq, chars_range, str_chars};
use crate::detect::{header_has_year, header_missing, looks_like_bugreport, looks_like_dmesg, looks_like_logcat, sample_looks_like, DMESG_TIMESTAMP, LOGCAT_TIMESTAMP};
use crate::otel::OtelFileType;
use crate::registry::{dlt_magic_bytes, pcap_magic_bytes};
use crate::text::{utf8_lossy, utf8_lossy_string};
use vstd::prelude::*;

verus! {

/// How many bytes of a file a text format's sniffer reads.
pub const SNIFF_BYTES: usize = 4096;

/// How many bytes of a file are sampled for text-format detection.
pub const MAX_SAMPLE_BYTES: usize = 102400;

/// Handles the loading of log files: which format a file is read as.
pub struct LogFileLoader;

/// Initial chunk size for incremental loading: small for fast initial
/// feedback.
pub const INITIAL_CHUNK_SIZE: usize = 8192;

/// Maximum chunk size: prevents excessive merge overhead.
pub const MAX_CHUNK_SIZE: usize = 262144;

/// Number of chunks between each chunk-size doubling.
pub const CHUNKS_BEFORE_GROWTH: usize = 3;

/// Provides a unique slug for a file type, used as the key of its settings
/// and of its saved state.
pub trait HasSlug {
    const SLUG: &'static str;
}

/// A binary format, recognised by the bytes a file starts with.
pub trait BinaryFileType: HasSlug {
    /// The byte sequences that identify this format at the start of a file.
    fn magic_bytes() -> &'static [&'static [u8]];
}

/// A text format, recognised by sniffing a sample of the file.
pub trait TextFileType: HasSlug {
    /// Returns `true` if the sample looks like this format.
    fn looks_like(sample: &[u8]) -> bool;
}

pub struct DltFileType;

pub struct PcapFileType;

pub struct BugreportFileType;

pub struct LogcatFileType;

pub struct DmesgFileType;

pub struct GenericFileType;

impl HasSlug for DltFileType {
    const SLUG: &'static str = "dlt";
}

impl HasSlug for PcapFileType {
    const SLUG: &'static str = "pcap";
}

impl HasSlug for BugreportFileType {
    const SLUG: &'static str = "bugreport";
}

impl HasSlug for LogcatFileType {
    const SLUG: &'static str = "logcat";
}

impl HasSlug for DmesgFileType {
    const SLUG: &'static str = "dmesg";
}

impl HasSlug for OtelFileType {
    const SLUG: &'static str = "otel";
}

impl HasSlug for GenericFileType {
    const SLUG: &'static str = "generic";
}

impl BinaryFileType for DltFileType {
    /// The DLT storage-header pattern `DLT\x01`.
    fn magic_bytes() -> (r: &'static [&'static [u8]])
        ensures
            r@.len() == 1,
            r@[0]@ == seq![0x44u8, 0x4c, 0x54, 0x01],
    {
        dlt_magic_bytes()
    }
}

impl BinaryFileType for PcapFileType {
    /// Classic pcap in both byte orders, with microsecond and nanosecond
    /// times, and pcapng.
    fn magic_bytes() -> (r: &'static [&'static [u8]])
        ensures
            r@.len() == 5,
            r@[0]@ == seq![0xd4u8, 0xc3, 0xb2, 0xa1],
            r@[1]@ == seq![0xa1u8, 0xb2, 0xc3, 0xd4],
            r@[2]@ == seq![0x4du8, 0x3c, 0xb2, 0xa1],
            r@[3]@ == seq![0xa1u8, 0xb2, 0x3c, 0x4d],
            r@[4]@ == seq![0x0au8, 0x0d, 0x0d, 0x0a],
    {
        pcap_magic_bytes()
    }
}

/// `needle` occurs in `hay`.
pub open spec fn contains_text(hay: Seq<char>, needle: Seq<char>) -> bool {
    exists|i: int| 0 <= i && i + needle.len() <= hay.len() && #[trigger] hay.subrange(i, i + needle.len()) == needle
}

/// Whether `needle` occurs in `hay`.
pub fn find_text(hay: &[char], needle: &[char]) -> (r: bool)
    ensures
        r == contains_text(hay@, needle@),
{
    let hn = hay.len();
    let nn = needle.len();
    if nn > hn {
        return false;
    }
    if nn == 0 {
        assert(hay@.subrange(0int, 0int + needle@.len()) =~= needle@);
        return true;
    }
    let last = hn - nn;
    let mut i: usize = 0;
    while i <= last
        invariant
            hn == hay@.len(),
            nn == needle@.len(),
            1 <= nn <= hn,
            last == hn - nn,
            i <= last + 1,
            forall|j: int| 0 <= j < i ==> #[trigger] hay@.subrange(j, j + needle@.len()) != needle@,
        decreases last + 1 - i,
    {
        let window = chars_range(hay, i, i + nn);
        if chars_eq(window.as_slice(), needle) {
            return true;
        }
        i += 1;
    }
    false
}

/// An OpenTelemetry JSON export: the text names its `resourceLogs`.
pub open spec fn otel_text(text: Seq<char>) -> bool {
    contains_text(text, "\"resourceLogs\""@) || contains_text(text, "\"resource_logs\""@)
}

/// Whether a sample looks like an OpenTelemetry JSON log export.
pub fn looks_like_otel(sample: &[u8]) -> (r: bool)
    ensures
        r == otel_text(utf8_lossy(sample@)),
{
    let text = utf8_lossy_string(sample);
    let chars = str_chars(text.as_str());
    let a = str_chars("\"resourceLogs\"");
    let b = str_chars("\"resource_logs\"");
    find_text(chars.as_slice(), a.as_slice()) || find_text(chars.as_slice(), b.as_slice())
}

impl TextFileType for BugreportFileType {
    fn looks_like(sample: &[u8]) -> (r: bool)
        ensures
            r ==> exists|y: i32| header_has_year(utf8_lossy(sample@), y),
            header_missing(utf8_lossy(sample@)) ==> !r,
    {
        looks_like_bugreport(sample)
    }
}

impl TextFileType for LogcatFileType {
    fn looks_like(sample: &[u8]) -> (r: bool)
        ensures
            r == sample_looks_like(LOGCAT_TIMESTAMP@, sample@),
    {
        looks_like_logcat(sample)
    }
}

impl TextFileType for DmesgFileType {
    fn looks_like(sample: &[u8]) -> (r: bool)
        ensures
            r == sample_looks_like(DMESG_TIMESTAMP@, sample@),
    {
        looks_like_dmesg(sample)
    }
}

impl TextFileType for OtelFileType {
    fn looks_like(sample: &[u8]) -> (r: bool)
        ensures
            r == otel_text(utf8_lossy(sample@)),
    {
        looks_like_otel(sample)
    }
}

impl TextFileType for GenericFileType {
    /// The catch-all: every file is generic text.
    fn looks_like(sample: &[u8]) -> (r: bool)
        ensures
            r,
    {
        true
    }
}

/// The registered text formats, in the order in which they are tried.
#[derive(Clone, Copy, Debug, PartialEq, Eq, Structural)]
pub enum TextFormat {
    Bugreport,
    Logcat,
    Dmesg,
    Otel,
    Generic,
}

/// The first `SNIFF_BYTES` bytes of a sample.
pub open spec fn sniffed(sample: Seq<u8>) -> Seq<u8> {
    if sample.len() > SNIFF_BYTES { sample.take(SNIFF_BYTES as int) } else { sample }
}

/// Picks the text format of a file from a sample of its first bytes: each
/// sniffer looks at the first 4096 bytes, and the first format that
/// recognises them wins, generic text when none does.
pub fn detect_text_type(sample: &[u8]) -> (r: TextFormat)
    ensures
        r == TextFormat::Logcat ==> sample_looks_like(LOGCAT_TIMESTAMP@, sniffed(sample@)),
        r == TextFormat::Dmesg ==> sample_looks_like(DMESG_TIMESTAMP@, sniffed(sample@)),
        r == TextFormat::Otel ==> otel_text(utf8_lossy(sniffed(sample@))),
        r == TextFormat::Bugreport ==> exists|y: i32| header_has_year(utf8_lossy(sniffed(sample@)), y),
        r == TextFormat::Dmesg || r == TextFormat::Otel || r == TextFormat::Generic ==> !sample_looks_like(
            LOGCAT_TIMESTAMP@,
            sniffed(sample@),
        ),
        r == TextFormat::Otel || r == TextFormat::Generic ==> !sample_looks_like(DMESG_TIMESTAMP@, sniffed(sample@)),
        r == TextFormat::Generic ==> !otel_text(utf8_lossy(sniffed(sample@))),
{
    let n = if sample.len() > SNIFF_BYTES { SNIFF_BYTES } else { sample.len() };
    let mut head: Vec<u8> = Vec::new();
    let mut i: usize = 0;
    while i < n
        invariant
            n <= sample@.len(),
            i <= n,
            head@ == sample@.take(i as int),
        decreases n - i,
    {
        head.push(sample[i]);
        i += 1;
        assert(head@ =~= sample@.take(i as int));
    }
    assert(head@ =~= sniffed(sample@));
    if looks_like_bugreport(head.as_slice()) {
        TextFormat::Bugreport
    } else if looks_like_logcat(head.as_slice()) {
        TextFormat::Logcat
    } else if looks_like_dmesg(head.as_slice()) {
        TextFormat::Dmesg
    } else if looks_like_otel(head.as_slice()) {
        TextFormat::Otel
    } else {
        TextFormat::Generic
    }
}

} // verus!
