//! Kernel ring-buffer logs (`dmesg`): lines that start with
//! `[SECONDS.MICROSECONDS]` since boot; a line without that header continues
//! the entry before it.

use crate::detect::DMESG_TIMESTAMP;
use crate::pattern::{groups_view, parse_i64, parsed_i64, regex_captures, utc_micros, utc_timestamp_micros, Pattern};
use crate::text::{push_char, push_str};
use vstd::prelude::*;

verus! {

/// A dmesg entry. The timestamp is the time since boot, counted from the
/// Unix epoch so that ordering and calibration work.
pub struct DmesgLogLine {
    /// The entry's lines as read, joined by newlines.
    pub raw_line: String,
    /// Microseconds since the Unix epoch.
    pub timestamp_micros: i64,
    /// The entry's message (continuation lines included, joined by
    /// newlines).
    pub message_text: String,
    /// 1-based number of the entry's first line.
    pub line_number: usize,
}

impl View for DmesgLogLine {
    type V = (Seq<char>, i64, Seq<char>, usize);

    open spec fn view(&self) -> (Seq<char>, i64, Seq<char>, usize) {
        (self.raw_line@, self.timestamp_micros, self.message_text@, self.line_number)
    }
}

/// The entry a timestamped line starts: its seconds and exactly six
/// digits of microseconds since boot, and the rest of the line as message.
pub open spec fn dmesg_entry(raw: Seq<char>, line_number: usize) -> Option<(Seq<char>, i64, Seq<char>, usize)> {
    match regex_captures(DMESG_TIMESTAMP@, raw) {
        Some(Some(g)) => if g.len() > 3 && g[1] is Some && g[2] is Some && g[3] is Some {
            match (parsed_i64(g[1]->0), parsed_i64(g[2]->0)) {
                (Some(s), Some(u)) => if 0 <= s && 0 <= u && s * 1_000_000 + u <= i64::MAX {
                    let total = s * 1_000_000 + u;
                    match utc_micros((total / 1_000_000) as i64, ((total % 1_000_000) * 1000) as u32) {
                        Some(t) => Some((raw, t, g[3]->0, line_number)),
                        None => None,
                    }
                } else {
                    None
                },
                _ => None,
            }
        } else {
            None
        },
        _ => None,
    }
}

pub(crate) fn read_entry(p: &Pattern, raw: String, line_number: usize) -> (r: Option<DmesgLogLine>)
    requires
        p@ == DMESG_TIMESTAMP@,
    ensures
        match dmesg_entry(raw@, line_number) {
            Some(e) => r matches Some(l) && l@ == e,
            None => r is None,
        },
{
    let g = match p.captures(raw.as_str()) {
        Some(Some(g)) => g,
        _ => return None,
    };
    let ghost gv = groups_view(g);
    if g.len() <= 3 {
        return None;
    }
    let (secs_text, micros_text, message) = match (&g[1], &g[2], &g[3]) {
        (Some(a), Some(b), Some(c)) => (a, b, c),
        _ => return None,
    };
    let secs = match parse_i64(secs_text.as_str()) {
        Some(v) => v,
        None => return None,
    };
    let micros = match parse_i64(micros_text.as_str()) {
        Some(v) => v,
        None => return None,
    };
    if secs < 0 || micros < 0 || secs > (i64::MAX - micros) / 1_000_000 {
        proof {
            if 0 <= secs && 0 <= micros {
                assert(secs * 1_000_000 + micros > i64::MAX) by (nonlinear_arith)
                    requires
                        secs > (i64::MAX - micros) / 1_000_000,
                        0 <= micros,
                {
                }
            }
        }
        return None;
    }
    assert(secs * 1_000_000 + micros <= i64::MAX) by (nonlinear_arith)
        requires
            secs <= (i64::MAX - micros) / 1_000_000,
            0 <= secs,
            0 <= micros,
    {
    }
    let total = secs * 1_000_000 + micros;
    let nsecs = ((total % 1_000_000) * 1000) as u32;
    match utc_timestamp_micros(total / 1_000_000, nsecs) {
        Some(t) => Some(DmesgLogLine { raw_line: raw, timestamp_micros: t, message_text: message.clone(), line_number }),
        None => None,
    }
}

/// Parse a single dmesg line. Returns `None` for lines that do not match
/// the expected format.
pub fn parse_dmesg_line(raw: String, line_number: usize) -> (r: Option<DmesgLogLine>)
    ensures
        r matches Some(l) ==> dmesg_entry(raw@, line_number) == Some(l@),
        crate::pattern::regex_compiles(DMESG_TIMESTAMP@) ==> (dmesg_entry(raw@, line_number) is Some ==> r is Some),
{
    match Pattern::compile(DMESG_TIMESTAMP) {
        Some(p) => read_entry(&p, raw, line_number),
        None => None,
    }
}

/// `entry` with one more line: a newline and `raw` appended to both its
/// raw text and its message.
pub open spec fn continued(entry: (Seq<char>, i64, Seq<char>, usize), raw: Seq<char>) -> (Seq<char>, i64, Seq<char>, usize) {
    (entry.0.push('\n') + raw, entry.1, entry.2.push('\n') + raw, entry.3)
}

/// The entry of a line, taken by its view.
pub open spec fn entry_view(l: Option<DmesgLogLine>) -> Option<(Seq<char>, i64, Seq<char>, usize)> {
    match l {
        Some(l) => Some(l@),
        None => None,
    }
}

/// One line fed to an assembler holding `held`: the entry handed out, and
/// the entry held afterwards.
pub open spec fn assemble_step(
    held: Option<(Seq<char>, i64, Seq<char>, usize)>,
    raw: Seq<char>,
    line_number: usize,
) -> (Option<(Seq<char>, i64, Seq<char>, usize)>, Option<(Seq<char>, i64, Seq<char>, usize)>) {
    match dmesg_entry(raw, line_number) {
        Some(e) => (held, Some(e)),
        None => (None, match held {
            Some(h) => Some(continued(h, raw)),
            None => None,
        }),
    }
}

/// The (line, number) pairs `lines` fed in turn to an assembler holding
/// `held`: the entries handed out, in order, and the entry held at the end.
pub open spec fn assembled(
    held: Option<(Seq<char>, i64, Seq<char>, usize)>,
    lines: Seq<(Seq<char>, usize)>,
) -> (Seq<(Seq<char>, i64, Seq<char>, usize)>, Option<(Seq<char>, i64, Seq<char>, usize)>)
    decreases lines.len(),
{
    if lines.len() == 0 {
        (Seq::empty(), held)
    } else {
        let (out, h) = assembled(held, lines.drop_last());
        let (e, next) = assemble_step(h, lines.last().0, lines.last().1);
        (match e {
            Some(x) => out.push(x),
            None => out,
        }, next)
    }
}

/// Reading in batches of any size gives the same entries: feeding a run
/// of lines in two parts, with the held entry carried from the first part
/// to the second, hands out the entries of feeding it whole, and ends
/// holding the same entry.
pub proof fn lemma_assembled_in_batches(
    held: Option<(Seq<char>, i64, Seq<char>, usize)>,
    first: Seq<(Seq<char>, usize)>,
    second: Seq<(Seq<char>, usize)>,
)
    ensures
        ({
            let (out1, h1) = assembled(held, first);
            let (out2, h2) = assembled(h1, second);
            assembled(held, first + second) == (out1 + out2, h2)
        }),
    decreases second.len(),
{
    if second.len() == 0 {
        assert(first + second =~= first);
        let (out1, h1) = assembled(held, first);
        assert(out1 + Seq::empty() =~= out1);
    } else {
        let init = second.drop_last();
        lemma_assembled_in_batches(held, first, init);
        assert((first + second).drop_last() =~= first + init);
        assert((first + second).last() == second.last());
        let (out1, h1) = assembled(held, first);
        let (o, h) = assembled(h1, init);
        let (e, next) = assemble_step(h, second.last().0, second.last().1);
        match e {
            Some(x) => {
                assert((out1 + o).push(x) =~= out1 + o.push(x));
            },
            None => {},
        }
    }
}

/// Assembles dmesg entries from lines: an entry is handed out once the
/// next timestamped line (or the end of input) shows it is complete.
pub struct DmesgAssembler {
    pattern: Option<Pattern>,
    pending: Option<DmesgLogLine>,
}

impl DmesgAssembler {
    /// The entry held back for possible continuation lines.
    pub closed spec fn held(&self) -> Option<(Seq<char>, i64, Seq<char>, usize)> {
        match self.pending {
            Some(l) => Some(l@),
            None => None,
        }
    }

    /// The pattern held, if any, is the dmesg header pattern.
    pub closed spec fn wf(&self) -> bool {
        self.pattern matches Some(p) ==> p@ == DMESG_TIMESTAMP@
    }

    /// The assembler recognises timestamped lines.
    pub closed spec fn ready(&self) -> bool {
        self.pattern matches Some(p) && p@ == DMESG_TIMESTAMP@
    }

    pub fn new() -> (r: Self)
        ensures
            r.wf(),
            r.held() is None,
            r.ready() == crate::pattern::regex_compiles(DMESG_TIMESTAMP@),
    {
        DmesgAssembler { pattern: Pattern::compile(DMESG_TIMESTAMP), pending: None }
    }

    /// Feeds the next line. A timestamped line starts a new entry and hands
    /// out the one it completes; any other line is appended to the held
    /// entry, or dropped when there is none.
    pub fn push_line(&mut self, raw: String, line_number: usize) -> (r: Option<DmesgLogLine>)
        requires
            old(self).wf(),
        ensures
            final(self).wf(),
            final(self).ready() == old(self).ready(),
            !old(self).ready() ==> r is None && final(self).held() == old(self).held(),
            old(self).ready() ==> match dmesg_entry(raw@, line_number) {
                Some(e) => final(self).held() == Some(e) && match old(self).held() {
                    Some(h) => r matches Some(l) && l@ == h,
                    None => r is None,
                },
                None => r is None && final(self).held() == match old(self).held() {
                    Some(h) => Some(continued(h, raw@)),
                    None => None,
                },
            },
            old(self).ready() ==> (entry_view(r), final(self).held()) == assemble_step(
                old(self).held(),
                raw@,
                line_number,
            ),
    {
        let p = match &self.pattern {
            Some(p) => p,
            None => return None,
        };
        let parsed = read_entry(p, raw.clone(), line_number);
        match parsed {
            Some(entry) => {
                let prev = self.pending.take();
                self.pending = Some(entry);
                prev
            },
            None => {
                match &mut self.pending {
                    Some(prev) => {
                        push_char(&mut prev.raw_line, '\n');
                        push_str(&mut prev.raw_line, raw.as_str());
                        push_char(&mut prev.message_text, '\n');
                        push_str(&mut prev.message_text, raw.as_str());
                    },
                    None => {},
                }
                None
            },
        }
    }

    /// Hands out the held entry at the end of input.
    pub fn finish(&mut self) -> (r: Option<DmesgLogLine>)
        requires
            old(self).wf(),
        ensures
            final(self).wf(),
            final(self).held() is None,
            final(self).ready() == old(self).ready(),
            match old(self).held() {
                Some(h) => r matches Some(l) && l@ == h,
                None => r is None,
            },
    {
        self.pending.take()
    }
}

} // verus!
