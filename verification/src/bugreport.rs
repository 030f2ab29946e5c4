//! Android bugreports: logcat lines and kernel (dmesg) lines interleaved,
//! in sections separated by `------` lines.

use crate::chars::{has_prefix, starts_with_lit, str_chars};
use crate::detect::{DMESG_TIMESTAMP, LOGCAT_TIMESTAMP};
use crate::file_state::BugreportFileState;
use crate::dmesg::{continued, dmesg_entry, read_entry, DmesgLogLine};
use crate::logcat::{locate_logcat, logcat_fields, LogcatLogLine};
use crate::pattern::{local_datetime_millis, Pattern};
use crate::text::{push_char, push_str};
use vstd::prelude::*;

verus! {

/// A line of a bugreport: a logcat line or a kernel entry.
pub enum BugreportLogLine {
    Logcat(LogcatLogLine),
    Dmesg(DmesgLogLine),
}

impl BugreportLogLine {
    /// The time at which the line is shown, in microseconds since the
    /// epoch: a logcat line's time moved by the logcat offset, a kernel
    /// entry's time since boot moved by the dmesg offset (the boot time).
    pub fn timestamp_micros(&self, state: &BugreportFileState) -> (r: i128)
        ensures
            r == match self {
                BugreportLogLine::Logcat(l) => (l.timestamp_ms + state.logcat_offset()) * 1000,
                BugreportLogLine::Dmesg(d) => d.timestamp_micros + state.dmesg_offset() * 1000,
            },
    {
        match self {
            BugreportLogLine::Logcat(l) => (l.timestamp_ms as i128 + state.logcat_offset_ms() as i128) * 1000,
            BugreportLogLine::Dmesg(d) => d.timestamp_micros as i128 + state.dmesg_offset_ms() as i128 * 1000,
        }
    }
}

/// A line that separates sections: it can never continue a kernel entry.
pub open spec fn is_separator(raw: Seq<char>) -> bool {
    has_prefix(raw, "------"@)
}

/// Sorts the lines of a bugreport into logcat lines and kernel entries. A
/// kernel entry is held back until the next line shows that it has no
/// more continuation lines.
pub struct BugreportAssembler {
    year: i32,
    dmesg: Option<Pattern>,
    logcat: Option<Pattern>,
    pending: Option<DmesgLogLine>,
}

impl BugreportAssembler {
    /// The patterns held are the kernel and logcat line patterns.
    pub closed spec fn wf(&self) -> bool {
        &&& self.dmesg matches Some(p) ==> p@ == DMESG_TIMESTAMP@
        &&& self.logcat matches Some(p) ==> p@ == LOGCAT_TIMESTAMP@
    }

    /// Both patterns compiled.
    pub closed spec fn ready(&self) -> bool {
        self.dmesg is Some && self.logcat is Some
    }

    /// The year that logcat lines are read in.
    pub closed spec fn spec_year(&self) -> i32 {
        self.year
    }

    /// The kernel entry held back.
    pub closed spec fn held(&self) -> Option<(Seq<char>, i64, Seq<char>, usize)> {
        match self.pending {
            Some(l) => Some(l@),
            None => None,
        }
    }

    /// An assembler for a bugreport whose logcat lines are in `year`.
    pub fn new(year: i32) -> (r: Self)
        ensures
            r.wf(),
            r.held() is None,
            r.spec_year() == year,
            r.ready() == (crate::pattern::regex_compiles(DMESG_TIMESTAMP@)
                && crate::pattern::regex_compiles(LOGCAT_TIMESTAMP@)),
    {
        BugreportAssembler {
            year,
            dmesg: Pattern::compile(DMESG_TIMESTAMP),
            logcat: Pattern::compile(LOGCAT_TIMESTAMP),
            pending: None,
        }
    }

    /// Hands out the held kernel entry, if any.
    fn flush(&mut self, out: &mut Vec<BugreportLogLine>)
        requires
            old(self).wf(),
        ensures
            final(self).wf(),
            final(self).held() is None,
            final(self).ready() == old(self).ready(),
            final(self).spec_year() == old(self).spec_year(),
            match old(self).held() {
                Some(h) => final(out)@.len() == old(out)@.len() + 1 && (final(out)@.last() matches BugreportLogLine::Dmesg(l) && l@ == h),
                None => final(out)@ == old(out)@,
            },
            forall|i: int| 0 <= i < old(out)@.len() ==> final(out)@[i] == old(out)@[i],
    {
        match self.pending.take() {
            Some(p) => out.push(BugreportLogLine::Dmesg(p)),
            None => {},
        }
    }

    /// Feeds the next line and returns the lines it completes, in order:
    /// - a section separator hands out the held kernel entry;
    /// - a kernel line hands out the held entry and is held in turn;
    /// - a logcat line hands out the held entry, then itself;
    /// - any other line continues the held entry (or is dropped).
    pub fn push_line(&mut self, raw: String, line_number: usize) -> (r: Vec<BugreportLogLine>)
        requires
            old(self).wf(),
        ensures
            final(self).wf(),
            final(self).ready() == old(self).ready(),
            final(self).spec_year() == old(self).spec_year(),
            old(self).ready() ==> {
                let held_out = match old(self).held() {
                    Some(h) => r@.len() >= 1 && (r@[0] matches BugreportLogLine::Dmesg(l) && l@ == h),
                    None => true,
                };
                let n_held: int = if old(self).held() is Some { 1 } else { 0 };
                if is_separator(raw@) {
                    &&& held_out
                    &&& r@.len() == n_held
                    &&& final(self).held() is None
                } else if dmesg_entry(raw@, line_number) is Some {
                    &&& held_out
                    &&& r@.len() == n_held
                    &&& final(self).held() == dmesg_entry(raw@, line_number)
                } else if logcat_fields(raw@, old(self).spec_year()) is None {
                    &&& r@.len() == 0
                    &&& final(self).held() == match old(self).held() {
                        Some(h) => Some(continued(h, raw@)),
                        None => None,
                    }
                } else {
                    ||| {
                        &&& held_out
                        &&& r@.len() == n_held + 1
                        &&& final(self).held() is None
                        &&& r@.last() matches BugreportLogLine::Logcat(l) && l.raw_line@ == raw@
                            && l.line_number == line_number
                            && l.message_text@ == (logcat_fields(raw@, old(self).spec_year())->0).1
                    }
                    ||| {
                        &&& r@.len() == 0
                        &&& final(self).held() == match old(self).held() {
                            Some(h) => Some(continued(h, raw@)),
                            None => None,
                        }
                    }
                }
            },
    {
        let mut out: Vec<BugreportLogLine> = Vec::new();
        if self.dmesg.is_none() || self.logcat.is_none() {
            return out;
        }
        let chars = str_chars(raw.as_str());
        if starts_with_lit(chars.as_slice(), "------") {
            self.flush(&mut out);
            return out;
        }
        let entry = match &self.dmesg {
            Some(p) => read_entry(p, raw.clone(), line_number),
            None => None,
        };
        if let Some(e) = entry {
            self.flush(&mut out);
            self.pending = Some(e);
            return out;
        }
        let located = match &self.logcat {
            Some(p) => locate_logcat(p, raw.as_str(), self.year),
            None => None,
        };
        let line = match located {
            Some((fields, message)) => match local_datetime_millis(fields) {
                Some(ms) => Some(LogcatLogLine { raw_line: raw.clone(), timestamp_ms: ms, message_text: message, line_number }),
                None => None,
            },
            None => None,
        };
        match line {
            Some(l) => {
                self.flush(&mut out);
                out.push(BugreportLogLine::Logcat(l));
            },
            None => {
                match &mut self.pending {
                    Some(prev) => {
                        push_char(&mut prev.raw_line, '\n');
                        push_str(&mut prev.raw_line, raw.as_str());
                        push_char(&mut prev.message_text, '\n');
                        push_str(&mut prev.message_text, raw.as_str());
                    },
                    None => {},
                }
            },
        }
        out
    }

    /// Hands out the held kernel entry at the end of input.
    pub fn finish(&mut self) -> (r: Option<DmesgLogLine>)
        requires
            old(self).wf(),
        ensures
            final(self).wf(),
            final(self).held() is None,
            match old(self).held() {
                Some(h) => r matches Some(l) && l@ == h,
                None => r is None,
            },
    {
        self.pending.take()
    }
}

} // verus!
