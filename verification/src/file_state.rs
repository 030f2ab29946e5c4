//! Per-source state of a log file that the user can adjust: the time
//! offsets with which its lines are shown.

use vstd::prelude::*;

verus! {

/// State of the formats whose lines carry one time offset (generic,
/// logcat, dmesg, OpenTelemetry).
pub struct SimpleFileState {
    time_offset_ms: i64,
}

impl SimpleFileState {
    pub closed spec fn offset(&self) -> i64 {
        self.time_offset_ms
    }

    /// No offset.
    pub fn new() -> (r: Self)
        ensures
            r.offset() == 0,
    {
        SimpleFileState { time_offset_ms: 0 }
    }

    /// The current time offset in milliseconds.
    pub fn time_offset_ms(&self) -> (r: i64)
        ensures
            r == self.offset(),
    {
        self.time_offset_ms
    }

    /// Sets the time offset in milliseconds.
    pub fn set_time_offset_ms(&mut self, v: i64)
        ensures
            final(self).offset() == v,
    {
        self.time_offset_ms = v;
    }
}

impl Default for SimpleFileState {
    fn default() -> (r: Self)
        ensures
            r.offset() == 0,
    {
        Self::new()
    }
}

/// Schema version of the saved bugreport state: version 0 held one offset
/// (the logcat side), version 1 holds one per side.
pub const BUGREPORT_STATE_VERSION: u32 = 1;

/// Per-source state for bugreport files: the logcat and dmesg halves are
/// calibrated independently so they can be aligned against each other.
/// The logcat offset starts at 0 (logcat lines carry wall-clock times); the
/// dmesg offset is set to the detected boot time on first open.
pub struct BugreportFileState {
    logcat_offset_ms: i64,
    dmesg_offset_ms: i64,
}

impl BugreportFileState {
    pub closed spec fn logcat_offset(&self) -> i64 {
        self.logcat_offset_ms
    }

    pub closed spec fn dmesg_offset(&self) -> i64 {
        self.dmesg_offset_ms
    }

    /// Both offsets 0.
    pub fn new() -> (r: Self)
        ensures
            r.logcat_offset() == 0,
            r.dmesg_offset() == 0,
    {
        BugreportFileState { logcat_offset_ms: 0, dmesg_offset_ms: 0 }
    }

    /// The state of a version-0 save, which only had the logcat offset; the
    /// dmesg offset stays 0 so that the boot time is detected on open.
    fn migrate_from_v0(time_offset_ms: i64) -> (r: Self)
        ensures
            r.logcat_offset() == time_offset_ms,
            r.dmesg_offset() == 0,
    {
        let mut s = Self::new();
        s.set_logcat_offset_ms(time_offset_ms);
        s
    }

    /// The state of a save of schema version `state_version`: version 0
    /// carried `time_offset_ms` alone; later versions carry both offsets.
    pub fn from_saved(state_version: u32, time_offset_ms: i64, logcat_offset_ms: i64, dmesg_offset_ms: i64) -> (r: Self)
        ensures
            state_version == 0 ==> r.logcat_offset() == time_offset_ms && r.dmesg_offset() == 0,
            state_version != 0 ==> r.logcat_offset() == logcat_offset_ms && r.dmesg_offset()
                == dmesg_offset_ms,
    {
        if state_version == 0 {
            Self::migrate_from_v0(time_offset_ms)
        } else {
            BugreportFileState { logcat_offset_ms, dmesg_offset_ms }
        }
    }

    pub fn logcat_offset_ms(&self) -> (r: i64)
        ensures
            r == self.logcat_offset(),
    {
        self.logcat_offset_ms
    }

    pub fn set_logcat_offset_ms(&mut self, v: i64)
        ensures
            final(self).logcat_offset() == v,
            final(self).dmesg_offset() == old(self).dmesg_offset(),
    {
        self.logcat_offset_ms = v;
    }

    pub fn dmesg_offset_ms(&self) -> (r: i64)
        ensures
            r == self.dmesg_offset(),
    {
        self.dmesg_offset_ms
    }

    pub fn set_dmesg_offset_ms(&mut self, v: i64)
        ensures
            final(self).dmesg_offset() == v,
            final(self).logcat_offset() == old(self).logcat_offset(),
    {
        self.dmesg_offset_ms = v;
    }

    /// Sets the dmesg offset to `boot_time_ms` only while it is still 0: a
    /// non-zero offset was restored from a saved session (possibly adjusted
    /// by the user) and is kept. A real device never boots at exactly the
    /// epoch.
    pub fn init_dmesg_offset_if_zero(&mut self, boot_time_ms: i64)
        ensures
            final(self).dmesg_offset() == if old(self).dmesg_offset() == 0 {
                boot_time_ms
            } else {
                old(self).dmesg_offset()
            },
            final(self).logcat_offset() == old(self).logcat_offset(),
    {
        if self.dmesg_offset_ms == 0 {
            self.dmesg_offset_ms = boot_time_ms;
        }
    }
}

impl Default for BugreportFileState {
    fn default() -> (r: Self)
        ensures
            r.logcat_offset() == 0,
            r.dmesg_offset() == 0,
    {
        Self::new()
    }
}

} // verus!
