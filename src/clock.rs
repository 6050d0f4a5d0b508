use vstd::prelude::*;

verus! {

/// Relies on std's `SystemTime::elapsed`, called on `UNIX_EPOCH`: the wall
/// clock in whole milliseconds since the epoch, or `None` when the clock
/// stands before the epoch. The value depends on the moment of the call, so
/// nothing is promised of it.
#[verifier::external_body]
fn epoch_millis() -> (r: Option<u128>) {
    match std::time::UNIX_EPOCH.elapsed() {
        Ok(d) => Some(d.as_millis()),
        Err(_) => None,
    }
}

/// A clock reading in milliseconds as a `u64`: a clock before the epoch
/// reads 0, and one past the range of `u64` reads `u64::MAX`.
pub fn millis_of(ms: Option<u128>) -> (r: u64)
    ensures
        r == match ms {
            Some(m) => if m > u64::MAX {
                u64::MAX
            } else {
                m as u64
            },
            None => 0,
        },
{
    match ms {
        Some(m) => {
            if m > u64::MAX as u128 {
                u64::MAX
            } else {
                m as u64
            }
        },
        None => 0,
    }
}

/// The current wall-clock time in milliseconds since the Unix epoch, as
/// `millis_of` reads it.
pub fn get_current_time() -> (r: u64) {
    millis_of(epoch_millis())
}

/// The phase of a clocker.
#[derive(Debug, Clone, Copy, PartialEq, Eq, Structural)]
pub enum ClockerStatus {
    Waiting,
    Running,
    Stopped,
}

/// What a clocker holds.
pub struct ClockerView {
    pub start_time: Option<u64>,
    pub end_time: Option<u64>,
    pub status: ClockerStatus,
}

/// A stopwatch over wall-clock milliseconds: it waits, runs from a start
/// time, and stops at an end time.
pub struct Clocker {
    start_time: Option<u64>,
    end_time: Option<u64>,
    status: ClockerStatus,
}

impl View for Clocker {
    type V = ClockerView;

    closed spec fn view(&self) -> ClockerView {
        ClockerView { start_time: self.start_time, end_time: self.end_time, status: self.status }
    }
}

impl ClockerView {
    /// A running or stopped clocker has a start time; a stopped one has an
    /// end time, and a waiting or running one has none.
    pub open spec fn wf(self) -> bool {
        &&& (self.status != ClockerStatus::Waiting ==> self.start_time is Some)
        &&& (self.status == ClockerStatus::Stopped <==> self.end_time is Some)
    }

    /// The time measured at instant `now`, never below zero.
    pub open spec fn duration_at(self, now: u64) -> u64 {
        match self.status {
            ClockerStatus::Waiting => 0,
            ClockerStatus::Running => if now >= self.start_time->0 {
                (now - self.start_time->0) as u64
            } else {
                0
            },
            ClockerStatus::Stopped => if self.end_time->0 >= self.start_time->0 {
                (self.end_time->0 - self.start_time->0) as u64
            } else {
                0
            },
        }
    }
}

impl Clocker {
    pub fn new() -> (r: Clocker)
        ensures
            r@ == (ClockerView { start_time: None, end_time: None, status: ClockerStatus::Waiting }),
            r@.wf(),
    {
        Clocker { start_time: None, end_time: None, status: ClockerStatus::Waiting }
    }

    /// Starts (or restarts) the clocker at instant `now`.
    pub fn start_at(&mut self, now: u64)
        ensures
            final(self)@ == (ClockerView { start_time: Some(now), end_time: None, status: ClockerStatus::Running }),
            final(self)@.wf(),
    {
        self.start_time = Some(now);
        self.end_time = None;
        self.status = ClockerStatus::Running;
    }

    /// Starts (or restarts) the clocker now.
    pub fn start(&mut self)
        ensures
            final(self)@.start_time is Some,
            final(self)@.end_time is None,
            final(self)@.status == ClockerStatus::Running,
            final(self)@.wf(),
    {
        let now: u64 = Self::get_current_timestamp();
        self.start_at(now);
    }

    /// Stops a running clocker at instant `now`; any other is left as it is.
    pub fn stop_at(&mut self, now: u64)
        ensures
            old(self)@.status == ClockerStatus::Running ==> final(self)@ == (ClockerView {
                start_time: old(self)@.start_time,
                end_time: Some(now),
                status: ClockerStatus::Stopped,
            }),
            old(self)@.status != ClockerStatus::Running ==> final(self)@ == old(self)@,
            old(self)@.wf() ==> final(self)@.wf(),
    {
        if self.status == ClockerStatus::Running {
            self.end_time = Some(now);
            self.status = ClockerStatus::Stopped;
        }
    }

    /// Stops a running clocker now; any other is left as it is.
    pub fn stop(&mut self)
        ensures
            old(self)@.status == ClockerStatus::Running ==> final(self)@.start_time == old(self)@.start_time
                && final(self)@.end_time is Some && final(self)@.status == ClockerStatus::Stopped,
            old(self)@.status != ClockerStatus::Running ==> final(self)@ == old(self)@,
            old(self)@.wf() ==> final(self)@.wf(),
    {
        let now: u64 = Self::get_current_timestamp();
        self.stop_at(now);
    }

    pub fn get_status(&self) -> (r: &ClockerStatus)
        ensures
            *r == self@.status,
    {
        &self.status
    }

    pub fn get_start_time(&self) -> (r: u64)
        requires
            self@.start_time is Some,
        ensures
            r == self@.start_time->0,
    {
        self.start_time.unwrap()
    }

    pub fn get_end_time(&self) -> (r: Option<u64>)
        ensures
            r == self@.end_time,
    {
        self.end_time
    }

    /// The time measured at instant `now`: up to `now` while running, up to
    /// the end once stopped, and nothing before the start.
    pub fn duration_at(&self, now: u64) -> (r: u64)
        requires
            self@.wf(),
        ensures
            r == self@.duration_at(now),
    {
        match self.status {
            ClockerStatus::Waiting => 0,
            ClockerStatus::Running => {
                let start: u64 = self.start_time.unwrap();
                if now >= start {
                    now - start
                } else {
                    0
                }
            },
            ClockerStatus::Stopped => {
                let start: u64 = self.start_time.unwrap();
                let end: u64 = self.end_time.unwrap();
                if end >= start {
                    end - start
                } else {
                    0
                }
            },
        }
    }

    /// The time measured so far, read against the clock now.
    pub fn duration(&self) -> (r: u64)
        requires
            self@.wf(),
        ensures
            self@.status != ClockerStatus::Running ==> r == self@.duration_at(0),
    {
        let now: u64 = Self::get_current_timestamp();
        self.duration_at(now)
    }

    /// The time measured so far, read against the clock now.
    pub fn get_duration(&self) -> (r: u64)
        requires
            self@.wf(),
        ensures
            self@.status != ClockerStatus::Running ==> r == self@.duration_at(0),
    {
        self.duration()
    }

    /// The recorded length: from start to end once stopped, else nothing.
    pub fn elapsed(&self) -> (r: u64)
        requires
            self@.wf(),
        ensures
            r == (if self@.status == ClockerStatus::Stopped { self@.duration_at(0) } else { 0 }),
    {
        if self.status == ClockerStatus::Stopped {
            self.duration_at(0)
        } else {
            0
        }
    }

    pub fn is_running(&self) -> (r: bool)
        ensures
            r == (self@.status == ClockerStatus::Running),
    {
        self.status == ClockerStatus::Running
    }

    pub fn is_stop(&self) -> (r: bool)
        ensures
            r == (self@.end_time is Some),
    {
        self.end_time.is_some()
    }

    /// The wall clock now, in milliseconds since the Unix epoch.
    pub fn get_current_timestamp() -> (r: u64) {
        get_current_time()
    }
}

} // verus!
