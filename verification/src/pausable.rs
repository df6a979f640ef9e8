use vstd::prelude::*;

verus! {

/// A service running in the background that can be paused, resumed and
/// stopped. Each call answers `Err(())` when it changes nothing.
pub trait BackgroundService {
    fn pause(&self) -> Result<(), ()>;
    fn resume(&self) -> Result<(), ()>;
    fn stop(&self) -> Result<(), ()>;
}

/// Whether pausable work is paused or cancelled.
#[derive(Debug, Clone, Copy, PartialEq, Eq)]
pub struct PauseFlags {
    pub paused: bool,
    pub cancelled: bool,
}

/// What a pausable piece of work does when it is polled.
#[derive(Debug, Clone, Copy, PartialEq, Eq)]
pub enum PollDecision {
    /// The work was cancelled: it must not go on
    Cancelled,
    /// The work is paused: register to be woken and wait
    Wait,
    /// The work may make progress
    Run,
}

/// The flags after a pause.
pub open spec fn spec_paused(f: PauseFlags) -> PauseFlags {
    PauseFlags { paused: true, ..f }
}

/// The flags after a resume.
pub open spec fn spec_resumed(f: PauseFlags) -> PauseFlags {
    PauseFlags { paused: false, ..f }
}

/// The flags after a stop.
pub open spec fn spec_stopped(f: PauseFlags) -> PauseFlags {
    PauseFlags { cancelled: true, ..f }
}

/// What polled work does under flags `f`: cancellation wins over pausing.
pub open spec fn spec_poll_decision(f: PauseFlags) -> PollDecision {
    if f.cancelled {
        PollDecision::Cancelled
    } else if f.paused {
        PollDecision::Wait
    } else {
        PollDecision::Run
    }
}

impl PauseFlags {
    /// Running: neither paused nor cancelled.
    pub fn new() -> (r: PauseFlags)
        ensures
            r == (PauseFlags { paused: false, cancelled: false }),
    {
        PauseFlags { paused: false, cancelled: false }
    }

    /// Pauses; fails if already paused.
    pub fn pause(&mut self) -> (r: Result<(), ()>)
        ensures
            r is Err <==> old(self).paused,
            *final(self) == spec_paused(*old(self)),
    {
        if self.paused {
            return Err(());
        }
        self.paused = true;
        Ok(())
    }

    /// Resumes; fails if not paused. On success the waiting work is to be woken.
    pub fn resume(&mut self) -> (r: Result<(), ()>)
        ensures
            r is Err <==> !old(self).paused,
            *final(self) == spec_resumed(*old(self)),
    {
        if !self.paused {
            return Err(());
        }
        self.paused = false;
        Ok(())
    }

    /// Cancels; fails if already cancelled.
    pub fn stop(&mut self) -> (r: Result<(), ()>)
        ensures
            r is Err <==> old(self).cancelled,
            *final(self) == spec_stopped(*old(self)),
    {
        if self.cancelled {
            return Err(());
        }
        self.cancelled = true;
        Ok(())
    }

    /// What polled work does: cancellation wins over pausing.
    pub fn poll_decision(&self) -> (r: PollDecision)
        ensures
            r == spec_poll_decision(*self),
    {
        if self.cancelled {
            PollDecision::Cancelled
        } else if self.paused {
            PollDecision::Wait
        } else {
            PollDecision::Run
        }
    }
}

} // verus!
