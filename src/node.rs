//! The restart policy of a supervised session process, and the decision a
//! stopped process leads to.
use vstd::prelude::*;
use core::time::Duration;

verus! {

/// The duration of a whole number of seconds.
pub uninterp spec fn duration_of_secs(secs: u64) -> Duration;

/// Relies on `Duration::from_secs`, which builds a duration of whole
/// seconds from the count alone, and does not panic.
pub assume_specification[ core::time::Duration::from_secs ](secs: u64) -> (r: Duration)
    ensures
        r == duration_of_secs(secs),
;

/// How often, and after what delay, a stopped process is started again.
#[derive(Debug)]
pub struct SessionNodeRestart {
    max_times: u64,
    delay: Duration,
}

/// Why a process is not started again.
#[derive(Clone, Copy, Debug, PartialEq, Eq, Structural)]
pub enum SessionStalledReason {
    RestartedTooManyTimes,
    TerminatedSuccessfully,
    StalledDependency,
    UserRequested,
}

/// How a process stopped.
#[derive(Clone, Copy, Debug, PartialEq, Eq, Structural)]
pub enum NodeStop {
    /// It exited, successfully or not.
    Completed { success: bool },
    /// It could not be started or waited for.
    Errored,
    /// It was stopped on request.
    Manual,
}

/// Why a process that stopped `stop` after `restarted` restarts stays
/// stopped, or `None` where it may start again.
pub open spec fn stall_reason_of(max_times: u64, restarted: u64, stop: NodeStop) -> Option<
    SessionStalledReason,
> {
    match stop {
        NodeStop::Errored => if restarted >= max_times {
            Some(SessionStalledReason::RestartedTooManyTimes)
        } else {
            None
        },
        NodeStop::Completed { success } => if success {
            Some(SessionStalledReason::TerminatedSuccessfully)
        } else if restarted >= max_times {
            Some(SessionStalledReason::RestartedTooManyTimes)
        } else {
            None
        },
        NodeStop::Manual => Some(SessionStalledReason::UserRequested),
    }
}

impl SessionNodeRestart {
    pub closed spec fn spec_max_times(&self) -> u64 {
        self.max_times
    }

    pub closed spec fn spec_delay(&self) -> Duration {
        self.delay
    }

    pub fn new(max_times: u64, delay: Duration) -> (r: Self)
        ensures
            r.spec_max_times() == max_times,
            r.spec_delay() == delay,
    {
        Self { max_times, delay }
    }

    /// A policy that never restarts, with a delay of five seconds.
    pub fn no_restart() -> (r: Self)
        ensures
            r.spec_max_times() == 0,
            r.spec_delay() == duration_of_secs(5),
    {
        Self { max_times: 0, delay: Duration::from_secs(5) }
    }

    pub fn max_times(&self) -> (r: u64)
        ensures
            r == self.spec_max_times(),
    {
        self.max_times
    }

    pub fn delay(&self) -> (r: Duration)
        ensures
            r == self.spec_delay(),
    {
        self.delay
    }

    /// Why a process that stopped as `stop` after `restarted` restarts stays
    /// stopped; `None` where it may start again.
    pub fn stall_reason(&self, restarted: u64, stop: NodeStop) -> (r: Option<SessionStalledReason>)
        ensures
            r == stall_reason_of(self.spec_max_times(), restarted, stop),
    {
        match stop {
            NodeStop::Errored => if restarted >= self.max_times {
                Some(SessionStalledReason::RestartedTooManyTimes)
            } else {
                None
            },
            NodeStop::Completed { success } => if success {
                Some(SessionStalledReason::TerminatedSuccessfully)
            } else if restarted >= self.max_times {
                Some(SessionStalledReason::RestartedTooManyTimes)
            } else {
                None
            },
            NodeStop::Manual => Some(SessionStalledReason::UserRequested),
        }
    }

    /// Whether a stopped process starts again now: it is not stalled and
    /// its restart delay has passed.
    pub fn restart_now(&self, restarted: u64, stop: NodeStop, delay_elapsed: bool) -> (r: bool)
        ensures
            r == (stall_reason_of(self.spec_max_times(), restarted, stop) is None && delay_elapsed),
    {
        match self.stall_reason(restarted, stop) {
            Some(_) => false,
            None => delay_elapsed,
        }
    }
}

impl Default for SessionNodeRestart {
    /// A policy that always restarts, after five seconds.
    fn default() -> (r: Self)
        ensures
            r.spec_max_times() == u64::MAX,
            r.spec_delay() == duration_of_secs(5),
    {
        Self { max_times: u64::MAX, delay: Duration::from_secs(5) }
    }
}


/// Where a supervised process stands.
#[derive(Clone, Copy, Debug, PartialEq, Eq, Structural)]
pub enum NodeState {
    /// Not started yet, or due to start again.
    Ready,
    Running,
    Stopped(NodeStop),
}

/// What the supervisor observed while polling a process.
#[derive(Clone, Copy, Debug, PartialEq, Eq, Structural)]
pub enum PollEvent {
    /// A ready process was started, or could not be.
    Spawned { ok: bool },
    /// A running process was checked: still running, exited, or could not be waited for.
    StillRunning,
    Exited { success: bool },
    WaitFailed,
    /// A stopped process was looked at; `delay_elapsed` tells whether its restart delay has passed.
    Checked { delay_elapsed: bool },
}

/// The state after one poll, and the reason the process stays stopped, if it does.
pub open spec fn poll_outcome(
    max_times: u64,
    restarted: u64,
    state: NodeState,
    event: PollEvent,
) -> (NodeState, Option<SessionStalledReason>) {
    match (state, event) {
        (NodeState::Ready, PollEvent::Spawned { ok }) => if ok {
            (NodeState::Running, None)
        } else {
            (NodeState::Stopped(NodeStop::Errored), None)
        },
        (NodeState::Running, PollEvent::StillRunning) => (NodeState::Running, None),
        (NodeState::Running, PollEvent::Exited { success }) => (
            NodeState::Stopped(NodeStop::Completed { success }),
            None,
        ),
        (NodeState::Running, PollEvent::WaitFailed) => (NodeState::Stopped(NodeStop::Errored), None),
        (NodeState::Stopped(stop), PollEvent::Checked { delay_elapsed }) => {
            let stall = stall_reason_of(max_times, restarted, stop);
            if stall is None && delay_elapsed {
                (NodeState::Ready, stall)
            } else {
                (state, stall)
            }
        },
        _ => (state, None),
    }
}

impl SessionNodeRestart {
    /// One poll of a process under this policy: its next state, and why it
    /// stays stopped, if it does. An event that does not belong to the
    /// state changes nothing.
    pub fn poll_step(&self, restarted: u64, state: NodeState, event: PollEvent) -> (r: (
        NodeState,
        Option<SessionStalledReason>,
    ))
        ensures
            r == poll_outcome(self.spec_max_times(), restarted, state, event),
    {
        match (state, event) {
            (NodeState::Ready, PollEvent::Spawned { ok }) => if ok {
                (NodeState::Running, None)
            } else {
                (NodeState::Stopped(NodeStop::Errored), None)
            },
            (NodeState::Running, PollEvent::StillRunning) => (NodeState::Running, None),
            (NodeState::Running, PollEvent::Exited { success }) => (
                NodeState::Stopped(NodeStop::Completed { success }),
                None,
            ),
            (NodeState::Running, PollEvent::WaitFailed) => (
                NodeState::Stopped(NodeStop::Errored),
                None,
            ),
            (NodeState::Stopped(stop), PollEvent::Checked { delay_elapsed }) => {
                let stall = self.stall_reason(restarted, stop);
                if stall.is_none() && delay_elapsed {
                    (NodeState::Ready, stall)
                } else {
                    (state, stall)
                }
            },
            _ => (state, None),
        }
    }
}

} // verus!
