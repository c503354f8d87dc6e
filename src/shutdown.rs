//! The process-wide shutdown protocol: the first signal empties every queue
//! and asks for the download root to be purged; later signals change nothing.
use vstd::prelude::*;
use crate::directory::QueueDirectory;
use crate::registry::ResourceRegistry;

verus! {

/// Where the process stands with respect to shutdown. It only moves forward.
#[derive(PartialEq, Eq, Structural, Clone, Copy, Debug)]
pub enum ShutdownState {
    Running,
    ShuttingDown,
    Stopped,
}

/// The rank of a state in its only order of succession.
pub open spec fn rank(s: ShutdownState) -> nat {
    match s {
        ShutdownState::Running => 0,
        ShutdownState::ShuttingDown => 1,
        ShutdownState::Stopped => 2,
    }
}

/// Graceful termination of the whole process.
pub struct ShutdownHandler {
    state: ShutdownState,
}

impl ShutdownHandler {
    pub closed spec fn state_spec(&self) -> ShutdownState {
        self.state
    }

    /// A handler of a process that is running.
    pub fn new() -> (r: ShutdownHandler)
        ensures
            r.state_spec() == ShutdownState::Running,
    {
        ShutdownHandler { state: ShutdownState::Running }
    }

    pub fn state(&self) -> (r: ShutdownState)
        ensures
            r == self.state_spec(),
    {
        self.state
    }

    /// Whether shutdown has begun (it may also have completed).
    pub fn is_shutting_down(&self) -> (r: bool)
        ensures
            r == (self.state_spec() != ShutdownState::Running),
    {
        self.state != ShutdownState::Running
    }

    /// Whether shutdown has completed.
    pub fn is_stopped(&self) -> (r: bool)
        ensures
            r == (self.state_spec() == ShutdownState::Stopped),
    {
        self.state == ShutdownState::Stopped
    }

    /// Reacts to a termination signal. Only the first call acts: it empties
    /// every queue, enters `ShuttingDown` and returns `true`, after which the
    /// caller purges the download root and calls [`Self::finish`]. Any later
    /// call returns `false` and changes nothing.
    pub fn shutdown(&mut self, queues: &mut QueueDirectory) -> (r: bool)
        requires
            old(queues).wf(),
        ensures
            final(queues).wf(),
            r == (old(self).state_spec() == ShutdownState::Running),
            r ==> final(self).state_spec() == ShutdownState::ShuttingDown,
            !r ==> final(self).state_spec() == old(self).state_spec() && *final(queues) == *old(queues),
            r ==> forall|g: u64| #[trigger] final(queues).queue_of(g) == Seq::<Seq<char>>::empty(),
            r ==> forall|g: u64| #[trigger] final(queues).map().contains_key(g) == old(queues).map().contains_key(g),
            r ==> forall|g: u64| #[trigger] final(queues).phase_of(g) == old(queues).phase_of(g),
            forall|reg: ResourceRegistry| old(queues).coherent(&reg) ==> final(queues).coherent(&reg),
    {
        if self.state == ShutdownState::Running {
            queues.clear_all();
            self.state = ShutdownState::ShuttingDown;
            true
        } else {
            false
        }
    }

    /// Marks the shutdown complete once the purge is done. Returns `true` on the
    /// one call that enters `Stopped`; any other call changes nothing.
    pub fn finish(&mut self) -> (r: bool)
        ensures
            r == (old(self).state_spec() == ShutdownState::ShuttingDown),
            r ==> final(self).state_spec() == ShutdownState::Stopped,
            !r ==> final(self).state_spec() == old(self).state_spec(),
            rank(old(self).state_spec()) <= rank(final(self).state_spec()),
    {
        if self.state == ShutdownState::ShuttingDown {
            self.state = ShutdownState::Stopped;
            true
        } else {
            false
        }
    }
}

} // verus!
