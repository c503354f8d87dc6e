//! The playback lifecycle of one guild: fetch the head request, play it, and on
//! its end advance the queue, as a state machine driven by events.
use vstd::prelude::*;
use crate::queue::TenantQueue;
use crate::registry::ResourceRegistry;

verus! {

/// Where the playback of one guild stands.
#[derive(PartialEq, Eq, Structural, Clone, Copy, Debug)]
pub enum Phase {
    /// Nothing is fetched or played, and the queue is empty.
    Idle,
    /// The media of the item in flight is being retrieved.
    Fetching,
    /// The item in flight is playing and its end will be reported.
    Playing,
}

/// What the caller must do after an event.
#[derive(PartialEq, Eq, Debug)]
pub enum Step {
    /// Nothing more: the guild waits for the next event.
    Wait,
    /// Fetch the media for this request, then report the outcome.
    Fetch(String),
}

/// Whether `step` asks for the fetch of `request`.
pub open spec fn fetches(step: Step, request: Seq<char>) -> bool {
    match step {
        Step::Fetch(h) => h@ == request,
        Step::Wait => false,
    }
}

/// The playback coordinator of one guild.
pub struct Playback {
    guild: u64,
    queue: TenantQueue,
    phase: Phase,
    artifact: Option<String>,
    orphaned: bool,
}

impl Playback {
    pub closed spec fn guild_spec(&self) -> u64 {
        self.guild
    }

    /// The pending requests, the item in flight first (unless it was stopped).
    pub closed spec fn queue_spec(&self) -> Seq<Seq<char>> {
        self.queue@
    }

    pub closed spec fn phase_spec(&self) -> Phase {
        self.phase
    }

    /// The downloaded file that backs the item playing, if any.
    pub closed spec fn artifact_spec(&self) -> Option<Seq<char>> {
        match self.artifact {
            Some(p) => Some(p@),
            None => None,
        }
    }

    /// Whether the item in flight was removed from the queue by a stop.
    pub closed spec fn orphaned_spec(&self) -> bool {
        self.orphaned
    }

    /// The state invariant: an idle guild has an empty queue; an item in
    /// flight heads the queue unless a stop removed it; only a playing item
    /// has a file.
    pub open spec fn wf(&self) -> bool {
        &&& self.phase_spec() == Phase::Idle ==> (self.queue_spec().len() == 0
            && !self.orphaned_spec())
        &&& (self.phase_spec() != Phase::Idle && !self.orphaned_spec()) ==> self.queue_spec().len()
            > 0
        &&& self.phase_spec() != Phase::Playing ==> self.artifact_spec().is_none()
    }

    /// The files marked in use for this guild are exactly the file of the item playing.
    pub open spec fn coherent(&self, reg: &ResourceRegistry) -> bool {
        &&& reg.wf()
        &&& reg.active_of(self.guild_spec()) == match self.artifact_spec() {
            Some(p) => Set::<Seq<char>>::empty().insert(p),
            None => Set::<Seq<char>>::empty(),
        }
    }

    /// An idle coordinator for `guild`.
    pub fn new(guild: u64) -> (r: Playback)
        ensures
            r.wf(),
            r.guild_spec() == guild,
            r.queue_spec() == Seq::<Seq<char>>::empty(),
            r.phase_spec() == Phase::Idle,
            r.artifact_spec().is_none(),
            !r.orphaned_spec(),
    {
        Playback { guild, queue: TenantQueue::new(), phase: Phase::Idle, artifact: None, orphaned: false }
    }

    pub fn guild(&self) -> (r: u64)
        ensures
            r == self.guild_spec(),
    {
        self.guild
    }

    pub fn phase(&self) -> (r: Phase)
        ensures
            r == self.phase_spec(),
    {
        self.phase
    }

    pub fn queue_len(&self) -> (r: usize)
        ensures
            r == self.queue_spec().len(),
    {
        self.queue.len()
    }

    /// A copy of the pending requests, head first.
    pub fn queue_items(&self) -> (r: Vec<String>)
        ensures
            r@.map_values(|s: String| s@) == self.queue_spec(),
    {
        self.queue.items()
    }

    /// The file of the item playing, if any.
    pub fn artifact(&self) -> (r: Option<String>)
        ensures
            match r {
                Some(p) => self.artifact_spec() == Some(p@),
                None => self.artifact_spec().is_none(),
            },
    {
        self.artifact.clone()
    }

    /// Continues with the head of the queue, or settles idle when it is empty.
    fn advance(&mut self) -> (r: Step)
        ensures
            final(self).guild_spec() == old(self).guild_spec(),
            final(self).queue_spec() == old(self).queue_spec(),
            final(self).artifact_spec().is_none(),
            !final(self).orphaned_spec(),
            old(self).queue_spec().len() == 0 ==> final(self).phase_spec() == Phase::Idle
                && r == Step::Wait,
            old(self).queue_spec().len() > 0 ==> final(self).phase_spec() == Phase::Fetching
                && fetches(r, old(self).queue_spec()[0]),
    {
        self.artifact = None;
        self.orphaned = false;
        match self.queue.peek_head() {
            Some(h) => {
                self.phase = Phase::Fetching;
                Step::Fetch(h)
            },
            None => {
                self.phase = Phase::Idle;
                Step::Wait
            },
        }
    }

    /// Appends a request. When the guild was idle the request becomes the item
    /// in flight and must be fetched; otherwise it waits its turn.
    pub fn enqueue(&mut self, request: String) -> (r: Step)
        requires
            old(self).wf(),
            old(self).queue_spec().len() < usize::MAX,
        ensures
            final(self).wf(),
            final(self).guild_spec() == old(self).guild_spec(),
            final(self).queue_spec() == old(self).queue_spec().push(request@),
            final(self).artifact_spec() == old(self).artifact_spec(),
            final(self).orphaned_spec() == old(self).orphaned_spec(),
            old(self).phase_spec() == Phase::Idle ==> final(self).phase_spec() == Phase::Fetching
                && r == Step::Fetch(request) && final(self).queue_spec().len() == 1,
            old(self).phase_spec() != Phase::Idle ==> final(self).phase_spec()
                == old(self).phase_spec() && r == Step::Wait,
    {
        let head = request.clone();
        self.queue.enqueue(request);
        if self.phase == Phase::Idle {
            self.phase = Phase::Fetching;
            Step::Fetch(head)
        } else {
            Step::Wait
        }
    }

    /// The fetch of the item in flight succeeded: its file, if it has one, is
    /// marked in use and the item plays.
    pub fn fetch_succeeded(&mut self, reg: &mut ResourceRegistry, artifact: Option<String>)
        requires
            old(self).wf(),
            old(self).phase_spec() == Phase::Fetching,
            old(self).coherent(old(reg)),
        ensures
            final(self).wf(),
            final(self).coherent(final(reg)),
            final(self).phase_spec() == Phase::Playing,
            final(self).orphaned_spec() == old(self).orphaned_spec(),
            final(self).guild_spec() == old(self).guild_spec(),
            final(self).queue_spec() == old(self).queue_spec(),
            final(self).artifact_spec() == match artifact {
                Some(p) => Some(p@),
                None => None::<Seq<char>>,
            },
            match artifact {
                Some(p) => final(reg).active() == old(reg).active().insert((old(self).guild_spec(), p@)),
                None => final(reg).active() == old(reg).active(),
            },
            final(reg).known() == match artifact {
                Some(p) => old(reg).known().insert(old(self).guild_spec()),
                None => old(reg).known(),
            },
    {
        match &artifact {
            Some(p) => {
                let ghost before = *reg;
                reg.mark_active(self.guild, p);
                assert forall|q: Seq<char>| #[trigger] reg.active_of(self.guild).contains(q) <==> q == p@ by {
                    assert(reg.active().contains((self.guild, q)) <==> (before.active().contains((self.guild, q)) || q == p@));
                    assert(!before.active_of(self.guild).contains(q));
                }
                assert(reg.active_of(self.guild) =~= Set::<Seq<char>>::empty().insert(p@));
            },
            None => {},
        }
        self.artifact = artifact;
        self.phase = Phase::Playing;
    }

    /// The fetch of the item in flight failed: the item is dropped (unless a
    /// stop already removed it) and the next one, if any, is fetched.
    pub fn fetch_failed(&mut self) -> (r: Step)
        requires
            old(self).wf(),
            old(self).phase_spec() == Phase::Fetching,
        ensures
            final(self).wf(),
            final(self).guild_spec() == old(self).guild_spec(),
            final(self).artifact_spec().is_none(),
            !final(self).orphaned_spec(),
            final(self).queue_spec() == if old(self).orphaned_spec() {
                old(self).queue_spec()
            } else {
                old(self).queue_spec().drop_first()
            },
            final(self).queue_spec().len() == 0 ==> final(self).phase_spec() == Phase::Idle
                && r == Step::Wait,
            final(self).queue_spec().len() > 0 ==> final(self).phase_spec() == Phase::Fetching
                && fetches(r, final(self).queue_spec()[0]),
    {
        if !self.orphaned {
            self.queue.pop_head();
        }
        self.advance()
    }

    /// The item playing ended: its file is no longer in use, the item leaves
    /// the queue (unless a stop already removed it), and the next one, if any,
    /// is fetched. The caller sweeps the guild's directory before that fetch.
    pub fn track_ended(&mut self, reg: &mut ResourceRegistry) -> (r: Step)
        requires
            old(self).wf(),
            old(self).phase_spec() == Phase::Playing,
            old(self).coherent(old(reg)),
        ensures
            final(self).wf(),
            final(self).coherent(final(reg)),
            final(self).guild_spec() == old(self).guild_spec(),
            final(self).artifact_spec().is_none(),
            !final(self).orphaned_spec(),
            match old(self).artifact_spec() {
                Some(p) => final(reg).active() == old(reg).active().remove((old(self).guild_spec(), p)),
                None => final(reg).active() == old(reg).active(),
            },
            final(reg).known() == old(reg).known(),
            final(self).queue_spec() == if old(self).orphaned_spec() {
                old(self).queue_spec()
            } else {
                old(self).queue_spec().drop_first()
            },
            final(self).queue_spec().len() == 0 ==> final(self).phase_spec() == Phase::Idle
                && r == Step::Wait,
            final(self).queue_spec().len() > 0 ==> final(self).phase_spec() == Phase::Fetching
                && fetches(r, final(self).queue_spec()[0]),
    {
        match &self.artifact {
            Some(p) => {
                let ghost before = *reg;
                reg.mark_inactive(self.guild, p);
                assert forall|q: Seq<char>| !#[trigger] reg.active_of(self.guild).contains(q) by {
                    assert(reg.active().contains((self.guild, q)) <==> (before.active().contains((self.guild, q)) && q != p@));
                    assert(before.active_of(self.guild).contains(q) ==> q == p@);
                }
                assert(reg.active_of(self.guild) =~= Set::<Seq<char>>::empty());
            },
            None => {},
        }
        if !self.orphaned {
            self.queue.pop_head();
        }
        self.advance()
    }

    /// Empties the queue. The item in flight, if any, is not interrupted here;
    /// its end or failure then finds it already gone.
    pub fn stop(&mut self)
        requires
            old(self).wf(),
        ensures
            final(self).wf(),
            final(self).guild_spec() == old(self).guild_spec(),
            final(self).queue_spec() == Seq::<Seq<char>>::empty(),
            final(self).phase_spec() == old(self).phase_spec(),
            final(self).artifact_spec() == old(self).artifact_spec(),
            final(self).orphaned_spec() == (old(self).phase_spec() != Phase::Idle),
    {
        self.queue.clear();
        if self.phase != Phase::Idle {
            self.orphaned = true;
        }
    }
}

} // verus!
