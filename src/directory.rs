//! All guilds' playback coordinators, created on first use and never removed.
use vstd::prelude::*;
use crate::playback::{Phase, Playback, Step};
use crate::registry::ResourceRegistry;

verus! {

/// Map from guild to its playback coordinator.
pub struct QueueDirectory {
    guilds: Vec<u64>,
    sessions: Vec<Playback>,
}

impl QueueDirectory {
    /// The coordinators, by guild.
    pub closed spec fn map(&self) -> Map<u64, Playback> {
        Map::new(
            |g: u64| self.guilds@.contains(g),
            |g: u64| self.sessions@[choose|i: int| 0 <= i < self.guilds@.len() && self.guilds@[i] == g],
        )
    }

    pub closed spec fn wf(&self) -> bool {
        &&& self.guilds@.len() == self.sessions@.len()
        &&& forall|i: int, j: int|
            0 <= i < j < self.guilds@.len() ==> self.guilds@[i] != self.guilds@[j]
        &&& forall|i: int|
            0 <= i < self.guilds@.len() ==> (#[trigger] self.sessions@[i]).wf()
                && self.sessions@[i].guild_spec() == self.guilds@[i]
    }

    /// Every guild's files in use are exactly the file of its item playing;
    /// a guild without a coordinator has none.
    pub open spec fn coherent(&self, reg: &ResourceRegistry) -> bool {
        &&& reg.wf()
        &&& forall|g: u64| #[trigger] self.map().contains_key(g) ==> self.map()[g].coherent(reg)
        &&& forall|g: u64| !self.map().contains_key(g) ==> #[trigger] reg.active_of(g) == Set::<Seq<char>>::empty()
    }

    proof fn lemma_slot(&self, i: int)
        requires
            self.wf(),
            0 <= i < self.guilds@.len(),
        ensures
            self.map().contains_key(self.guilds@[i]),
            self.map()[self.guilds@[i]] == self.sessions@[i],
    {
        let g = self.guilds@[i];
        assert(self.guilds@.contains(g));
        let j = choose|j: int| 0 <= j < self.guilds@.len() && self.guilds@[j] == g;
        assert(j == i);
    }

    /// The pending requests of `guild`; empty for a guild never seen.
    pub open spec fn queue_of(&self, guild: u64) -> Seq<Seq<char>> {
        if self.map().contains_key(guild) {
            self.map()[guild].queue_spec()
        } else {
            Seq::<Seq<char>>::empty()
        }
    }

    /// The phase of `guild`; idle for a guild never seen.
    pub open spec fn phase_of(&self, guild: u64) -> Phase {
        if self.map().contains_key(guild) {
            self.map()[guild].phase_spec()
        } else {
            Phase::Idle
        }
    }

    /// The file of the item playing in `guild`, if any.
    pub open spec fn artifact_of(&self, guild: u64) -> Option<Seq<char>> {
        if self.map().contains_key(guild) {
            self.map()[guild].artifact_spec()
        } else {
            None
        }
    }

    /// Whether the item in flight in `guild` was removed by a stop.
    pub open spec fn orphaned_of(&self, guild: u64) -> bool {
        self.map().contains_key(guild) && self.map()[guild].orphaned_spec()
    }

    /// Every guild but `guild` is as it was.
    pub open spec fn others_unchanged(&self, other: &QueueDirectory, guild: u64) -> bool {
        forall|g: u64| g != guild ==> (#[trigger] self.map().contains_key(g) == other.map().contains_key(g)
            && (self.map().contains_key(g) ==> self.map()[g] == other.map()[g]))
    }

    /// The coordinator of a guild in the directory is well formed.
    pub proof fn lemma_member_wf(&self, guild: u64)
        requires
            self.wf(),
            self.map().contains_key(guild),
        ensures
            self.map()[guild].wf(),
            self.map()[guild].guild_spec() == guild,
    {
        let k = choose|k: int| 0 <= k < self.guilds@.len() && self.guilds@[k] == guild;
        self.lemma_slot(k);
    }

    /// A directory with no guild.
    pub fn new() -> (r: QueueDirectory)
        ensures
            r.wf(),
            r.map() == Map::<u64, Playback>::empty(),
    {
        let r = QueueDirectory { guilds: Vec::new(), sessions: Vec::new() };
        assert(r.map() =~= Map::<u64, Playback>::empty());
        r
    }

    fn find(&self, guild: u64) -> (r: Option<usize>)
        requires
            self.wf(),
        ensures
            r.is_none() ==> !self.map().contains_key(guild),
            r.is_some() ==> r.unwrap() < self.guilds@.len() && self.guilds@[r.unwrap() as int] == guild,
    {
        let mut i: usize = 0;
        while i < self.guilds.len()
            invariant
                i <= self.guilds@.len(),
                forall|k: int| 0 <= k < i ==> self.guilds@[k] != guild,
            decreases self.guilds@.len() - i,
        {
            if self.guilds[i] == guild {
                return Some(i);
            }
            i = i + 1;
        }
        None
    }

    /// The slot of `guild`, creating an idle coordinator for it on first use.
    fn slot(&mut self, guild: u64) -> (r: usize)
        requires
            old(self).wf(),
        ensures
            final(self).wf(),
            forall|reg: ResourceRegistry| old(self).coherent(&reg) ==> final(self).coherent(&reg),
            r < final(self).guilds@.len(),
            final(self).guilds@[r as int] == guild,
            old(self).map().contains_key(guild) ==> final(self).map() == old(self).map(),
            !old(self).map().contains_key(guild) ==> final(self).map() == old(self).map().insert(
                guild,
                final(self).sessions@[r as int],
            ),
            final(self).sessions@[r as int].queue_spec().len() == 0 || old(self).map().contains_key(guild),
            !old(self).map().contains_key(guild) ==> final(self).sessions@[r as int].phase_spec() == Phase::Idle
                && !final(self).sessions@[r as int].orphaned_spec(),
    {
        match self.find(guild) {
            Some(i) => {
                proof { self.lemma_slot(i as int); }
                i
            },
            None => {
                let ghost before = *self;
                self.guilds.push(guild);
                self.sessions.push(Playback::new(guild));
                let n = self.guilds.len() - 1;
                assert forall|i: int, j: int| 0 <= i < j < self.guilds@.len() implies self.guilds@[i] != self.guilds@[j] by {
                    if j == n {
                        assert(!before.guilds@.contains(guild));
                        assert(before.guilds@[i] == self.guilds@[i]);
                    }
                }
                assert forall|i: int| 0 <= i < self.guilds@.len() implies (#[trigger] self.sessions@[i]).wf()
                    && self.sessions@[i].guild_spec() == self.guilds@[i] by {
                    if i < n {
                        assert(before.sessions@[i] == self.sessions@[i]);
                    }
                }
                assert(self.map() =~= before.map().insert(guild, self.sessions@[n as int])) by {
                    assert forall|g: u64| #[trigger] self.map().contains_key(g) <==> before.map().contains_key(g) || g == guild by {
                        if self.guilds@.contains(g) && g != guild {
                            let k = choose|k: int| 0 <= k < self.guilds@.len() && self.guilds@[k] == g;
                            assert(before.guilds@[k] == g);
                        }
                        if before.guilds@.contains(g) {
                            let k = choose|k: int| 0 <= k < before.guilds@.len() && before.guilds@[k] == g;
                            assert(self.guilds@[k] == g);
                        }
                        if g == guild {
                            assert(self.guilds@[n as int] == g);
                        }
                    }
                    assert forall|g: u64| #[trigger] self.map().contains_key(g) implies self.map()[g] == before.map().insert(guild, self.sessions@[n as int])[g] by {
                        let k = choose|k: int| 0 <= k < self.guilds@.len() && self.guilds@[k] == g;
                        self.lemma_slot(k);
                        if k < n {
                            before.lemma_slot(k);
                        }
                    }
                }
                assert forall|reg: ResourceRegistry| before.coherent(&reg) implies self.coherent(&reg) by {
                    assert(self.sessions@[n as int].coherent(&reg));
                }
                n
            },
        }
    }

    /// Makes sure `guild` has a coordinator. A guild seen before is left as
    /// it is; a new one starts idle with an empty queue.
    pub fn get_or_create(&mut self, guild: u64)
        requires
            old(self).wf(),
        ensures
            final(self).wf(),
            forall|reg: ResourceRegistry| old(self).coherent(&reg) ==> final(self).coherent(&reg),
            final(self).map().contains_key(guild),
            old(self).map().contains_key(guild) ==> final(self).map() == old(self).map(),
            final(self).others_unchanged(old(self), guild),
            final(self).queue_of(guild) == old(self).queue_of(guild),
            final(self).phase_of(guild) == old(self).phase_of(guild),
            final(self).artifact_of(guild) == old(self).artifact_of(guild),
            final(self).orphaned_of(guild) == old(self).orphaned_of(guild),
    {
        let i = self.slot(guild);
        proof {
            self.lemma_slot(i as int);
        }
    }

    /// Appends `request` to the queue of `guild`, creating its coordinator on
    /// first use. When the guild was idle the request must be fetched now.
    pub fn enqueue(&mut self, guild: u64, request: String) -> (r: Step)
        requires
            old(self).wf(),
            old(self).queue_of(guild).len() < usize::MAX,
        ensures
            final(self).wf(),
            forall|reg: ResourceRegistry| old(self).coherent(&reg) ==> final(self).coherent(&reg),
            final(self).others_unchanged(old(self), guild),
            final(self).map().contains_key(guild),
            final(self).queue_of(guild) == old(self).queue_of(guild).push(request@),
            final(self).artifact_of(guild) == old(self).artifact_of(guild),
            final(self).orphaned_of(guild) == old(self).orphaned_of(guild),
            old(self).phase_of(guild) == Phase::Idle ==> final(self).phase_of(guild) == Phase::Fetching
                && r == Step::Fetch(request),
            old(self).phase_of(guild) != Phase::Idle ==> final(self).phase_of(guild)
                == old(self).phase_of(guild) && r == Step::Wait,
    {
        let i = self.slot(guild);
        let ghost mid = *self;
        proof { mid.lemma_slot(i as int); }
        let r = self.sessions[i].enqueue(request);
        proof {
            self.lemma_update(mid, i as int);
            assert(self.map()[guild].orphaned_spec() == mid.sessions@[i as int].orphaned_spec());
            if old(self).map().contains_key(guild) {
                assert(mid.map()[guild] == old(self).map()[guild]);
            }
            assert forall|reg: ResourceRegistry| mid.coherent(&reg) implies self.coherent(&reg) by {
                assert(self.map()[guild].coherent(&reg));
            }
        }
        r
    }

    /// The fetch for `guild` succeeded; see [`Playback::fetch_succeeded`].
    pub fn fetch_succeeded(&mut self, guild: u64, reg: &mut ResourceRegistry, artifact: Option<String>)
        requires
            old(self).wf(),
            old(self).coherent(old(reg)),
            old(self).phase_of(guild) == Phase::Fetching,
        ensures
            final(self).wf(),
            final(self).coherent(final(reg)),
            final(self).others_unchanged(old(self), guild),
            final(self).phase_of(guild) == Phase::Playing,
            final(self).orphaned_of(guild) == old(self).orphaned_of(guild),
            final(self).queue_of(guild) == old(self).queue_of(guild),
            final(self).artifact_of(guild) == match artifact {
                Some(p) => Some(p@),
                None => None::<Seq<char>>,
            },
            match artifact {
                Some(p) => final(reg).active() == old(reg).active().insert((guild, p@)),
                None => final(reg).active() == old(reg).active(),
            },
    {
        let i = self.find(guild).unwrap();
        let ghost mid = *self;
        let ghost reg0 = *reg;
        proof { mid.lemma_slot(i as int); }
        self.sessions[i].fetch_succeeded(reg, artifact);
        proof {
            self.lemma_update(mid, i as int);
            ResourceRegistry::lemma_other_guilds(reg, &reg0, guild);
            assert forall|g: u64| #[trigger] self.map().contains_key(g) implies self.map()[g].coherent(reg) by {
                if g != guild {
                    assert(mid.map()[g].coherent(&reg0));
                }
            }
        }
    }

    /// The fetch for `guild` failed; see [`Playback::fetch_failed`].
    pub fn fetch_failed(&mut self, guild: u64) -> (r: Step)
        requires
            old(self).wf(),
            old(self).phase_of(guild) == Phase::Fetching,
        ensures
            final(self).wf(),
            forall|reg: ResourceRegistry| old(self).coherent(&reg) ==> final(self).coherent(&reg),
            final(self).others_unchanged(old(self), guild),
            final(self).artifact_of(guild).is_none(),
            !final(self).orphaned_of(guild),
            final(self).queue_of(guild) == if old(self).orphaned_of(guild) {
                old(self).queue_of(guild)
            } else {
                old(self).queue_of(guild).drop_first()
            },
            final(self).queue_of(guild).len() == 0 ==> final(self).phase_of(guild) == Phase::Idle
                && r == Step::Wait,
            final(self).queue_of(guild).len() > 0 ==> final(self).phase_of(guild) == Phase::Fetching
                && crate::playback::fetches(r, final(self).queue_of(guild)[0]),
    {
        let i = self.find(guild).unwrap();
        let ghost mid = *self;
        proof { mid.lemma_slot(i as int); }
        let r = self.sessions[i].fetch_failed();
        proof {
            self.lemma_update(mid, i as int);
            assert forall|reg: ResourceRegistry| mid.coherent(&reg) implies self.coherent(&reg) by {
                assert(self.map()[guild].coherent(&reg));
            }
        }
        r
    }

    /// The item playing in `guild` ended; see [`Playback::track_ended`].
    pub fn track_ended(&mut self, guild: u64, reg: &mut ResourceRegistry) -> (r: Step)
        requires
            old(self).wf(),
            old(self).coherent(old(reg)),
            old(self).phase_of(guild) == Phase::Playing,
        ensures
            final(self).wf(),
            final(self).coherent(final(reg)),
            final(self).others_unchanged(old(self), guild),
            final(self).artifact_of(guild).is_none(),
            !final(self).orphaned_of(guild),
            match old(self).artifact_of(guild) {
                Some(p) => final(reg).active() == old(reg).active().remove((guild, p)),
                None => final(reg).active() == old(reg).active(),
            },
            final(self).queue_of(guild) == if old(self).orphaned_of(guild) {
                old(self).queue_of(guild)
            } else {
                old(self).queue_of(guild).drop_first()
            },
            final(self).queue_of(guild).len() == 0 ==> final(self).phase_of(guild) == Phase::Idle
                && r == Step::Wait,
            final(self).queue_of(guild).len() > 0 ==> final(self).phase_of(guild) == Phase::Fetching
                && crate::playback::fetches(r, final(self).queue_of(guild)[0]),
    {
        let i = self.find(guild).unwrap();
        let ghost mid = *self;
        let ghost reg0 = *reg;
        proof { mid.lemma_slot(i as int); }
        let r = self.sessions[i].track_ended(reg);
        proof {
            self.lemma_update(mid, i as int);
            ResourceRegistry::lemma_other_guilds(reg, &reg0, guild);
            assert forall|g: u64| #[trigger] self.map().contains_key(g) implies self.map()[g].coherent(reg) by {
                if g != guild {
                    assert(mid.map()[g].coherent(&reg0));
                }
            }
        }
        r
    }

    /// Empties the queue of `guild`; see [`Playback::stop`].
    pub fn stop(&mut self, guild: u64)
        requires
            old(self).wf(),
        ensures
            final(self).wf(),
            forall|reg: ResourceRegistry| old(self).coherent(&reg) ==> final(self).coherent(&reg),
            final(self).others_unchanged(old(self), guild),
            final(self).map().contains_key(guild),
            final(self).queue_of(guild) == Seq::<Seq<char>>::empty(),
            final(self).phase_of(guild) == old(self).phase_of(guild),
            final(self).artifact_of(guild) == old(self).artifact_of(guild),
            final(self).orphaned_of(guild) == (old(self).phase_of(guild) != Phase::Idle),
    {
        let i = self.slot(guild);
        let ghost mid = *self;
        proof { mid.lemma_slot(i as int); }
        self.sessions[i].stop();
        proof {
            self.lemma_update(mid, i as int);
            assert forall|reg: ResourceRegistry| mid.coherent(&reg) implies self.coherent(&reg) by {
                assert(self.map()[guild].coherent(&reg));
            }
        }
    }

    /// The phase of `guild`.
    pub fn phase(&self, guild: u64) -> (r: Phase)
        requires
            self.wf(),
        ensures
            r == self.phase_of(guild),
    {
        match self.find(guild) {
            Some(i) => {
                proof { self.lemma_slot(i as int); }
                self.sessions[i].phase()
            },
            None => Phase::Idle,
        }
    }

    /// A copy of the pending requests of `guild`, head first.
    pub fn queue_items(&self, guild: u64) -> (r: Vec<String>)
        requires
            self.wf(),
        ensures
            r@.map_values(|s: String| s@) == self.queue_of(guild),
    {
        match self.find(guild) {
            Some(i) => {
                proof { self.lemma_slot(i as int); }
                self.sessions[i].queue_items()
            },
            None => {
                let r: Vec<String> = Vec::new();
                assert(r@.map_values(|s: String| s@) =~= Seq::<Seq<char>>::empty());
                r
            },
        }
    }

    /// The number of pending requests of `guild`.
    pub fn queue_len(&self, guild: u64) -> (r: usize)
        requires
            self.wf(),
        ensures
            r == self.queue_of(guild).len(),
    {
        match self.find(guild) {
            Some(i) => {
                proof { self.lemma_slot(i as int); }
                self.sessions[i].queue_len()
            },
            None => 0,
        }
    }

    /// The file of the item playing in `guild`, if any.
    pub fn artifact(&self, guild: u64) -> (r: Option<String>)
        requires
            self.wf(),
        ensures
            match r {
                Some(p) => self.artifact_of(guild) == Some(p@),
                None => self.artifact_of(guild).is_none(),
            },
    {
        match self.find(guild) {
            Some(i) => {
                proof { self.lemma_slot(i as int); }
                self.sessions[i].artifact()
            },
            None => None,
        }
    }

    /// Empties every guild's queue; the coordinators themselves stay.
    pub fn clear_all(&mut self)
        requires
            old(self).wf(),
        ensures
            final(self).wf(),
            forall|reg: ResourceRegistry| old(self).coherent(&reg) ==> final(self).coherent(&reg),
            forall|g: u64| #[trigger] final(self).map().contains_key(g) == old(self).map().contains_key(g),
            forall|g: u64| #[trigger] final(self).queue_of(g) == Seq::<Seq<char>>::empty(),
            forall|g: u64| #[trigger] final(self).phase_of(g) == old(self).phase_of(g),
            forall|g: u64| #[trigger] final(self).artifact_of(g) == old(self).artifact_of(g),
    {
        let ghost before = *self;
        let mut i: usize = 0;
        while i < self.sessions.len()
            invariant
                self.wf(),
                self.guilds@ == before.guilds@,
                self.sessions@.len() == before.sessions@.len(),
                i <= self.sessions@.len(),
                forall|k: int| 0 <= k < i ==> (#[trigger] self.sessions@[k]).queue_spec().len() == 0
                    && self.sessions@[k].phase_spec() == before.sessions@[k].phase_spec()
                    && self.sessions@[k].artifact_spec() == before.sessions@[k].artifact_spec(),
                forall|k: int| i <= k < self.sessions@.len() ==> self.sessions@[k] == before.sessions@[k],
            decreases self.sessions@.len() - i,
        {
            let ghost mid = *self;
            self.sessions[i].stop();
            proof {
                self.lemma_update(mid, i as int);
            }
            i = i + 1;
        }
        assert forall|g: u64| #[trigger] self.map().contains_key(g) == before.map().contains_key(g)
            && (self.map().contains_key(g) ==> self.map()[g].queue_spec().len() == 0
            && self.map()[g].phase_spec() == before.map()[g].phase_spec()
            && self.map()[g].artifact_spec() == before.map()[g].artifact_spec()) by {
            if self.map().contains_key(g) {
                let k = choose|k: int| 0 <= k < self.guilds@.len() && self.guilds@[k] == g;
                self.lemma_slot(k);
                before.lemma_slot(k);
            }
        }
        assert forall|g: u64| #[trigger] self.queue_of(g) == Seq::<Seq<char>>::empty() by {
            if self.map().contains_key(g) {
                assert(self.map()[g].queue_spec() =~= Seq::<Seq<char>>::empty());
            }
        }
        assert forall|reg: ResourceRegistry| before.coherent(&reg) implies self.coherent(&reg) by {
            assert forall|g: u64| #[trigger] self.map().contains_key(g) implies self.map()[g].coherent(&reg) by {
                assert(before.map()[g].coherent(&reg));
            }
        }
    }

    /// Replaces the coordinator in slot `i`.
    proof fn lemma_update(&self, before: QueueDirectory, i: int)
        requires
            before.wf(),
            0 <= i < before.guilds@.len(),
            self.guilds@ == before.guilds@,
            self.sessions@ == before.sessions@.update(i, self.sessions@[i]),
            self.sessions@[i].wf(),
            self.sessions@[i].guild_spec() == before.guilds@[i],
        ensures
            self.wf(),
            self.map() == before.map().insert(before.guilds@[i], self.sessions@[i]),
    {
        assert forall|k: int| 0 <= k < self.guilds@.len() implies (#[trigger] self.sessions@[k]).wf()
            && self.sessions@[k].guild_spec() == self.guilds@[k] by {
            if k != i {
                assert(self.sessions@[k] == before.sessions@[k]);
            }
        }
        assert(self.map() =~= before.map().insert(before.guilds@[i], self.sessions@[i])) by {
            assert forall|g: u64| #[trigger] self.map().contains_key(g) implies self.map()[g] == before.map().insert(before.guilds@[i], self.sessions@[i])[g] by {
                let k = choose|k: int| 0 <= k < self.guilds@.len() && self.guilds@[k] == g;
                self.lemma_slot(k);
                before.lemma_slot(k);
            }
        }
    }
}

} // verus!
