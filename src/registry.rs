//! Tracking of the downloaded files that back a playback in progress, and the
//! choice of which files a sweep of a guild's directory may delete.
use vstd::prelude::*;

verus! {

/// The character sequences of a list of strings.
pub open spec fn views(v: Seq<String>) -> Seq<Seq<char>> {
    v.map_values(|s: String| s@)
}

/// Whether a file may be deleted by a sweep: it backs no playback.
pub open spec fn is_stale(active: Seq<Seq<char>>) -> spec_fn(Seq<char>) -> bool {
    |p: Seq<char>| !active.contains(p)
}

/// Whether `v` holds a string equal to `p`.
pub fn contains_path(v: &Vec<String>, p: &String) -> (r: bool)
    ensures
        r == views(v@).contains(p@),
{
    let mut i: usize = 0;
    while i < v.len()
        invariant
            i <= v@.len(),
            forall|k: int| 0 <= k < i ==> v@[k]@ != p@,
        decreases v@.len() - i,
    {
        if v[i] == *p {
            assert(views(v@)[i as int] == p@);
            return true;
        }
        i = i + 1;
    }
    assert forall|k: int| 0 <= k < views(v@).len() implies views(v@)[k] != p@ by {
        assert(views(v@)[k] == v@[k]@);
    }
    false
}

/// The entries of a directory listing that a sweep deletes: every one that is
/// not in the snapshot `active`, in listing order.
pub fn files_to_reap(listing: &Vec<String>, active: &Vec<String>) -> (r: Vec<String>)
    ensures
        views(r@) == views(listing@).filter(is_stale(views(active@))),
{
    let ghost pred = is_stale(views(active@));
    let mut r: Vec<String> = Vec::new();
    let mut i: usize = 0;
    while i < listing.len()
        invariant
            i <= listing@.len(),
            pred == is_stale(views(active@)),
            views(r@) == views(listing@).take(i as int).filter(pred),
        decreases listing@.len() - i,
    {
        let ghost before = views(r@);
        let keep = !contains_path(active, &listing[i]);
        if keep {
            r.push(listing[i].clone());
        }
        proof {
            let t = views(listing@).take(i + 1);
            assert(t.drop_last() =~= views(listing@).take(i as int));
            assert(t.last() == listing@[i as int]@);
            reveal(Seq::filter);
            if keep {
                assert(views(r@) =~= before.push(listing@[i as int]@));
            } else {
                assert(views(r@) =~= before);
            }
        }
        i = i + 1;
    }
    assert(views(listing@).take(i as int) =~= views(listing@));
    r
}

/// The downloaded files in use, per guild. Each (guild, path) pair is held once.
pub struct ResourceRegistry {
    entries: Vec<(u64, String)>,
    known: Vec<u64>,
}

impl ResourceRegistry {
    /// Whether `path` is marked in use for `guild`.
    pub closed spec fn is_active(&self, guild: u64, path: Seq<char>) -> bool {
        exists|i: int| 0 <= i < self.entries@.len() && self.entries@[i].0 == guild
            && self.entries@[i].1@ == path
    }

    /// The set of (guild, path) pairs marked in use.
    pub open spec fn active(&self) -> Set<(u64, Seq<char>)> {
        Set::new(|e: (u64, Seq<char>)| self.is_active(e.0, e.1))
    }

    /// The paths marked in use for one guild.
    pub open spec fn active_of(&self, guild: u64) -> Set<Seq<char>> {
        Set::new(|p: Seq<char>| self.is_active(guild, p))
    }

    /// The guilds that ever had a file marked in use.
    pub closed spec fn known(&self) -> Set<u64> {
        self.known@.to_set()
    }

    pub closed spec fn wf(&self) -> bool {
        &&& forall|i: int, j: int|
            0 <= i < j < self.entries@.len() ==> !(self.entries@[i].0 == self.entries@[j].0
                && self.entries@[i].1@ == self.entries@[j].1@)
        &&& forall|i: int, j: int|
            0 <= i < j < self.known@.len() ==> self.known@[i] != self.known@[j]
        &&& forall|i: int|
            0 <= i < self.entries@.len() ==> self.known@.contains(#[trigger] self.entries@[i].0)
    }

    /// Two registries that agree on every pair outside `guild` agree on the
    /// files in use of every other guild.
    pub proof fn lemma_other_guilds(a: &ResourceRegistry, b: &ResourceRegistry, guild: u64)
        requires
            forall|e: (u64, Seq<char>)| e.0 != guild ==> (#[trigger] a.active().contains(e)
                == b.active().contains(e)),
        ensures
            forall|g: u64| g != guild ==> #[trigger] a.active_of(g) == b.active_of(g),
    {
        assert forall|g: u64| g != guild implies #[trigger] a.active_of(g) == b.active_of(g) by {
            assert forall|q: Seq<char>| #[trigger] a.active_of(g).contains(q) == b.active_of(g).contains(q) by {
                assert(a.active().contains((g, q)) == b.active().contains((g, q)));
            }
            assert(a.active_of(g) =~= b.active_of(g));
        }
    }

    /// A registry with nothing in use.
    pub fn new() -> (r: ResourceRegistry)
        ensures
            r.wf(),
            r.active() == Set::<(u64, Seq<char>)>::empty(),
            r.known() == Set::<u64>::empty(),
    {
        let r = ResourceRegistry { entries: Vec::new(), known: Vec::new() };
        assert(r.active() =~= Set::<(u64, Seq<char>)>::empty());
        assert(r.known() =~= Set::<u64>::empty());
        r
    }

    fn find(&self, guild: u64, path: &String) -> (r: Option<usize>)
        ensures
            r.is_none() ==> !self.is_active(guild, path@),
            r.is_some() ==> r.unwrap() < self.entries@.len() && self.entries@[r.unwrap() as int].0
                == guild && self.entries@[r.unwrap() as int].1@ == path@,
    {
        let mut i: usize = 0;
        while i < self.entries.len()
            invariant
                i <= self.entries@.len(),
                forall|k: int|
                    0 <= k < i ==> !(self.entries@[k].0 == guild && self.entries@[k].1@ == path@),
            decreases self.entries@.len() - i,
        {
            if self.entries[i].0 == guild && self.entries[i].1 == *path {
                return Some(i);
            }
            i = i + 1;
        }
        None
    }

    /// Marks `path` in use for `guild`; marking it again changes nothing.
    pub fn mark_active(&mut self, guild: u64, path: &String)
        requires
            old(self).wf(),
        ensures
            final(self).wf(),
            final(self).active() == old(self).active().insert((guild, path@)),
            final(self).known() == old(self).known().insert(guild),
    {
        let mut j: usize = 0;
        let mut seen = false;
        while j < self.known.len()
            invariant
                j <= self.known@.len(),
                !seen ==> forall|k: int| 0 <= k < j ==> self.known@[k] != guild,
                seen ==> self.known@.contains(guild),
            decreases self.known@.len() - j,
        {
            if self.known[j] == guild {
                seen = true;
            }
            j = j + 1;
        }
        if !seen {
            self.known.push(guild);
            assert(self.known@[self.known@.len() - 1] == guild);
        }
        assert(self.known@.contains(guild));
        assert(self.known@.to_set() =~= old(self).known@.to_set().insert(guild)) by {
            assert forall|x: u64| #[trigger] self.known@.contains(x) <==> (old(self).known@.contains(x) || x == guild) by {
                if !seen && self.known@.contains(x) {
                    let k = choose|k: int| 0 <= k < self.known@.len() && self.known@[k] == x;
                    if k < old(self).known@.len() {
                        assert(old(self).known@[k] == x);
                    }
                }
                if old(self).known@.contains(x) {
                    let k = choose|k: int| 0 <= k < old(self).known@.len() && old(self).known@[k] == x;
                    assert(self.known@[k] == x);
                }
                if !seen && x == guild {
                    assert(self.known@[self.known@.len() - 1] == x);
                }
            }
        }
        let ghost mid = self.entries@;
        let found = self.find(guild, path);
        if found.is_none() {
            self.entries.push((guild, path.clone()));
        }
        assert forall|i: int| 0 <= i < self.entries@.len() implies self.known@.contains(
            #[trigger] self.entries@[i].0,
        ) by {
            if i < mid.len() {
                assert(old(self).known@.contains(mid[i].0));
                let k = choose|k: int| 0 <= k < old(self).known@.len() && old(self).known@[k] == mid[i].0;
                assert(self.known@[k] == mid[i].0);
            }
        }
        assert(self.active() =~= old(self).active().insert((guild, path@))) by {
            assert forall|e: (u64, Seq<char>)| #[trigger] self.active().contains(e) <==> (old(self).active().contains(e) || e == (guild, path@)) by {
                if self.is_active(e.0, e.1) {
                    let i = choose|i: int| 0 <= i < self.entries@.len() && self.entries@[i].0 == e.0
                        && self.entries@[i].1@ == e.1;
                    if i < mid.len() {
                        assert(old(self).is_active(e.0, e.1));
                    }
                }
                if old(self).is_active(e.0, e.1) {
                    let i = choose|i: int| 0 <= i < mid.len() && mid[i].0 == e.0 && mid[i].1@ == e.1;
                    assert(self.entries@[i] == mid[i]);
                }
                if e == (guild, path@) {
                    if found.is_none() {
                        assert(self.entries@[self.entries@.len() - 1].1@ == path@);
                    } else {
                        assert(self.entries@[found.unwrap() as int] == mid[found.unwrap() as int]);
                    }
                }
            }
        }
    }

    /// Marks `path` no longer in use for `guild`; a path that was not marked is
    /// left as it is.
    pub fn mark_inactive(&mut self, guild: u64, path: &String)
        requires
            old(self).wf(),
        ensures
            final(self).wf(),
            final(self).active() == old(self).active().remove((guild, path@)),
            final(self).known() == old(self).known(),
    {
        let found = self.find(guild, path);
        match found {
            None => {
                assert(self.active() =~= old(self).active().remove((guild, path@)));
            },
            Some(i) => {
                let ghost mid = self.entries@;
                self.entries.remove(i);
                assert(self.entries@ =~= mid.remove(i as int));
                assert(self.active() =~= old(self).active().remove((guild, path@))) by {
                    assert forall|e: (u64, Seq<char>)| #[trigger] self.active().contains(e) <==> (old(self).active().contains(e) && e != (guild, path@)) by {
                        if self.is_active(e.0, e.1) {
                            let k = choose|k: int| 0 <= k < self.entries@.len() && self.entries@[k].0 == e.0
                                && self.entries@[k].1@ == e.1;
                            if k < i {
                                assert(mid[k] == self.entries@[k]);
                            } else {
                                assert(mid[k + 1] == self.entries@[k]);
                            }
                        }
                        if old(self).is_active(e.0, e.1) && e != (guild, path@) {
                            let k = choose|k: int| 0 <= k < mid.len() && mid[k].0 == e.0 && mid[k].1@ == e.1;
                            if k < i {
                                assert(self.entries@[k] == mid[k]);
                            } else {
                                assert(k != i);
                                assert(self.entries@[k - 1] == mid[k]);
                            }
                        }
                    }
                }
            },
        }
    }

    /// A point-in-time copy of the paths in use for `guild`.
    pub fn snapshot(&self, guild: u64) -> (r: Vec<String>)
        ensures
            views(r@).to_set() == self.active_of(guild),
    {
        let mut r: Vec<String> = Vec::new();
        let mut i: usize = 0;
        while i < self.entries.len()
            invariant
                i <= self.entries@.len(),
                forall|p: Seq<char>| #[trigger] views(r@).contains(p) <==> exists|k: int|
                    0 <= k < i && self.entries@[k].0 == guild && self.entries@[k].1@ == p,
            decreases self.entries@.len() - i,
        {
            let ghost before = r@;
            if self.entries[i].0 == guild {
                r.push(self.entries[i].1.clone());
            }
            proof {
                assert forall|p: Seq<char>| #[trigger] views(r@).contains(p) <==> exists|k: int|
                    0 <= k < i + 1 && self.entries@[k].0 == guild && self.entries@[k].1@ == p by {
                    if views(r@).contains(p) {
                        let j = choose|j: int| 0 <= j < views(r@).len() && views(r@)[j] == p;
                        if j < before.len() {
                            assert(r@[j] == before[j]);
                            assert(views(before)[j] == p);
                            assert(views(before).contains(p));
                        } else {
                            assert(self.entries@[i as int].1@ == p);
                        }
                    }
                    if exists|k: int| 0 <= k < i + 1 && self.entries@[k].0 == guild && self.entries@[k].1@ == p {
                        let k = choose|k: int| 0 <= k < i + 1 && self.entries@[k].0 == guild && self.entries@[k].1@ == p;
                        if k < i {
                            assert(views(before).contains(p));
                            let j = choose|j: int| 0 <= j < views(before).len() && views(before)[j] == p;
                            assert(r@[j] == before[j]);
                            assert(views(r@)[j] == p);
                        } else {
                            assert(r@.len() == before.len() + 1);
                            assert(views(r@)[r@.len() - 1] == p);
                        }
                    }
                }
            }
            i = i + 1;
        }
        assert(views(r@).to_set() =~= self.active_of(guild));
        r
    }

    /// The guilds that ever had a file marked in use, each once.
    pub fn tenants(&self) -> (r: Vec<u64>)
        requires
            self.wf(),
        ensures
            r@.to_set() == self.known(),
            r@.no_duplicates(),
    {
        self.known.clone()
    }
}

} // verus!
