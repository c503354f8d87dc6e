//! Laws that hold across several operations, stated over the contracts'
//! own models and proved.
use vstd::prelude::*;
use crate::directory::QueueDirectory;
use crate::playback::Phase;
use crate::registry::{is_stale, ResourceRegistry};

verus! {

/// A queue after `requests` were enqueued on it in order (each enqueue pushes).
pub open spec fn after_enqueues(q: Seq<Seq<char>>, requests: Seq<Seq<char>>) -> Seq<Seq<char>>
    decreases requests.len(),
{
    if requests.len() == 0 {
        q
    } else {
        after_enqueues(q, requests.drop_last()).push(requests.last())
    }
}

/// A queue after `n` removals of its head (a removal on an empty queue does nothing).
pub open spec fn after_pops(q: Seq<Seq<char>>, n: nat) -> Seq<Seq<char>>
    decreases n,
{
    if n == 0 || q.len() == 0 {
        q
    } else {
        after_pops(q.drop_first(), (n - 1) as nat)
    }
}

proof fn lemma_enqueues_append(q: Seq<Seq<char>>, requests: Seq<Seq<char>>)
    ensures
        after_enqueues(q, requests) == q + requests,
    decreases requests.len(),
{
    if requests.len() > 0 {
        lemma_enqueues_append(q, requests.drop_last());
        assert(q + requests =~= (q + requests.drop_last()).push(requests.last()));
    }
}

proof fn lemma_pops_skip(q: Seq<Seq<char>>, n: nat)
    requires
        n <= q.len(),
    ensures
        after_pops(q, n) == q.skip(n as int),
    decreases n,
{
    if n > 0 {
        lemma_pops_skip(q.drop_first(), (n - 1) as nat);
        assert(q.drop_first().skip(n - 1) =~= q.skip(n as int));
    } else {
        assert(q.skip(0) =~= q);
    }
}

/// Requests leave a guild's queue in the order they were enqueued: starting
/// from an empty queue, after `i` removals of the head the head is the
/// `i`-th request enqueued.
pub proof fn lemma_fifo(requests: Seq<Seq<char>>, i: nat)
    requires
        i < requests.len(),
    ensures
        after_pops(after_enqueues(Seq::empty(), requests), i).len() == requests.len() - i,
        after_pops(after_enqueues(Seq::empty(), requests), i)[0] == requests[i as int],
{
    lemma_enqueues_append(Seq::empty(), requests);
    assert(Seq::<Seq<char>>::empty() + requests =~= requests);
    lemma_pops_skip(requests, i);
}

/// Each guild has at most one file marked in use, the file of its item
/// playing, and none while it is not playing.
pub proof fn lemma_one_active_file(dir: &QueueDirectory, reg: &ResourceRegistry, guild: u64)
    requires
        dir.wf(),
        dir.coherent(reg),
    ensures
        reg.active_of(guild).finite(),
        reg.active_of(guild).len() <= 1,
        reg.active_of(guild) == match dir.artifact_of(guild) {
            Some(p) => Set::<Seq<char>>::empty().insert(p),
            None => Set::<Seq<char>>::empty(),
        },
        dir.phase_of(guild) != Phase::Playing ==> reg.active_of(guild) == Set::<Seq<char>>::empty(),
{
    if dir.map().contains_key(guild) {
        assert(dir.map()[guild].coherent(reg));
        dir.lemma_member_wf(guild);
    }
    match dir.artifact_of(guild) {
        Some(p) => {
            assert(Set::<Seq<char>>::empty().insert(p).len() == 1);
        },
        None => {},
    }
}

/// A sweep deletes only listed files that were not in the snapshot of files
/// in use, and every such file; so files in use survive any number of
/// sweeps, whatever part of the listing each one sees.
pub proof fn lemma_reap_spares_active(listing: Seq<Seq<char>>, active: Seq<Seq<char>>)
    ensures
        forall|p: Seq<char>| #[trigger] listing.filter(is_stale(active)).contains(p) <==> (
        listing.contains(p) && !active.contains(p)),
{
    let stale = is_stale(active);
    assert forall|p: Seq<char>| #[trigger] listing.filter(stale).contains(p) <==> (
    listing.contains(p) && !active.contains(p)) by {
        let out = listing.filter(stale);
        if out.contains(p) {
            listing.lemma_filter_contains_rev(stale, p);
            let j = choose|j: int| 0 <= j < out.len() && out[j] == p;
            listing.lemma_filter_pred(stale, j);
        }
        if listing.contains(p) && !active.contains(p) {
            let k = choose|k: int| 0 <= k < listing.len() && listing[k] == p;
            listing.lemma_filter_contains(stale, k);
        }
    }
}

/// A second sweep over what a first one left deletes nothing.
pub proof fn lemma_reap_twice(listing: Seq<Seq<char>>, active: Seq<Seq<char>>)
    ensures
        listing.filter(|p: Seq<char>| active.contains(p)).filter(is_stale(active)).len() == 0,
{
    let in_use = |p: Seq<char>| active.contains(p);
    let stale = is_stale(active);
    let left = listing.filter(in_use);
    let twice = left.filter(stale);
    if twice.len() > 0 {
        left.lemma_filter_pred(stale, 0);
        assert(twice.contains(twice[0]));
        left.lemma_filter_contains_rev(stale, twice[0]);
        let j = choose|j: int| 0 <= j < left.len() && left[j] == twice[0];
        listing.lemma_filter_pred(in_use, j);
        assert(false);
    }
}

/// Marking a file no longer in use twice is the same as marking it once.
pub proof fn lemma_mark_inactive_idempotent(active: Set<(u64, Seq<char>)>, guild: u64, path: Seq<char>)
    ensures
        active.remove((guild, path)).remove((guild, path)) == active.remove((guild, path)),
{
    assert(active.remove((guild, path)).remove((guild, path)) =~= active.remove((guild, path)));
}

/// Removing the head of an empty queue, or emptying an empty queue, changes nothing.
pub proof fn lemma_empty_queue_ops(q: Seq<Seq<char>>)
    requires
        q.len() == 0,
    ensures
        after_pops(q, 1) == q,
        q == Seq::<Seq<char>>::empty(),
{
    assert(q =~= Seq::<Seq<char>>::empty());
}

} // verus!
