//! What is handed to the media fetcher, and how its download is recognised.
use vstd::prelude::*;
use vstd::string::*;

verus! {

/// The prefix that marks a request as a direct link.
pub open spec fn link_prefix() -> Seq<char> {
    seq!['h', 't', 't', 'p']
}

/// The prefix that asks the fetcher for the single best search match.
pub open spec fn search_prefix() -> Seq<char> {
    seq!['y', 't', 's', 'e', 'a', 'r', 'c', 'h', '1', ':']
}

/// Whether a request is a link rather than free text.
pub open spec fn is_link(request: Seq<char>) -> bool {
    request.len() >= 4 && request.subrange(0, 4) == link_prefix()
}

/// What the fetcher is asked for: a link as it stands, free text as a search.
pub open spec fn search_query_spec(request: Seq<char>) -> Seq<char> {
    if is_link(request) {
        request
    } else {
        search_prefix() + request
    }
}

/// Whether `request` starts with the link prefix.
pub fn is_link_request(request: &str) -> (r: bool)
    ensures
        r == is_link(request@),
{
    proof {
        reveal_strlit("http");
    }
    let prefix = "http";
    if request.unicode_len() < 4 {
        return false;
    }
    let head = request.substring_char(0, 4);
    let mut i: usize = 0;
    while i < 4
        invariant
            i <= 4,
            request@.len() >= 4,
            head@ == request@.subrange(0, 4),
            prefix@ == link_prefix(),
            forall|k: int| 0 <= k < i ==> head@[k] == prefix@[k],
        decreases 4 - i,
    {
        if head.get_char(i) != prefix.get_char(i) {
            assert(request@.subrange(0, 4)[i as int] != link_prefix()[i as int]);
            assert(request@.subrange(0, 4) != link_prefix());
            return false;
        }
        i = i + 1;
    }
    assert(head@ =~= link_prefix());
    true
}

/// The query handed to the fetcher for `request`.
pub fn search_query(request: &str) -> (r: String)
    ensures
        r@ == search_query_spec(request@),
{
    if is_link_request(request) {
        String::from_str(request)
    } else {
        proof {
            reveal_strlit("ytsearch1:");
        }
        let mut r = String::from_str("ytsearch1:");
        assert(r@ =~= search_prefix());
        r.append(request);
        r
    }
}

/// Whether entry `i` is the first with the latest modification time, which
/// must be later than the epoch.
pub open spec fn is_latest(files: Seq<(String, u128)>, i: int) -> bool {
    &&& 0 <= i < files.len()
    &&& files[i].1 > 0
    &&& forall|j: int| 0 <= j < files.len() ==> #[trigger] files[j].1 <= files[i].1
    &&& forall|j: int| 0 <= j < i ==> #[trigger] files[j].1 < files[i].1
}

/// Among directory entries paired with their modification time (nanoseconds
/// after the epoch), the first one modified last; none when no entry was
/// modified after the epoch.
pub fn latest_file(files: &Vec<(String, u128)>) -> (r: Option<String>)
    ensures
        r.is_none() <==> forall|j: int| 0 <= j < files@.len() ==> #[trigger] files@[j].1 == 0,
        r.is_some() ==> exists|i: int| is_latest(files@, i) && files@[i].0@ == r.unwrap()@,
{
    let mut best: Option<usize> = None;
    let mut best_time: u128 = 0;
    let mut i: usize = 0;
    while i < files.len()
        invariant
            i <= files@.len(),
            best.is_none() ==> best_time == 0 && forall|j: int| 0 <= j < i ==> #[trigger] files@[j].1 == 0,
            best.is_some() ==> best.unwrap() < i && best_time == files@[best.unwrap() as int].1
                && best_time > 0
                && (forall|j: int| 0 <= j < i ==> #[trigger] files@[j].1 <= best_time)
                && (forall|j: int| 0 <= j < best.unwrap() ==> #[trigger] files@[j].1 < best_time),
        decreases files@.len() - i,
    {
        if files[i].1 > best_time {
            best = Some(i);
            best_time = files[i].1;
        }
        i = i + 1;
    }
    match best {
        Some(b) => {
            assert(is_latest(files@, b as int));
            Some(files[b].0.clone())
        },
        None => None,
    }
}

} // verus!
