//! The ordered list of pending playback requests of one guild.
use vstd::prelude::*;

verus! {

/// Pending requests of one guild; index 0 is the item that is playing or about to play.
pub struct TenantQueue {
    items: Vec<String>,
}

impl View for TenantQueue {
    type V = Seq<Seq<char>>;

    closed spec fn view(&self) -> Seq<Seq<char>> {
        self.items@.map_values(|s: String| s@)
    }
}

impl TenantQueue {
    /// An empty queue.
    pub fn new() -> (r: TenantQueue)
        ensures
            r@ == Seq::<Seq<char>>::empty(),
    {
        let r = TenantQueue { items: Vec::new() };
        assert(r@ =~= Seq::<Seq<char>>::empty());
        r
    }

    /// Number of pending requests.
    pub fn len(&self) -> (r: usize)
        ensures
            r == self@.len(),
    {
        self.items.len()
    }

    pub fn is_empty(&self) -> (r: bool)
        ensures
            r == (self@.len() == 0),
    {
        self.items.len() == 0
    }

    /// Appends `request` at the back and returns the new length.
    pub fn enqueue(&mut self, request: String) -> (r: usize)
        requires
            old(self)@.len() < usize::MAX,
        ensures
            final(self)@ == old(self)@.push(request@),
            r == final(self)@.len(),
    {
        self.items.push(request);
        assert(self@ =~= old(self)@.push(request@));
        self.items.len()
    }

    /// Removes the head if there is one; on an empty queue nothing changes.
    pub fn pop_head(&mut self)
        ensures
            old(self)@.len() == 0 ==> final(self)@ == old(self)@,
            old(self)@.len() > 0 ==> final(self)@ == old(self)@.drop_first(),
    {
        if self.items.len() > 0 {
            self.items.remove(0);
            assert(self@ =~= old(self)@.drop_first());
        }
    }

    /// The head, if any.
    pub fn peek_head(&self) -> (r: Option<String>)
        ensures
            self@.len() == 0 ==> r.is_none(),
            self@.len() > 0 ==> r.is_some() && r.unwrap()@ == self@[0],
    {
        if self.items.len() > 0 {
            Some(self.items[0].clone())
        } else {
            None
        }
    }

    /// Removes every request.
    pub fn clear(&mut self)
        ensures
            final(self)@ == Seq::<Seq<char>>::empty(),
    {
        self.items.clear();
        assert(self@ =~= Seq::<Seq<char>>::empty());
    }

    /// A copy of the pending requests, head first.
    pub fn items(&self) -> (r: Vec<String>)
        ensures
            r@.map_values(|s: String| s@) == self@,
    {
        let mut r: Vec<String> = Vec::new();
        let mut i: usize = 0;
        while i < self.items.len()
            invariant
                i <= self.items@.len(),
                r@.len() == i,
                forall|k: int| 0 <= k < i ==> #[trigger] r@[k]@ == self.items@[k]@,
            decreases self.items@.len() - i,
        {
            r.push(self.items[i].clone());
            i = i + 1;
        }
        assert(r@.map_values(|s: String| s@) =~= self@);
        r
    }
}

} // verus!
