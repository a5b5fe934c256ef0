//! A first-in first-out queue that holds no item twice.
use vstd::laws_eq::obeys_view_eq;
use vstd::prelude::*;

verus! {

/// The views of a sequence of items.
pub open spec fn views<T: View>(s: Seq<T>) -> Seq<T::V> {
    Seq::new(s.len(), |i: int| s[i]@)
}

/// Whether two items have the same view, decided by `==`.
pub fn same<T: PartialEq + View>(a: &T, b: &T) -> (r: bool)
    requires
        obeys_view_eq::<T>(),
    ensures
        r == (a@ == b@),
{
    proof {
        reveal(obeys_view_eq);
    }
    a.eq(b)
}

/// A queue of items in which no item waits twice: pushing an item that is
/// already waiting changes nothing. Once popped, an item can be pushed
/// again.
pub struct FastQueue<T> {
    queue: Vec<T>,
}

impl<T: View> View for FastQueue<T> {
    type V = Seq<T::V>;

    /// The waiting items, the next one to leave first.
    closed spec fn view(&self) -> Seq<T::V> {
        views(self.queue@)
    }
}

impl<T: PartialEq + View> FastQueue<T> {
    /// An empty queue.
    pub fn new() -> (q: FastQueue<T>)
        ensures
            q@ == Seq::<T::V>::empty(),
    {
        let q = FastQueue { queue: Vec::new() };
        assert(q@ =~= Seq::<T::V>::empty());
        q
    }

    /// Whether an item with the view of `item` is waiting.
    pub fn contains(&self, item: &T) -> (r: bool)
        requires
            obeys_view_eq::<T>(),
        ensures
            r == self@.contains(item@),
    {
        let mut i: usize = 0;
        while i < self.queue.len()
            invariant
                i <= self.queue.len(),
                obeys_view_eq::<T>(),
                forall|j: int| 0 <= j < i ==> self@[j] != item@,
            decreases self.queue.len() - i,
        {
            if same(&self.queue[i], item) {
                assert(self@[i as int] == item@);
                return true;
            }
            i = i + 1;
        }
        false
    }

    /// Puts `item` at the back of the queue, unless it is already waiting.
    pub fn push(&mut self, item: T)
        requires
            obeys_view_eq::<T>(),
        ensures
            final(self)@ == if old(self)@.contains(item@) {
                old(self)@
            } else {
                old(self)@.push(item@)
            },
            old(self)@.no_duplicates() ==> final(self)@.no_duplicates(),
    {
        if !self.contains(&item) {
            self.queue.push(item);
            assert(self@ =~= old(self)@.push(item@));
        }
    }

    /// Takes the item at the front of the queue.
    pub fn pop(&mut self) -> (r: Option<T>)
        ensures
            match r {
                Some(item) => old(self)@.len() > 0 && item@ == old(self)@[0] && final(self)@
                    == old(self)@.drop_first(),
                None => old(self)@.len() == 0 && final(self)@ == old(self)@,
            },
            old(self)@.no_duplicates() ==> final(self)@.no_duplicates(),
    {
        if self.queue.len() == 0 {
            None
        } else {
            let item = self.queue.remove(0);
            assert(self@ =~= old(self)@.drop_first());
            Some(item)
        }
    }

    /// Whether nothing is waiting.
    pub fn is_empty(&self) -> (r: bool)
        ensures
            r == (self@.len() == 0),
    {
        self.queue.len() == 0
    }
}

} // verus!
