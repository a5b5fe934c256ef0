//! A relation between left and right items that can be read in both
//! directions.
use crate::maps::fastqueue::{same, views};
use crate::maps::sequences::push_contains;
use vstd::laws_eq::obeys_view_eq;
use vstd::prelude::*;

verus! {

/// The views of a sequence of pairs.
pub open spec fn pair_views<L: View, R: View>(s: Seq<(L, R)>) -> Seq<(L::V, R::V)> {
    Seq::new(s.len(), |i: int| (s[i].0@, s[i].1@))
}

/// The right items that the first `n` pairs give to `left`, in order.
pub open spec fn rights_of<A, B>(pairs: Seq<(A, B)>, left: A, n: int) -> Seq<B>
    decreases n,
{
    if n <= 0 || n > pairs.len() {
        Seq::empty()
    } else if pairs[n - 1].0 == left {
        rights_of(pairs, left, n - 1).push(pairs[n - 1].1)
    } else {
        rights_of(pairs, left, n - 1)
    }
}

/// The left items that the first `n` pairs give to `right`, in order.
pub open spec fn lefts_of<A, B>(pairs: Seq<(A, B)>, right: B, n: int) -> Seq<A>
    decreases n,
{
    if n <= 0 || n > pairs.len() {
        Seq::empty()
    } else if pairs[n - 1].1 == right {
        lefts_of(pairs, right, n - 1).push(pairs[n - 1].0)
    } else {
        lefts_of(pairs, right, n - 1)
    }
}

/// Those of the first `n` pairs whose left item is not `left`, in order.
pub open spec fn without_left<A, B>(pairs: Seq<(A, B)>, left: A, n: int) -> Seq<(A, B)>
    decreases n,
{
    if n <= 0 || n > pairs.len() {
        Seq::empty()
    } else if pairs[n - 1].0 == left {
        without_left(pairs, left, n - 1)
    } else {
        without_left(pairs, left, n - 1).push(pairs[n - 1])
    }
}

/// Those of the first `n` pairs whose right item is not `right`, in order.
pub open spec fn without_right<A, B>(pairs: Seq<(A, B)>, right: B, n: int) -> Seq<(A, B)>
    decreases n,
{
    if n <= 0 || n > pairs.len() {
        Seq::empty()
    } else if pairs[n - 1].1 == right {
        without_right(pairs, right, n - 1)
    } else {
        without_right(pairs, right, n - 1).push(pairs[n - 1])
    }
}

/// What a relation holds after the pairs with a left item are taken out:
/// the pairs with another left item.
pub proof fn without_left_contains<A, B>(pairs: Seq<(A, B)>, left: A, n: int)
    requires
        0 <= n <= pairs.len(),
    ensures
        forall|p: (A, B)|
            #[trigger] without_left(pairs, left, n).contains(p) <==> p.0 != left && pairs.take(
                n,
            ).contains(p),
    decreases n,
{
    if n > 0 {
        without_left_contains(pairs, left, n - 1);
        let before = without_left(pairs, left, n - 1);
        let last = pairs[n - 1];
        let shorter = pairs.take(n - 1);
        assert(pairs.take(n) =~= shorter.push(last));
        push_contains(shorter, last);
        push_contains(before, last);
        assert forall|p: (A, B)|
            #[trigger] without_left(pairs, left, n).contains(p) <==> p.0 != left && pairs.take(
                n,
            ).contains(p) by {
            assert(before.contains(p) <==> p.0 != left && shorter.contains(p));
        }
    } else {
        assert(pairs.take(0) =~= Seq::empty());
    }
}

/// What a relation holds after the pairs with a right item are taken out:
/// the pairs with another right item.
pub proof fn without_right_contains<A, B>(pairs: Seq<(A, B)>, right: B, n: int)
    requires
        0 <= n <= pairs.len(),
    ensures
        forall|p: (A, B)|
            #[trigger] without_right(pairs, right, n).contains(p) <==> p.1 != right && pairs.take(
                n,
            ).contains(p),
    decreases n,
{
    if n > 0 {
        without_right_contains(pairs, right, n - 1);
        let before = without_right(pairs, right, n - 1);
        let last = pairs[n - 1];
        let shorter = pairs.take(n - 1);
        assert(pairs.take(n) =~= shorter.push(last));
        push_contains(shorter, last);
        push_contains(before, last);
        assert forall|p: (A, B)|
            #[trigger] without_right(pairs, right, n).contains(p) <==> p.1 != right && pairs.take(
                n,
            ).contains(p) by {
            assert(before.contains(p) <==> p.1 != right && shorter.contains(p));
        }
    } else {
        assert(pairs.take(0) =~= Seq::empty());
    }
}

/// Taking the pairs with a left item out of a relation that holds no pair
/// twice leaves one that holds no pair twice.
pub proof fn without_left_distinct<A, B>(pairs: Seq<(A, B)>, left: A, n: int)
    requires
        0 <= n <= pairs.len(),
        pairs.no_duplicates(),
    ensures
        without_left(pairs, left, n).no_duplicates(),
    decreases n,
{
    if n > 0 {
        without_left_distinct(pairs, left, n - 1);
        without_left_contains(pairs, left, n - 1);
        let before = without_left(pairs, left, n - 1);
        let last = pairs[n - 1];
        let shorter = pairs.take(n - 1);
        if shorter.contains(last) {
            let j = choose|j: int| 0 <= j < shorter.len() && shorter[j] == last;
            assert(pairs[j] == pairs[n - 1]);
        }
        assert(!before.contains(last));
    }
}

/// Taking the pairs with a right item out of a relation that holds no pair
/// twice leaves one that holds no pair twice.
pub proof fn without_right_distinct<A, B>(pairs: Seq<(A, B)>, right: B, n: int)
    requires
        0 <= n <= pairs.len(),
        pairs.no_duplicates(),
    ensures
        without_right(pairs, right, n).no_duplicates(),
    decreases n,
{
    if n > 0 {
        without_right_distinct(pairs, right, n - 1);
        without_right_contains(pairs, right, n - 1);
        let before = without_right(pairs, right, n - 1);
        let last = pairs[n - 1];
        let shorter = pairs.take(n - 1);
        if shorter.contains(last) {
            let j = choose|j: int| 0 <= j < shorter.len() && shorter[j] == last;
            assert(pairs[j] == pairs[n - 1]);
        }
        assert(!before.contains(last));
    }
}

/// A relation between left and right items. An item may stand in any number
/// of pairs on either side; a pair put in twice is held once.
pub struct PairMap<Left, Right> {
    pairs: Vec<(Left, Right)>,
}

impl<Left: View, Right: View> View for PairMap<Left, Right> {
    type V = Seq<(Left::V, Right::V)>;

    /// The pairs of the relation, in the order in which they were put in.
    closed spec fn view(&self) -> Seq<(Left::V, Right::V)> {
        pair_views(self.pairs@)
    }
}

impl<Left: PartialEq + View, Right: PartialEq + View> PairMap<Left, Right> {
    /// The empty relation.
    pub fn new() -> (m: PairMap<Left, Right>)
        ensures
            m@ == Seq::<(Left::V, Right::V)>::empty(),
    {
        let m = PairMap { pairs: Vec::new() };
        assert(m@ =~= Seq::<(Left::V, Right::V)>::empty());
        m
    }

    /// Whether the pair is in the relation.
    pub fn contains(&self, left: &Left, right: &Right) -> (r: bool)
        requires
            obeys_view_eq::<Left>(),
            obeys_view_eq::<Right>(),
        ensures
            r == self@.contains((left@, right@)),
    {
        let mut i: usize = 0;
        while i < self.pairs.len()
            invariant
                i <= self.pairs.len(),
                obeys_view_eq::<Left>(),
                obeys_view_eq::<Right>(),
                forall|j: int| 0 <= j < i ==> self@[j] != (left@, right@),
            decreases self.pairs.len() - i,
        {
            if same(&self.pairs[i].0, left) && same(&self.pairs[i].1, right) {
                assert(self@[i as int] == (left@, right@));
                return true;
            }
            i = i + 1;
        }
        false
    }

    /// Puts the pair into the relation, unless it is there already.
    pub fn insert(&mut self, left: Left, right: Right)
        requires
            obeys_view_eq::<Left>(),
            obeys_view_eq::<Right>(),
        ensures
            final(self)@ == if old(self)@.contains((left@, right@)) {
                old(self)@
            } else {
                old(self)@.push((left@, right@))
            },
            old(self)@.no_duplicates() ==> final(self)@.no_duplicates(),
    {
        if !self.contains(&left, &right) {
            self.pairs.push((left, right));
            assert(self@ =~= old(self)@.push((left@, right@)));
        }
    }

    /// The right items paired with `left`, in the order in which the pairs
    /// were put in.
    pub fn get_with_left<'a>(&'a self, left: &Left) -> (r: Vec<&'a Right>)
        requires
            obeys_view_eq::<Left>(),
        ensures
            views(r@) == rights_of(self@, left@, self@.len() as int),
    {
        let mut found: Vec<&'a Right> = Vec::new();
        let mut i: usize = 0;
        assert(views(found@) =~= rights_of(self@, left@, 0));
        while i < self.pairs.len()
            invariant
                i <= self.pairs.len(),
                obeys_view_eq::<Left>(),
                views(found@) == rights_of(self@, left@, i as int),
            decreases self.pairs.len() - i,
        {
            let ghost before = found@;
            if same(&self.pairs[i].0, left) {
                found.push(&self.pairs[i].1);
                assert(views(found@) =~= views(before).push(self@[i as int].1));
            }
            i = i + 1;
        }
        found
    }

    /// The left items paired with `right`, in the order in which the pairs
    /// were put in.
    pub fn get_with_right<'a>(&'a self, right: &Right) -> (r: Vec<&'a Left>)
        requires
            obeys_view_eq::<Right>(),
        ensures
            views(r@) == lefts_of(self@, right@, self@.len() as int),
    {
        let mut found: Vec<&'a Left> = Vec::new();
        let mut i: usize = 0;
        assert(views(found@) =~= lefts_of(self@, right@, 0));
        while i < self.pairs.len()
            invariant
                i <= self.pairs.len(),
                obeys_view_eq::<Right>(),
                views(found@) == lefts_of(self@, right@, i as int),
            decreases self.pairs.len() - i,
        {
            let ghost before = found@;
            if same(&self.pairs[i].1, right) {
                found.push(&self.pairs[i].0);
                assert(views(found@) =~= views(before).push(self@[i as int].0));
            }
            i = i + 1;
        }
        found
    }

    /// Takes every pair with the left item `left` out of the relation.
    pub fn delete_with_left(&mut self, left: &Left)
        requires
            obeys_view_eq::<Left>(),
        ensures
            final(self)@ == without_left(old(self)@, left@, old(self)@.len() as int),
            old(self)@.no_duplicates() ==> final(self)@.no_duplicates(),
    {
        proof {
            if self@.no_duplicates() {
                without_left_distinct(self@, left@, self@.len() as int);
            }
        }
        let ghost all = self@;
        let ghost mut done: int = 0;
        let mut i: usize = 0;
        assert(self@.subrange(0, 0) =~= without_left(all, left@, 0));
        while i < self.pairs.len()
            invariant
                i <= self.pairs.len(),
                obeys_view_eq::<Left>(),
                all == old(self)@,
                0 <= done <= all.len(),
                self@.len() - i == all.len() - done,
                self@.subrange(0, i as int) == without_left(all, left@, done),
                forall|j: int| i <= j < self@.len() ==> #[trigger] self@[j] == all[j - i + done],
            decreases self.pairs.len() - i,
        {
            let ghost before = self@;
            assert(before[i as int] == all[done]);
            if same(&self.pairs[i].0, left) {
                self.pairs.remove(i);
                proof {
                    assert(self@ =~= before.remove(i as int));
                    assert(self@.subrange(0, i as int) =~= before.subrange(0, i as int));
                    assert forall|j: int| i <= j < self@.len() implies #[trigger] self@[j] == all[j
                        - i + done + 1] by {
                        assert(before[j + 1] == all[j + 1 - i + done]);
                    }
                    done = done + 1;
                }
            } else {
                proof {
                    assert(self@.subrange(0, i + 1) =~= before.subrange(0, i as int).push(
                        all[done],
                    ));
                    assert forall|j: int| i + 1 <= j < self@.len() implies #[trigger] self@[j]
                        == all[j - (i + 1) + done + 1] by {
                        assert(before[j] == all[j - i + done]);
                    }
                    done = done + 1;
                }
                i = i + 1;
            }
        }
        assert(self@.subrange(0, i as int) =~= self@);
    }

    /// Takes every pair with the right item `right` out of the relation.
    pub fn delete_with_right(&mut self, right: &Right)
        requires
            obeys_view_eq::<Right>(),
        ensures
            final(self)@ == without_right(old(self)@, right@, old(self)@.len() as int),
            old(self)@.no_duplicates() ==> final(self)@.no_duplicates(),
    {
        proof {
            if self@.no_duplicates() {
                without_right_distinct(self@, right@, self@.len() as int);
            }
        }
        let ghost all = self@;
        let ghost mut done: int = 0;
        let mut i: usize = 0;
        assert(self@.subrange(0, 0) =~= without_right(all, right@, 0));
        while i < self.pairs.len()
            invariant
                i <= self.pairs.len(),
                obeys_view_eq::<Right>(),
                all == old(self)@,
                0 <= done <= all.len(),
                self@.len() - i == all.len() - done,
                self@.subrange(0, i as int) == without_right(all, right@, done),
                forall|j: int| i <= j < self@.len() ==> #[trigger] self@[j] == all[j - i + done],
            decreases self.pairs.len() - i,
        {
            let ghost before = self@;
            assert(before[i as int] == all[done]);
            if same(&self.pairs[i].1, right) {
                self.pairs.remove(i);
                proof {
                    assert(self@ =~= before.remove(i as int));
                    assert(self@.subrange(0, i as int) =~= before.subrange(0, i as int));
                    assert forall|j: int| i <= j < self@.len() implies #[trigger] self@[j] == all[j
                        - i + done + 1] by {
                        assert(before[j + 1] == all[j + 1 - i + done]);
                    }
                    done = done + 1;
                }
            } else {
                proof {
                    assert(self@.subrange(0, i + 1) =~= before.subrange(0, i as int).push(
                        all[done],
                    ));
                    assert forall|j: int| i + 1 <= j < self@.len() implies #[trigger] self@[j]
                        == all[j - (i + 1) + done + 1] by {
                        assert(before[j] == all[j - i + done]);
                    }
                    done = done + 1;
                }
                i = i + 1;
            }
        }
        assert(self@.subrange(0, i as int) =~= self@);
    }
}

} // verus!
