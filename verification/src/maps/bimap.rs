//! A map that can be read in both directions.
use crate::maps::fastqueue::same;
use crate::maps::pairmap::pair_views;
use vstd::laws_eq::obeys_view_eq;
use vstd::prelude::*;

verus! {

/// The right item that the last of the first `n` pairs with the left item
/// `left` gives to it.
pub open spec fn right_of<A, B>(pairs: Seq<(A, B)>, left: A, n: int) -> Option<B>
    decreases n,
{
    if n <= 0 || n > pairs.len() {
        None
    } else if pairs[n - 1].0 == left {
        Some(pairs[n - 1].1)
    } else {
        right_of(pairs, left, n - 1)
    }
}

/// The left item that the last of the first `n` pairs with the right item
/// `right` gives to it.
pub open spec fn left_of<A, B>(pairs: Seq<(A, B)>, right: B, n: int) -> Option<A>
    decreases n,
{
    if n <= 0 || n > pairs.len() {
        None
    } else if pairs[n - 1].1 == right {
        Some(pairs[n - 1].0)
    } else {
        left_of(pairs, right, n - 1)
    }
}

/// A map from left items to right items and back. A later pair takes the
/// place of an earlier one for its left item in the one direction and for
/// its right item in the other.
pub struct BiMap<Left, Right> {
    pairs: Vec<(Left, Right)>,
}

impl<Left: View, Right: View> View for BiMap<Left, Right> {
    type V = Seq<(Left::V, Right::V)>;

    /// The pairs that were put in, in order.
    closed spec fn view(&self) -> Seq<(Left::V, Right::V)> {
        pair_views(self.pairs@)
    }
}

impl<Left: PartialEq + View, Right: PartialEq + View> BiMap<Left, Right> {
    /// The empty map.
    pub fn new() -> (m: BiMap<Left, Right>)
        ensures
            m@ == Seq::<(Left::V, Right::V)>::empty(),
    {
        let m = BiMap { pairs: Vec::new() };
        assert(m@ =~= Seq::<(Left::V, Right::V)>::empty());
        m
    }

    /// Binds `left` to `right` and `right` to `left`.
    pub fn insert(&mut self, left: Left, right: Right)
        ensures
            final(self)@ == old(self)@.push((left@, right@)),
    {
        self.pairs.push((left, right));
        assert(self@ =~= old(self)@.push((left@, right@)));
    }

    /// The right item that `left` is bound to.
    pub fn get_with_left(&self, left: &Left) -> (r: Option<&Right>)
        requires
            obeys_view_eq::<Left>(),
        ensures
            match r {
                Some(right) => right_of(self@, left@, self@.len() as int) == Some(right@),
                None => right_of(self@, left@, self@.len() as int) is None,
            },
    {
        let mut n: usize = self.pairs.len();
        while n > 0
            invariant
                n <= self.pairs.len(),
                obeys_view_eq::<Left>(),
                right_of(self@, left@, self@.len() as int) == right_of(self@, left@, n as int),
            decreases n,
        {
            if same(&self.pairs[n - 1].0, left) {
                return Some(&self.pairs[n - 1].1);
            }
            n = n - 1;
        }
        None
    }

    /// The left item that `right` is bound to.
    pub fn get_with_right(&self, right: &Right) -> (r: Option<&Left>)
        requires
            obeys_view_eq::<Right>(),
        ensures
            match r {
                Some(left) => left_of(self@, right@, self@.len() as int) == Some(left@),
                None => left_of(self@, right@, self@.len() as int) is None,
            },
    {
        let mut n: usize = self.pairs.len();
        while n > 0
            invariant
                n <= self.pairs.len(),
                obeys_view_eq::<Right>(),
                left_of(self@, right@, self@.len() as int) == left_of(self@, right@, n as int),
            decreases n,
        {
            if same(&self.pairs[n - 1].1, right) {
                return Some(&self.pairs[n - 1].0);
            }
            n = n - 1;
        }
        None
    }
}

} // verus!
