use vstd::prelude::*;
use vstd::slice::slice_subrange;
use vstd::std_specs::iter::IteratorSpec;
use std::slice::{Iter, IterMut};
use std::vec::IntoIter;

verus! {

/// The sequence `s` with the items at `i` and `j` exchanged.
pub open spec fn swapped<T>(s: Seq<T>, i: int, j: int) -> Seq<T> {
    s.update(i, s[j]).update(j, s[i])
}

/// Exchanges two items of a slice (std's `<[T]>::swap`).
/// The documentation states that the items at `a` and `b` trade places and
/// that the call panics when either index is out of bounds.
pub assume_specification<Elem>[ <[Elem]>::swap ](s: &mut [Elem], a: usize, b: usize)
    requires
        a < old(s)@.len(),
        b < old(s)@.len(),
    ensures
        final(s)@ == swapped(old(s)@, a as int, b as int),
;

/// std's mutable slice iterator, carried through unchanged.
#[verifier::external_type_specification]
#[verifier::external_body]
#[verifier::reject_recursive_types(Slot)]
pub struct ExIterMut<'a, Slot: 'a>(std::slice::IterMut<'a, Slot>);

/// Calls std's `<[T]>::iter_mut`. The iterator is opaque here: nothing is
/// stated of the references it hands out, only that the slice keeps its
/// length, as a slice always does.
#[verifier::external_body]
fn slice_iter_mut<'a, U>(s: &'a mut [U]) -> (it: IterMut<'a, U>)
    ensures
        final(s)@.len() == old(s)@.len(),
{
    s.iter_mut()
}

/// A `Vec` type that maintains a simple sorting order:
/// items are either on the left or right. The order is
/// maintained by a swap and inc/dec of the split index.
pub struct SplitVec<T> {
    /// The underlying `Vec`.
    vec: Vec<T>,
    /// The split index. All items with a smaller index
    /// are "left", and items with an equal or greater
    /// index are "right".
    split_index: usize,
}

impl<T> View for SplitVec<T> {
    type V = Seq<T>;

    closed spec fn view(&self) -> Seq<T> {
        self.vec@
    }
}

impl<T> SplitVec<T> {
    /// The split index as a number.
    pub closed spec fn split(&self) -> nat {
        self.split_index as nat
    }

    /// The split index never passes the end of the items.
    pub open spec fn wf(&self) -> bool {
        self.split() <= self@.len()
    }

    /// The items on the left, in order.
    pub open spec fn left(&self) -> Seq<T> {
        self@.take(self.split() as int)
    }

    /// The items on the right, in order.
    pub open spec fn right(&self) -> Seq<T> {
        self@.skip(self.split() as int)
    }

    pub fn new() -> (v: Self)
        ensures
            v.wf(),
            v@ == Seq::<T>::empty(),
            v.split() == 0,
    {
        SplitVec { vec: Vec::new(), split_index: 0 }
    }

    pub fn with_capacity(capacity: usize) -> (v: Self)
        ensures
            v.wf(),
            v@ == Seq::<T>::empty(),
            v.split() == 0,
    {
        SplitVec { vec: Vec::with_capacity(capacity), split_index: 0 }
    }
}


/// Where `move_item(index, to_left)` puts the item: its old index when it is
/// already on the requested side, else the slot next to the split.
pub open spec fn moved_index(split: nat, index: nat, to_left: bool) -> nat {
    if to_left == (index < split) {
        index
    } else if to_left {
        split
    } else {
        (split - 1) as nat
    }
}

/// The split index after `move_item(index, to_left)`.
pub open spec fn moved_split(split: nat, index: nat, to_left: bool) -> nat {
    if to_left == (index < split) {
        split
    } else if to_left {
        split + 1
    } else {
        (split - 1) as nat
    }
}

impl<T> SplitVec<T> {
    pub fn push_left(&mut self, item: T)
        requires
            old(self).wf(),
        ensures
            final(self).wf(),
            final(self).split() == old(self).split() + 1,
            final(self)@ == swapped(
                old(self)@.push(item),
                old(self)@.len() as int,
                old(self).split() as int,
            ),
    {
        let len = self.vec.len();
        self.vec.push(item);
        self.move_item(len, true);
    }

    pub fn push_right(&mut self, item: T)
        requires
            old(self).wf(),
        ensures
            final(self).wf(),
            final(self).split() == old(self).split(),
            final(self)@ == old(self)@.push(item),
    {
        self.vec.push(item);
    }

    /// Returns the new index of the item. The item that was at the
    /// new index is now at the old index.
    fn move_item(&mut self, index: usize, to_left: bool) -> (r: usize)
        requires
            old(self).wf(),
            index < old(self)@.len() || !to_left,
        ensures
            final(self).wf(),
            r == moved_index(old(self).split(), index as nat, to_left),
            final(self).split() == moved_split(old(self).split(), index as nat, to_left),
            final(self)@ == if to_left == (index < old(self).split()) {
                old(self)@
            } else {
                swapped(old(self)@, index as int, r as int)
            },
    {
        let split_index = self.split_index;
        if to_left == (index < split_index) {
            // The item is already on the correct side.
            index
        } else if to_left {
            let len = self.vec.len();
            assert(split_index <= index < len);
            if index > split_index {
                self.vec.as_mut_slice().swap(index, split_index);
            }
            proof {
                if index == split_index {
                    assert(swapped(old(self)@, index as int, index as int) =~= old(self)@);
                }
            }
            self.split_index = self.split_index + 1;
            split_index
        } else {
            // If the split index is 0, all items will be
            // on the right already, so we can assume this
            // index is valid here.
            let new_split_index = split_index - 1;
            if index < new_split_index {
                self.vec.as_mut_slice().swap(index, new_split_index);
            }
            proof {
                if index == new_split_index {
                    assert(swapped(old(self)@, index as int, index as int) =~= old(self)@);
                }
            }
            self.split_index = self.split_index - 1;
            new_split_index
        }
    }

    /// Moves the item at `index` to the left side and returns its new index.
    pub fn move_left(&mut self, index: usize) -> (r: usize)
        requires
            old(self).wf(),
            index < old(self)@.len(),
        ensures
            final(self).wf(),
            r == moved_index(old(self).split(), index as nat, true),
            final(self).split() == moved_split(old(self).split(), index as nat, true),
            final(self)@ == swapped(old(self)@, index as int, r as int),
            final(self)@.to_multiset() == old(self)@.to_multiset(),
    {
        let r = self.move_item(index, true);
        proof {
            lemma_swap_keeps_items(old(self)@, index as int, r as int);
            if index < old(self).split() {
                assert(swapped(old(self)@, index as int, index as int) =~= old(self)@);
            }
        }
        r
    }

    /// Moves the item at `index` to the right side and returns its new index.
    /// An index past the end is already on the right and is returned unchanged.
    pub fn move_right(&mut self, index: usize) -> (r: usize)
        requires
            old(self).wf(),
        ensures
            final(self).wf(),
            r == moved_index(old(self).split(), index as nat, false),
            final(self).split() == moved_split(old(self).split(), index as nat, false),
            final(self)@ == if index < old(self)@.len() {
                swapped(old(self)@, index as int, r as int)
            } else {
                old(self)@
            },
            final(self)@.to_multiset() == old(self)@.to_multiset(),
    {
        let r = self.move_item(index, false);
        proof {
            if index < old(self)@.len() {
                lemma_swap_keeps_items(old(self)@, index as int, r as int);
            }
            if index >= old(self).split() && index < old(self)@.len() {
                assert(swapped(old(self)@, index as int, index as int) =~= old(self)@);
            }
        }
        r
    }

    pub fn split_index(&self) -> (r: usize)
        ensures
            r == self.split(),
    {
        self.split_index
    }

    /// The number of items.
    pub fn len(&self) -> (r: usize)
        ensures
            r == self@.len(),
    {
        self.vec.len()
    }

    /// The number of items on the right.
    pub fn right_len(&self) -> (r: usize)
        requires
            self.wf(),
        ensures
            r == self.right().len(),
    {
        self.vec.len() - self.split_index
    }

    /// The item at `index`.
    pub fn get(&self, index: usize) -> (r: &T)
        requires
            index < self@.len(),
        ensures
            *r == self@[index as int],
    {
        &self.vec[index]
    }

    pub fn is_left(&self, index: usize) -> (r: bool)
        ensures
            r == (index < self.split()),
    {
        index < self.split_index
    }

    pub fn is_right(&self, index: usize) -> (r: bool)
        ensures
            r == (index >= self.split()),
    {
        index >= self.split_index
    }

    pub fn iter(&self) -> (it: Iter<'_, T>)
        ensures
            it.remaining() == self@.as_ref(),
    {
        self.vec.as_slice().iter()
    }

    pub fn iter_mut(&mut self) -> (it: IterMut<'_, T>)
        ensures
            final(self).split() == old(self).split(),
            final(self)@.len() == old(self)@.len(),
            old(self).wf() ==> final(self).wf(),
    {
        slice_iter_mut(self.vec.as_mut_slice())
    }

    pub fn into_iter(self) -> (it: IntoIter<T>)
        ensures
            it.remaining() == self@,
    {
        self.vec.into_iter()
    }

    pub fn left_iter(&self) -> (it: Iter<'_, T>)
        requires
            self.wf(),
        ensures
            it.remaining() == self.left().as_ref(),
    {
        let split_index = self.split_index;
        slice_subrange(self.vec.as_slice(), 0, split_index).iter()
    }

    pub fn right_iter(&self) -> (it: Iter<'_, T>)
        requires
            self.wf(),
        ensures
            it.remaining() == self.right().as_ref(),
    {
        let split_index = self.split_index;
        let len = self.vec.len();
        slice_subrange(self.vec.as_slice(), split_index, len).iter()
    }

    pub fn into_vec(self) -> (v: Vec<T>)
        ensures
            v@ == self@,
    {
        self.vec
    }
}


/// Moving an item never adds or loses items: the exchange of two slots keeps
/// the multiset of the items.
pub proof fn lemma_swap_keeps_items<T>(s: Seq<T>, i: int, j: int)
    requires
        0 <= i < s.len(),
        0 <= j < s.len(),
    ensures
        swapped(s, i, j).to_multiset() == s.to_multiset(),
        swapped(s, i, j).len() == s.len(),
{
    broadcast use vstd::seq_lib::to_multiset_update;
    broadcast use vstd::multiset::group_multiset_axioms;

    broadcast use vstd::seq_lib::to_multiset_contains;

    let m = s.to_multiset();
    let s1 = s.update(i, s[j]);
    assert(s1[j] == s[j]);
    assert(s.contains(s[i]) && s.contains(s[j]));
    assert(m.count(s[i]) > 0 && m.count(s[j]) > 0);
    assert(s1.to_multiset() == m.insert(s[j]).remove(s[i]));
    assert(swapped(s, i, j).to_multiset() == s1.to_multiset().insert(s[i]).remove(s[j]));
    assert(swapped(s, i, j).to_multiset() =~= m);
}

/// What `move_item(index, to_left)` does to a split sequence `s` with split
/// index `split`: the moved item lands at `moved_index` on the requested side,
/// every item is kept, and the left side gains the item (when it came from the
/// right), loses it (when it came from the left) or stays as it was (when the
/// item already was on the requested side).
pub proof fn lemma_move_changes_left_by_the_item<T>(
    s: Seq<T>,
    split: nat,
    index: nat,
    to_left: bool,
)
    requires
        split <= s.len(),
        index < s.len(),
    ensures
        ({
            let r = moved_index(split, index, to_left);
            let new_split = moved_split(split, index, to_left);
            let t = if to_left == (index < split) {
                s
            } else {
                swapped(s, index as int, r as int)
            };
            &&& new_split <= t.len()
            &&& r < t.len()
            &&& t[r as int] == s[index as int]
            &&& (r < new_split) == to_left
            &&& t.to_multiset() == s.to_multiset()
            &&& t.take(new_split as int).to_multiset() == if to_left == (index < split) {
                s.take(split as int).to_multiset()
            } else if to_left {
                s.take(split as int).to_multiset().insert(s[index as int])
            } else {
                s.take(split as int).to_multiset().remove(s[index as int])
            }
        }),
{
    broadcast use vstd::seq_lib::to_multiset_update;
    broadcast use vstd::seq_lib::to_multiset_build;
    broadcast use vstd::multiset::group_multiset_axioms;

    let r = moved_index(split, index, to_left);
    if to_left == (index < split) {
    } else if to_left {
        let t = swapped(s, index as int, r as int);
        lemma_swap_keeps_items(s, index as int, r as int);
        assert(t.take(split + 1 as int) =~= s.take(split as int).push(s[index as int]));
    } else {
        let t = swapped(s, index as int, r as int);
        lemma_swap_keeps_items(s, index as int, r as int);
        let p = s.take(split - 1);
        assert(s.take(split as int) =~= p.push(s[split - 1]));
        if index + 1 == split {
            assert(t.take(split - 1) =~= p);
            assert(s.take(split as int).to_multiset().remove(s[index as int]) =~= p.to_multiset());
        } else {
            assert(t.take(split - 1) =~= p.update(index as int, s[split - 1]));
            assert(p.update(index as int, s[split - 1]).to_multiset()
                == p.to_multiset().insert(s[split - 1]).remove(p[index as int]));
            assert(t.take(split - 1).to_multiset()
                =~= s.take(split as int).to_multiset().remove(s[index as int]));
        }
    }
}

/// The items and split index of a `SplitVec` that starts empty and then
/// takes each of `ops` in turn: `push_left` of the item where the flag is
/// set, `push_right` where it is not.
pub open spec fn after_pushes<T>(ops: Seq<(bool, T)>) -> (Seq<T>, nat)
    decreases ops.len(),
{
    if ops.len() == 0 {
        (Seq::empty(), 0)
    } else {
        let (s, split) = after_pushes(ops.drop_last());
        let (to_left, x) = ops.last();
        if to_left {
            (swapped(s.push(x), s.len() as int, split as int), split + 1)
        } else {
            (s.push(x), split)
        }
    }
}

/// The items of `ops` that go to one side, in the order they were pushed.
pub open spec fn pushed_to<T>(ops: Seq<(bool, T)>, to_left: bool) -> Seq<T>
    decreases ops.len(),
{
    if ops.len() == 0 {
        Seq::empty()
    } else if ops.last().0 == to_left {
        pushed_to(ops.drop_last(), to_left).push(ops.last().1)
    } else {
        pushed_to(ops.drop_last(), to_left)
    }
}

/// After `n` calls of `push_left` and `m` calls of `push_right` on an empty
/// `SplitVec`, in any order, the split index is `n`, `n` items lie on the
/// left and `m` on the right, and the items on the left are those pushed to
/// the left.
pub proof fn lemma_split_after_pushes<T>(ops: Seq<(bool, T)>)
    ensures
        ({
            let (s, split) = after_pushes(ops);
            &&& split == pushed_to(ops, true).len()
            &&& s.len() == ops.len()
            &&& split <= s.len()
            &&& s.take(split as int).len() == pushed_to(ops, true).len()
            &&& s.skip(split as int).len() == pushed_to(ops, false).len()
            &&& s.take(split as int).to_multiset() == pushed_to(ops, true).to_multiset()
        }),
    decreases ops.len(),
{
    broadcast use vstd::multiset::group_multiset_axioms;
    broadcast use vstd::seq_lib::to_multiset_build;

    if ops.len() == 0 {
        assert(Seq::<T>::empty().take(0) =~= Seq::<T>::empty());
    } else {
        let rest = ops.drop_last();
        lemma_split_after_pushes(rest);
        let (s, split) = after_pushes(rest);
        let (to_left, x) = ops.last();
        let p = s.push(x);
        assert(p.take(split as int) =~= s.take(split as int));
        if to_left {
            lemma_move_changes_left_by_the_item(p, split, s.len(), true);
            assert(moved_index(split, s.len(), true) == split);
            assert(pushed_to(ops, true) == pushed_to(rest, true).push(x));
            assert(pushed_to(ops, false) == pushed_to(rest, false));
            assert(pushed_to(ops, true).to_multiset() == pushed_to(rest, true).to_multiset().insert(x));
        } else {
            assert(pushed_to(ops, true) == pushed_to(rest, true));
            assert(pushed_to(ops, false) == pushed_to(rest, false).push(x));
        }
    }
}

impl<T: Clone> Clone for SplitVec<T> {
    fn clone(&self) -> (res: Self)
        ensures
            res.split() == self.split(),
            res@.len() == self@.len(),
            forall|i: int| 0 <= i < self@.len() ==> cloned::<T>(self@[i], #[trigger] res@[i]),
    {
        SplitVec { vec: self.vec.clone(), split_index: self.split_index }
    }
}

} // verus!
