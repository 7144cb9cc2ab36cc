//! The container and its operations.

use vstd::prelude::*;
use vstd::layout::size_of;
use vstd::std_specs::convert::FromSpecImpl;
use crate::iter::{IntoIter, Iter, IterMut};
use crate::slots::{
    all_vacant, end_occupied, first_occupied, first_vacant, inserted, is_occupied, is_vacant,
    lemma_count_bounds, lemma_end_occupied, lemma_end_occupied_is, lemma_first_occupied,
    lemma_first_occupied_is, lemma_first_occupied_value, lemma_first_vacant,
    lemma_first_vacant_is, lemma_last_occupied_value, occupied_count, occupied_values, removed,
    slot_at, trimmed,
};

verus! {

/// A sequence of slots in which a value keeps the position it was given.
///
/// The view of a container is the sequence of its slots: `self@[h]` is
/// `Some(v)` where handle `h` holds `v`, and `None` where it is vacant.
pub struct OptionVec<T> {
    vec: Vec<Option<T>>,
}

impl<T> View for OptionVec<T> {
    type V = Seq<Option<T>>;

    closed spec fn view(&self) -> Seq<Option<T>> {
        self.vec@
    }
}

/// Slot `b` is a clone of slot `a`: both are vacant, or both hold a value and
/// that of `b` is a clone of that of `a`.
pub open spec fn slot_cloned<T: Clone>(a: Option<T>, b: Option<T>) -> bool {
    match (a, b) {
        (None, None) => true,
        (Some(x), Some(y)) => cloned::<T>(x, y),
        _ => false,
    }
}

/// `b` is a clone of `a`, slot by slot.
pub open spec fn slots_cloned<T: Clone>(a: Seq<Option<T>>, b: Seq<Option<T>>) -> bool {
    &&& a.len() == b.len()
    &&& forall|h: int| 0 <= h < a.len() ==> slot_cloned(a[h], #[trigger] b[h])
}

/// A clone has a value exactly where its source has one: the same handles
/// are valid in both, and as many slots are occupied.
pub proof fn lemma_cloned_handles<T: Clone>(a: Seq<Option<T>>, b: Seq<Option<T>>)
    requires
        slots_cloned(a, b),
    ensures
        forall|h: int| is_occupied(b, h) <==> is_occupied(a, h),
        occupied_count(b) == occupied_count(a),
    decreases a.len(),
{
    assert forall|h: int| is_occupied(b, h) <==> is_occupied(a, h) by {
        if 0 <= h < a.len() {
            assert(slot_cloned(a[h], b[h]));
        }
    }
    if a.len() > 0 {
        let a0 = a.drop_last();
        let b0 = b.drop_last();
        assert forall|h: int| 0 <= h < a0.len() implies slot_cloned(a0[h], #[trigger] b0[h]) by {
            assert(slot_cloned(a[h], b[h]));
        }
        lemma_cloned_handles(a0, b0);
        assert(slot_cloned(a[a.len() - 1], b[a.len() - 1]));
    }
}

/// Where a clone of a value is always that value, a clone of slots is those
/// slots.
pub proof fn lemma_cloned_exactly<T: Clone>(a: Seq<Option<T>>, b: Seq<Option<T>>)
    requires
        slots_cloned(a, b),
        forall|x: T, y: T| cloned::<T>(x, y) ==> x == y,
    ensures
        a == b,
{
    assert forall|h: int| 0 <= h < a.len() implies a[h] == b[h] by {
        assert(slot_cloned(a[h], b[h]));
    }
    assert(a =~= b);
}

/// `count` slots of `T` can stand in one allocation: they take no more than
/// `isize::MAX` bytes.
pub open spec fn allocatable<T>(count: int) -> bool {
    count * size_of::<Option<T>>() <= isize::MAX
}

/// Whether a vector of `len` slots can take `additional` more.
fn can_hold<T>(len: usize, additional: usize) -> (b: bool)
    ensures
        b == (len + additional <= usize::MAX && allocatable::<T>(len + additional)),
{
    let width: usize = core::mem::size_of::<Option<T>>();
    match len.checked_add(additional) {
        None => false,
        Some(count) => match count.checked_mul(width) {
            None => {
                assert(count * width > isize::MAX);
                false
            },
            Some(bytes) => bytes <= isize::MAX as usize,
        },
    }
}

/// `Vec::reserve_exact`: asks for room for exactly `additional` more slots
/// and leaves the slots as they are. It panics where the slots would take
/// more than `isize::MAX` bytes, which `requires` rules out.
#[verifier::external_body]
fn reserve_exact_slots<T>(vec: &mut Vec<Option<T>>, additional: usize)
    requires
        old(vec)@.len() + additional <= usize::MAX,
        allocatable::<T>(old(vec)@.len() + additional),
    ensures
        final(vec)@ == old(vec)@,
{
    vec.reserve_exact(additional)
}

/// `Vec::shrink_to_fit`: gives back the room that the slots do not fill and
/// leaves the slots as they are.
#[verifier::external_body]
fn release_unused<T>(vec: &mut Vec<Option<T>>)
    ensures
        final(vec)@ == old(vec)@,
{
    vec.shrink_to_fit()
}

impl<T> OptionVec<T> {
    /// Creates a container without slots.
    pub fn new() -> (r: OptionVec<T>)
        ensures
            r@ == Seq::<Option<T>>::empty(),
    {
        OptionVec::with_capacity(0)
    }

    /// Creates a container of `n` slots, all of them vacant.
    pub fn with_capacity(n: usize) -> (r: OptionVec<T>)
        ensures
            r@ == all_vacant::<T>(n as nat),
    {
        let mut vec: Vec<Option<T>> = Vec::with_capacity(n);
        while vec.len() < n
            invariant
                vec@.len() <= n,
                forall|h: int| 0 <= h < vec@.len() ==> (#[trigger] vec@[h]) is None,
            decreases n - vec@.len(),
        {
            vec.push(None);
        }
        assert(vec@ =~= all_vacant::<T>(n as nat));
        OptionVec { vec }
    }

    /// The slots, as the vector that holds them.
    pub fn inner(&self) -> (r: &Vec<Option<T>>)
        ensures
            r@ == self@,
    {
        &self.vec
    }

    /// The slots, as the vector that holds them, to be changed in place.
    ///
    /// What the caller leaves in the vector is the container's new content. To
    /// insert into the vector or remove from it moves the values behind that
    /// position to other handles.
    pub fn inner_mut(&mut self) -> (r: &mut Vec<Option<T>>)
        ensures
            r@ == old(self)@,
            final(self)@ == final(r)@,
    {
        &mut self.vec
    }

    /// The number of slots, occupied or vacant.
    pub fn capacity(&self) -> (c: usize)
        ensures
            c == self@.len(),
            c >= occupied_count(self@),
    {
        proof {
            lemma_count_bounds(self@);
        }
        self.vec.len()
    }

    /// The number of occupied slots, found by counting them.
    pub fn len(&self) -> (n: usize)
        ensures
            n == occupied_count(self@),
            n <= self@.len(),
    {
        let mut n: usize = 0;
        let mut i: usize = 0;
        while i < self.vec.len()
            invariant
                i <= self.vec@.len(),
                n <= i,
                n == occupied_count(self.vec@.take(i as int)),
            decreases self.vec@.len() - i,
        {
            proof {
                assert(self.vec@.take(i + 1).drop_last() =~= self.vec@.take(i as int));
            }
            if self.vec[i].is_some() {
                n = n + 1;
            }
            i = i + 1;
        }
        proof {
            assert(self.vec@.take(i as int) =~= self.vec@);
        }
        n
    }

    /// Whether no slot is occupied.
    pub fn is_empty(&self) -> (b: bool)
        ensures
            b <==> occupied_count(self@) == 0,
            b <==> forall|h: int| !is_occupied(self@, h),
    {
        proof {
            lemma_count_bounds(self@);
            lemma_first_occupied_value(self@);
        }
        self.first_occupied().is_none()
    }

    /// Puts `t` into the smallest vacant handle, or into a new slot at the end
    /// where no handle is vacant, and returns the handle.
    pub fn insert(&mut self, t: T) -> (h: usize)
        ensures
            h == first_vacant(old(self)@),
            final(self)@ == inserted(old(self)@, t),
            h <= old(self)@.len(),
            forall|j: int| 0 <= j < h ==> (#[trigger] old(self)@[j]) is Some,
            h < old(self)@.len() ==> old(self)@[h as int] is None,
    {
        proof {
            lemma_first_vacant(self@);
        }
        match self.first_vacant() {
            Some(pos) => {
                self.vec[pos] = Some(t);
                pos
            },
            None => self.push(t),
        }
    }

    /// Takes the value out of handle `idx`, if it holds one. Every other
    /// handle is left as it was.
    pub fn remove(&mut self, idx: usize) -> (r: Option<T>)
        ensures
            r == slot_at(old(self)@, idx as int),
            final(self)@ == removed(old(self)@, idx as int),
    {
        if idx < self.vec.len() {
            self.vec[idx].take()
        } else {
            None
        }
    }

    /// Makes room for `n` further insertions. The vacant slots count as room:
    /// the vector is asked only for the `shortfall`, what they do not cover,
    /// and not at all where so many slots could not stand in one allocation.
    /// The slots themselves do not change.
    pub fn reserve(&mut self, n: usize)
        ensures
            final(self)@ == old(self)@,
    {
        let additional = self.shortfall(n);
        if additional > 0 && can_hold::<T>(self.vec.len(), additional) {
            self.vec.reserve(additional);
        }
    }

    /// Makes room for `n` further insertions, as `reserve` does, but asks the
    /// vector for no more than is needed: for exactly the `shortfall`, where
    /// `reserve` leaves it to the vector to take more than that in view of
    /// later growth, and not at all where so many slots could not stand in
    /// one allocation. The slots themselves do not change.
    pub fn reserve_exact(&mut self, n: usize)
        ensures
            final(self)@ == old(self)@,
    {
        let additional = self.shortfall(n);
        if additional > 0 && can_hold::<T>(self.vec.len(), additional) {
            reserve_exact_slots(&mut self.vec, additional);
        }
    }

    /// The number of slots by which the container has to grow to take `n`
    /// further insertions: what of `n` the vacant slots do not cover. This is
    /// what `reserve` and `reserve_exact` ask the vector for.
    pub fn shortfall(&self, n: usize) -> (k: usize)
        ensures
            k == crate::slots::shortfall(self@, n as int),
            k <= n,
    {
        let vacant = self.capacity() - self.len();
        if vacant < n {
            n - vacant
        } else {
            0
        }
    }

    /// Drops the trailing vacant slots and the room they took. Vacant slots
    /// below an occupied one stay, so no value changes its handle.
    pub fn shrink_to_fit(&mut self)
        ensures
            final(self)@ == trimmed(old(self)@),
    {
        let n = self.end_occupied();
        proof {
            lemma_end_occupied(self@);
        }
        self.vec.truncate(n);
        release_unused(&mut self.vec);
    }

    /// Asks `f` about the value of every occupied handle, in ascending order
    /// of the handles, and vacates the handles for which it answers `false`.
    /// `f` may change the value it is shown; a value that stays is kept as `f`
    /// left it. No slot is added, none moves, and no vacant slot is filled.
    pub fn retain<F>(&mut self, mut f: F) where F: FnMut(&mut T) -> bool
        requires
            forall|h: int, x: &mut T|
                is_occupied(old(self)@, h) && old(self)@[h] == Some(*x) ==> call_requires(f, (x,)),
        ensures
            final(self)@.len() == old(self)@.len(),
            forall|h: int|
                #![trigger final(self)@[h]]
                is_vacant(old(self)@, h) ==> final(self)@[h] is None,
            forall|h: int|
                #![trigger final(self)@[h]]
                is_occupied(old(self)@, h) ==> exists|x: &mut T, keep: bool|
                    *x == old(self)@[h]->0 && #[trigger] call_ensures(f, (x,), keep)
                        && final(self)@[h] == (if keep {
                        Some(*final(x))
                    } else {
                        None
                    }),
    {
        let ghost f0 = f;
        let mut i: usize = 0;
        while i < self.vec.len()
            invariant
                i <= self.vec@.len(),
                f == f0,
                self.vec@.len() == old(self)@.len(),
                forall|h: int| 0 <= h < i && old(self)@[h] is None ==> self.vec@[h] is None,
                forall|h: int|
                    0 <= h < i && old(self)@[h] is Some ==> exists|x: &mut T, keep: bool|
                        *x == old(self)@[h]->0 && #[trigger] call_ensures(f0, (x,), keep)
                            && self.vec@[h] == (if keep {
                            Some(*final(x))
                        } else {
                            None
                        }),
                forall|h: int| i <= h < self.vec@.len() ==> self.vec@[h] == old(self)@[h],
                forall|h: int, x: &mut T|
                    is_occupied(old(self)@, h) && old(self)@[h] == Some(*x) ==> call_requires(
                        f0,
                        (x,),
                    ),
            decreases self.vec@.len() - i,
        {
            let keep = match &mut self.vec[i] {
                Some(value) => {
                    assert(is_occupied(old(self)@, i as int));
                    f(value)
                },
                None => true,
            };
            if !keep {
                self.vec[i] = None;
            }
            i = i + 1;
        }
    }

    /// Removes and returns the value of the largest occupied handle.
    pub fn pop_back(&mut self) -> (r: Option<T>)
        ensures
            r == slot_at(old(self)@, end_occupied(old(self)@) - 1),
            final(self)@ == removed(old(self)@, end_occupied(old(self)@) - 1),
            r is None <==> occupied_count(old(self)@) == 0,
            r is Some ==> r == Some(occupied_values(old(self)@).last())
                && occupied_values(final(self)@) == occupied_values(old(self)@).drop_last(),
    {
        proof {
            lemma_end_occupied(self@);
            lemma_last_occupied_value(self@);
        }
        match self.last_occupied() {
            Some(pos) => self.remove(pos),
            None => None,
        }
    }

    /// Removes and returns the value of the smallest occupied handle.
    pub fn pop_front(&mut self) -> (r: Option<T>)
        ensures
            r == slot_at(old(self)@, first_occupied(old(self)@)),
            final(self)@ == removed(old(self)@, first_occupied(old(self)@)),
            r is None <==> occupied_count(old(self)@) == 0,
            r is Some ==> r == Some(occupied_values(old(self)@).first())
                && occupied_values(final(self)@) == occupied_values(old(self)@).drop_first(),
    {
        proof {
            lemma_first_occupied(self@);
            lemma_first_occupied_value(self@);
        }
        match self.first_occupied() {
            Some(pos) => self.remove(pos),
            None => None,
        }
    }

    /// Drops every slot and what it holds.
    pub fn clear(&mut self)
        ensures
            final(self)@ == Seq::<Option<T>>::empty(),
    {
        self.vec = Vec::new();
    }

    /// Whether handle `idx` is valid.
    pub fn contains(&self, idx: usize) -> (b: bool)
        ensures
            b == is_occupied(self@, idx as int),
    {
        idx < self.vec.len() && self.vec[idx].is_some()
    }

    /// The value of handle `idx`, if it holds one.
    pub fn get(&self, idx: usize) -> (r: Option<&T>)
        ensures
            r == (match slot_at(self@, idx as int) {
                Some(v) => Some(&v),
                None => None,
            }),
    {
        if idx < self.vec.len() {
            self.vec[idx].as_ref()
        } else {
            None
        }
    }

    /// The value of handle `idx`, if it holds one, to be changed in place.
    pub fn get_mut(&mut self, idx: usize) -> (r: Option<&mut T>)
        ensures
            r is Some <==> is_occupied(old(self)@, idx as int),
            r is Some ==> *r->0 == old(self)@[idx as int]->0
                && final(self)@ == old(self)@.update(idx as int, Some(*final(r->0))),
            r is None ==> final(self)@ == old(self)@,
    {
        if idx < self.vec.len() {
            self.vec[idx].as_mut()
        } else {
            None
        }
    }

    /// A traversal of the values, by reference.
    pub fn iter(&self) -> (it: Iter<'_, T>)
        ensures
            it@ == self@,
    {
        Iter::new(self.vec.as_slice())
    }

    /// A traversal of the values, by mutable reference. What the traversal
    /// and its references leave in the slots is the container's new content.
    pub fn iter_mut(&mut self) -> (it: IterMut<'_, T>)
        ensures
            it@ == old(self)@,
            final(self)@ == final(it.slots)@,
    {
        IterMut::new(self.vec.as_mut_slice())
    }

    fn first_vacant(&self) -> (r: Option<usize>)
        ensures
            match r {
                Some(h) => h == first_vacant(self@) && h < self@.len(),
                None => first_vacant(self@) == self@.len(),
            },
    {
        let mut i: usize = 0;
        while i < self.vec.len()
            invariant
                i <= self.vec@.len(),
                forall|j: int| 0 <= j < i ==> (#[trigger] self.vec@[j]) is Some,
            decreases self.vec@.len() - i,
        {
            if self.vec[i].is_none() {
                proof {
                    lemma_first_vacant_is(self.vec@, i as int);
                }
                return Some(i);
            }
            i = i + 1;
        }
        proof {
            lemma_first_vacant_is(self.vec@, i as int);
        }
        None
    }

    fn first_occupied(&self) -> (r: Option<usize>)
        ensures
            match r {
                Some(h) => h == first_occupied(self@) && h < self@.len(),
                None => first_occupied(self@) == self@.len(),
            },
    {
        let mut i: usize = 0;
        while i < self.vec.len()
            invariant
                i <= self.vec@.len(),
                forall|j: int| 0 <= j < i ==> (#[trigger] self.vec@[j]) is None,
            decreases self.vec@.len() - i,
        {
            if self.vec[i].is_some() {
                proof {
                    lemma_first_occupied_is(self.vec@, i as int);
                }
                return Some(i);
            }
            i = i + 1;
        }
        proof {
            lemma_first_occupied_is(self.vec@, i as int);
        }
        None
    }

    fn end_occupied(&self) -> (n: usize)
        ensures
            n == end_occupied(self@),
    {
        match self.last_occupied() {
            Some(pos) => {
                assert(pos < self.vec.len());
                pos + 1
            },
            None => 0,
        }
    }

    fn last_occupied(&self) -> (r: Option<usize>)
        ensures
            match r {
                Some(h) => h == end_occupied(self@) - 1 && h < self@.len(),
                None => end_occupied(self@) == 0,
            },
    {
        let mut i: usize = self.vec.len();
        while i > 0
            invariant
                i <= self.vec@.len(),
                forall|j: int| i <= j < self.vec@.len() ==> (#[trigger] self.vec@[j]) is None,
            decreases i,
        {
            if self.vec[i - 1].is_some() {
                proof {
                    lemma_end_occupied_is(self.vec@, i as int);
                }
                return Some(i - 1);
            }
            i = i - 1;
        }
        proof {
            lemma_end_occupied_is(self.vec@, 0);
        }
        None
    }

    fn push(&mut self, t: T) -> (h: usize)
        ensures
            h == old(self)@.len(),
            final(self)@ == old(self)@.push(Some(t)),
    {
        let n = self.vec.len();
        self.vec.push(Some(t));
        n
    }
}

impl<T: Clone> Clone for OptionVec<T> {
    /// A copy without the trailing vacant slots. The vacant slots below an
    /// occupied one are copied, so every value has the handle it had.
    fn clone(&self) -> (r: OptionVec<T>)
        ensures
            slots_cloned(trimmed(self@), r@),
    {
        let end = self.end_occupied();
        proof {
            lemma_end_occupied(self@);
        }
        let mut slots: Vec<Option<T>> = Vec::new();
        let mut i: usize = 0;
        while i < end
            invariant
                i <= end <= self.vec@.len(),
                slots_cloned(self.vec@.take(i as int), slots@),
            decreases end - i,
        {
            slots.push(self.vec[i].clone());
            i = i + 1;
        }
        OptionVec { vec: slots }
    }

    /// Makes `self` a copy of `other`, as `clone` would, in the slots that
    /// `self` already has as far as they reach.
    fn clone_from(&mut self, other: &OptionVec<T>)
        ensures
            slots_cloned(trimmed(other@), final(self)@),
    {
        let end = other.end_occupied();
        proof {
            lemma_end_occupied(other@);
        }
        self.vec.truncate(end);
        let kept = self.vec.len();
        let mut i: usize = 0;
        while i < end
            invariant
                i <= end <= other.vec@.len(),
                kept <= end,
                self.vec@.len() == (if i < kept {
                    kept
                } else {
                    i
                }),
                slots_cloned(other.vec@.take(i as int), self.vec@.take(i as int)),
            decreases end - i,
        {
            let ghost before = self.vec@.take(i as int);
            let slot = other.vec[i].clone();
            if i < kept {
                self.vec[i] = slot;
            } else {
                self.vec.push(slot);
            }
            proof {
                let source = other.vec@.take(i + 1);
                let copy = self.vec@.take(i + 1);
                assert forall|h: int| 0 <= h < source.len() implies slot_cloned(
                    source[h],
                    #[trigger] copy[h],
                ) by {
                    if h < i {
                        assert(copy[h] == before[h]);
                        assert(source[h] == other.vec@.take(i as int)[h]);
                    }
                }
            }
            i = i + 1;
        }
        proof {
            assert(self.vec@.take(end as int) =~= self.vec@);
        }
    }
}

impl<T> Default for OptionVec<T> {
    /// A container without slots.
    fn default() -> (r: OptionVec<T>)
        ensures
            r@ == Seq::<Option<T>>::empty(),
    {
        OptionVec::new()
    }
}

impl<T> From<Vec<Option<T>>> for OptionVec<T> {
    /// The container whose slots are the items of `v`, each as it stands.
    fn from(v: Vec<Option<T>>) -> (r: OptionVec<T>)
        ensures
            r@ == v@,
    {
        OptionVec { vec: v }
    }
}

impl<T> FromSpecImpl<Vec<Option<T>>> for OptionVec<T> {
    open spec fn obeys_from_spec() -> bool {
        true
    }

    closed spec fn from_spec(v: Vec<Option<T>>) -> OptionVec<T> {
        OptionVec { vec: v }
    }
}

impl<T> From<OptionVec<T>> for Vec<Option<T>> {
    /// The slots of `v`, each as it stands.
    fn from(v: OptionVec<T>) -> (r: Vec<Option<T>>)
        ensures
            r@ == v@,
    {
        v.vec
    }
}

impl<T> FromSpecImpl<OptionVec<T>> for Vec<Option<T>> {
    open spec fn obeys_from_spec() -> bool {
        true
    }

    closed spec fn from_spec(v: OptionVec<T>) -> Vec<Option<T>> {
        v.vec
    }
}

impl<T> IntoIterator for OptionVec<T> {
    type Item = T;

    type IntoIter = IntoIter<T>;

    /// A traversal that takes the values out.
    fn into_iter(self) -> (it: IntoIter<T>)
        ensures
            it@ == self@,
    {
        IntoIter::new(self.vec)
    }
}

impl<'a, T> IntoIterator for &'a OptionVec<T> {
    type Item = &'a T;

    type IntoIter = Iter<'a, T>;

    /// A traversal of the values, by reference.
    fn into_iter(self) -> (it: Iter<'a, T>)
        ensures
            it@ == self@,
    {
        self.iter()
    }
}

impl<'a, T> IntoIterator for &'a mut OptionVec<T> {
    type Item = &'a mut T;

    type IntoIter = IterMut<'a, T>;

    /// A traversal of the values, by mutable reference.
    fn into_iter(self) -> (it: IterMut<'a, T>)
        ensures
            it@ == old(self)@,
            final(self)@ == final(it.slots)@,
    {
        self.iter_mut()
    }
}

} // verus!
