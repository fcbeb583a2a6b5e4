//! A fixed-size array container supporting push, pop and swap-remove.
//!
//! `AtomicArray` never reallocates: it is created with a capacity and never holds more
//! elements than that, so adding or removing elements never moves the other elements.
//! Only push, pop and swap-remove mutations are supported.

use vstd::prelude::*;

verus! {

/// A dynamically allocated, fixed-size array container.
pub struct AtomicArray<T> {
    buffer: Vec<T>,
    capacity: usize,
}

impl<T> View for AtomicArray<T> {
    type V = Seq<T>;

    closed spec fn view(&self) -> Seq<T> {
        self.buffer@
    }
}

/// Popping right after a push gives back the pushed element and leaves the elements as they
/// were before the push; swap-removing the last element does the same.
pub proof fn lemma_pop_undoes_push<T>(elements: Seq<T>, element: T)
    ensures
        elements.push(element).len() > 0,
        elements.push(element).last() == element,
        elements.push(element).drop_last() == elements,
        elements.push(element).update(elements.len() as int, elements.push(element).last()).drop_last()
            == elements,
{
    assert(elements.push(element).drop_last() =~= elements);
    assert(elements.push(element).update(elements.len() as int, element).drop_last() =~= elements);
}

/// The states of an array along a run of pushes: `states[0]` is the array `new(capacity)` made,
/// and each next state is what `push` leaves of the one before it given the next of `xs`.
pub open spec fn push_run<T>(states: Seq<AtomicArray<T>>, xs: Seq<T>, capacity: nat) -> bool {
    &&& states.len() == xs.len() + 1
    &&& states[0]@ == Seq::<T>::empty()
    &&& states[0].spec_capacity() == capacity
    &&& forall|k: int|
        0 <= k < xs.len() ==> #[trigger] states[k + 1]@ == states[k]@.push(xs[k])
            && states[k + 1].spec_capacity() == states[k].spec_capacity()
}

proof fn lemma_push_run_prefix<T>(states: Seq<AtomicArray<T>>, xs: Seq<T>, capacity: nat, k: int)
    requires
        push_run(states, xs, capacity),
        0 <= k <= xs.len(),
    ensures
        states[k]@ == xs.take(k),
        states[k].spec_capacity() == capacity,
    decreases k,
{
    if k > 0 {
        lemma_push_run_prefix(states, xs, capacity, k - 1);
        assert(states[k]@ == states[k - 1]@.push(xs[k - 1]));
        assert(xs.take(k) =~= xs.take(k - 1).push(xs[k - 1]));
    }
}

/// An array made by `new(capacity)` and then given the elements `xs` by one `push` each, in
/// order, with `xs` no longer than `capacity`: every push finds room, as `push` requires, and
/// afterwards the array holds exactly `xs`, so its `len` is the number of pushes.
pub proof fn lemma_push_run<T>(states: Seq<AtomicArray<T>>, xs: Seq<T>, capacity: nat)
    requires
        push_run(states, xs, capacity),
        xs.len() <= capacity,
    ensures
        forall|k: int| 0 <= k < xs.len() ==> #[trigger] states[k]@.len() < states[k].spec_capacity(),
        states.last()@ == xs,
        states.last()@.len() == xs.len(),
{
    assert forall|k: int| 0 <= k < xs.len() implies #[trigger] states[k]@.len() < states[k].spec_capacity() by {
        lemma_push_run_prefix(states, xs, capacity, k);
    }
    lemma_push_run_prefix(states, xs, capacity, xs.len() as int);
    assert(xs.take(xs.len() as int) =~= xs);
}

impl<T> AtomicArray<T> {
    /// The number of elements the container can hold.
    pub closed spec fn spec_capacity(&self) -> nat {
        self.capacity as nat
    }

    pub fn new(capacity: usize) -> (array: AtomicArray<T>)
        ensures
            array@ == Seq::<T>::empty(),
            array.spec_capacity() == capacity,
    {
        AtomicArray { buffer: Vec::with_capacity(capacity), capacity: capacity }
    }

    /// Adds `element` at the end. The container must not be full: the storage never grows.
    pub fn push(&mut self, element: T)
        requires
            old(self)@.len() < old(self).spec_capacity(),
        ensures
            final(self)@ == old(self)@.push(element),
            final(self).spec_capacity() == old(self).spec_capacity(),
    {
        self.buffer.push(element);
    }

    /// Removes the last element and returns it, or returns `None` if the container is empty.
    pub fn pop(&mut self) -> (element: Option<T>)
        ensures
            final(self).spec_capacity() == old(self).spec_capacity(),
            old(self)@.len() == 0 ==> element is None && final(self)@ == old(self)@,
            old(self)@.len() > 0 ==> element == Some(old(self)@.last()) && final(self)@ == old(
                self,
            )@.drop_last(),
    {
        self.buffer.pop()
    }

    /// Removes the element at `index`, replacing it with the last element, and returns it.
    /// Returns `None` and leaves the container unchanged if `index` is out of bounds.
    pub fn swap_remove(&mut self, index: usize) -> (element: Option<T>)
        ensures
            final(self).spec_capacity() == old(self).spec_capacity(),
            index >= old(self)@.len() ==> element is None && final(self)@ == old(self)@,
            index < old(self)@.len() ==> element == Some(old(self)@[index as int]) && final(self)@
                == old(self)@.update(index as int, old(self)@.last()).drop_last(),
    {
        if index < self.buffer.len() {
            Some(self.buffer.swap_remove(index))
        } else {
            None
        }
    }

    pub fn len(&self) -> (len: usize)
        ensures
            len == self@.len(),
    {
        self.buffer.len()
    }

    pub fn capacity(&self) -> (capacity: usize)
        ensures
            capacity == self.spec_capacity(),
    {
        self.capacity
    }

    /// The last element, or `None` if the container is empty.
    pub fn last(&self) -> (element: Option<&T>)
        ensures
            self@.len() == 0 ==> element is None,
            self@.len() > 0 ==> element == Some(&self@.last()),
    {
        let len = self.buffer.len();
        if len > 0 {
            Some(&self.buffer[len - 1])
        } else {
            None
        }
    }

    /// Mutable access to the last element, or `None` if the container is empty.
    pub fn last_mut(&mut self) -> (element: Option<&mut T>)
        ensures
            final(self).spec_capacity() == old(self).spec_capacity(),
            match element {
                Some(e) => {
                    &&& old(self)@.len() > 0
                    &&& *e == old(self)@.last()
                    &&& final(self)@ == old(self)@.update(old(self)@.len() - 1, *final(e))
                },
                None => old(self)@.len() == 0 && final(self)@ == old(self)@,
            },
    {
        let len = self.buffer.len();
        if len > 0 {
            Some(&mut self.buffer[len - 1])
        } else {
            None
        }
    }

    /// The element at `index`, which must be in bounds.
    pub fn index(&self, index: usize) -> (element: &T)
        requires
            index < self@.len(),
        ensures
            *element == self@[index as int],
    {
        &self.buffer[index]
    }

    pub fn as_slice(&self) -> (slice: &[T])
        ensures
            slice@ == self@,
    {
        self.buffer.as_slice()
    }

    /// The elements, for in-place mutation; their number cannot change.
    pub fn as_slice_mut(&mut self) -> (slice: &mut [T])
        ensures
            final(self).spec_capacity() == old(self).spec_capacity(),
            slice@ == old(self)@,
            final(self)@ == final(slice)@,
    {
        self.buffer.as_mut_slice()
    }
}

} // verus!
