//! A non-growable counterpart to `Vec`.
//!
//! Arrays behave like vectors but are created with a fixed capacity that they never grow past,
//! so adding an element never reallocates the storage of the existing ones.

use vstd::prelude::*;

verus! {

/// A non-growable array type supporting stack operations.
#[derive(Debug)]
pub struct Array<T> {
    elements: Vec<T>,
    capacity: usize,
}

impl<T> View for Array<T> {
    type V = Seq<T>;

    closed spec fn view(&self) -> Seq<T> {
        self.elements@
    }
}

impl<T> Array<T> {
    #[verifier::type_invariant]
    spec fn within_capacity(self) -> bool {
        self.elements@.len() <= self.capacity
    }

    /// The number of elements the array can hold.
    pub closed spec fn spec_capacity(&self) -> nat {
        self.capacity as nat
    }

    /// Creates an empty array that can hold `capacity` elements.
    pub fn new(capacity: usize) -> (array: Array<T>)
        ensures
            array@ == Seq::<T>::empty(),
            array.spec_capacity() == capacity,
    {
        Array { elements: Vec::with_capacity(capacity), capacity: capacity }
    }

    /// Adds `element` at the end. The array must not be full.
    pub fn push(&mut self, element: T)
        requires
            old(self)@.len() < old(self).spec_capacity(),
        ensures
            final(self)@ == old(self)@.push(element),
            final(self).spec_capacity() == old(self).spec_capacity(),
    {
        proof {
            use_type_invariant(&*self);
        }
        let mut elements = Vec::new();
        std::mem::swap(&mut elements, &mut self.elements);
        elements.push(element);
        self.elements = elements;
    }

    pub fn len(&self) -> (len: usize)
        ensures
            len == self@.len(),
    {
        self.elements.len()
    }

    pub fn capacity(&self) -> (capacity: usize)
        ensures
            capacity == self.spec_capacity(),
            self@.len() <= capacity,
    {
        proof {
            use_type_invariant(self);
        }
        self.capacity
    }

    /// Mutable access to the element at `index`, which must be in bounds.
    pub fn get_mut(&mut self, index: usize) -> (element: &mut T)
        requires
            index < old(self)@.len(),
        ensures
            *element == old(self)@[index as int],
            final(self)@ == old(self)@.update(index as int, *final(element)),
            final(self).spec_capacity() == old(self).spec_capacity(),
    {
        proof {
            use_type_invariant(&*self);
        }
        &mut self.elements[index]
    }

    /// The elements of the array, in the order they were pushed.
    pub fn as_slice(&self) -> (slice: &[T])
        ensures
            slice@ == self@,
    {
        self.elements.as_slice()
    }
}

} // verus!
