use vstd::prelude::*;

verus! {

/// A one-dimensional buffer of scalars.
#[derive(Debug, Clone, PartialEq)]
pub struct Vector<T> {
    pub data: Vec<T>,
}

impl<T> View for Vector<T> {
    type V = Seq<T>;

    open spec fn view(&self) -> Seq<T> {
        self.data@
    }
}

impl<T> Vector<T> {
    /// The vector over `data`.
    pub fn new(data: Vec<T>) -> (v: Vector<T>)
        ensures
            v@ == data@,
    {
        Vector { data }
    }

    /// The number of items.
    pub fn len(&self) -> (n: usize)
        ensures
            n == self@.len(),
    {
        self.data.len()
    }

    /// Puts `value` at `index`.
    pub fn set(&mut self, index: usize, value: T)
        requires
            index < old(self)@.len(),
        ensures
            final(self)@ == old(self)@.update(index as int, value),
    {
        self.data[index] = value;
    }
}

impl<T: Copy> Vector<T> {
    /// The item at `index`.
    pub fn get(&self, index: usize) -> (value: T)
        requires
            index < self@.len(),
        ensures
            value == self@[index as int],
    {
        self.data[index]
    }
}

} // verus!
