//! A stack of values: push and pop at the top, peek at a distance from it.

use vstd::prelude::*;

verus! {

#[derive(Debug)]
pub struct Stack<T>(Vec<T>);

impl<T> View for Stack<T> {
    type V = Seq<T>;

    /// The values from the bottom of the stack to its top.
    closed spec fn view(&self) -> Seq<T> {
        self.0@
    }
}

impl<T> Stack<T> {
    pub fn new() -> (stack: Self)
        ensures
            stack@ == Seq::<T>::empty(),
    {
        Self(Vec::new())
    }

    pub fn pop(&mut self) -> (value: Option<T>)
        ensures
            match value {
                Some(value) => old(self)@.len() > 0 && value == old(self)@.last() && final(self)@
                    == old(self)@.drop_last(),
                None => old(self)@.len() == 0 && final(self)@ == old(self)@,
            },
    {
        self.0.pop()
    }

    pub fn push(&mut self, value: T)
        ensures
            final(self)@ == old(self)@.push(value),
    {
        self.0.push(value)
    }

    pub fn is_empty(&self) -> (b: bool)
        ensures
            b == (self@.len() == 0),
    {
        self.0.len() == 0
    }

    pub fn len(&self) -> (len: usize)
        ensures
            len == self@.len(),
    {
        self.0.len()
    }

    /// The value `distance` places below the top, if the stack is that deep.
    pub fn peek(&self, distance: usize) -> (value: Option<&T>)
        ensures
            match value {
                Some(value) => distance < self@.len() && *value == self@[self@.len() - 1
                    - distance],
                None => distance >= self@.len(),
            },
    {
        if self.is_empty() || distance > self.0.len() - 1 {
            return None;
        }
        Some(&self.0[self.0.len() - 1 - distance])
    }

    /// The value in slot `index`, counted from the bottom.
    pub fn get(&self, index: usize) -> (value: Option<&T>)
        ensures
            match value {
                Some(value) => index < self@.len() && *value == self@[index as int],
                None => index >= self@.len(),
            },
    {
        if index < self.0.len() {
            Some(&self.0[index])
        } else {
            None
        }
    }

    /// Replaces the value in slot `index`, counted from the bottom.
    pub fn set(&mut self, index: usize, value: T)
        requires
            index < old(self)@.len(),
        ensures
            final(self)@ == old(self)@.update(index as int, value),
    {
        self.0[index] = value;
    }

    /// Empties the stack.
    pub fn reset(&mut self)
        ensures
            final(self)@ == Seq::<T>::empty(),
    {
        self.0.clear()
    }
}

} // verus!
