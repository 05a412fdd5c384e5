//! A growable array: the values pushed so far, in order.

use crate::raw_array::RawArray;
use vstd::prelude::*;

verus! {

#[derive(Clone, Debug, PartialEq)]
pub struct Array<T> {
    count: usize,
    buf: RawArray<T>,
}

impl<T> View for Array<T> {
    type V = Seq<T>;

    closed spec fn view(&self) -> Seq<T> {
        Seq::new(self.count as nat, |i: int| self.buf@[i]->0)
    }
}

impl<T> Array<T> {
    /// The array's invariant: the first `len` slots of the buffer are filled,
    /// the others are empty.
    pub closed spec fn wf(&self) -> bool {
        &&& self.count <= self.buf@.len()
        &&& forall|i: int| 0 <= i < self.count ==> (#[trigger] self.buf@[i]) is Some
        &&& forall|i: int| self.count <= i < self.buf@.len() ==> (#[trigger] self.buf@[i]) is None
    }

    /// How many slots the buffer has.
    pub closed spec fn spec_capacity(&self) -> nat {
        self.buf@.len()
    }

    pub fn new() -> (array: Self)
        ensures
            array.wf(),
            array@ == Seq::<T>::empty(),
            array.spec_capacity() == 0,
    {
        let array = Self { count: 0, buf: RawArray::new() };
        assert(array@ =~= Seq::<T>::empty());
        array
    }

    /// Appends `value`, growing the buffer when it is full.
    pub fn push(&mut self, value: T)
        requires
            old(self).wf(),
        ensures
            final(self).wf(),
            final(self)@ == old(self)@.push(value),
            final(self).spec_capacity() == if old(self)@.len() < old(self).spec_capacity() {
                old(self).spec_capacity()
            } else {
                crate::raw_array::grown_capacity(old(self).spec_capacity())
            },
    {
        if self.needs_to_grow() {
            self.grow();
        }
        let capacity = self.buf.capacity();
        assert(self.count < capacity);
        self.buf.set(self.count, value);
        self.count += 1;
        assert(self@ =~= old(self)@.push(value));
    }

    /// Appends `value`, as `push` does.
    pub fn write(&mut self, value: T)
        requires
            old(self).wf(),
        ensures
            final(self).wf(),
            final(self)@ == old(self)@.push(value),
            final(self).spec_capacity() == if old(self)@.len() < old(self).spec_capacity() {
                old(self).spec_capacity()
            } else {
                crate::raw_array::grown_capacity(old(self).spec_capacity())
            },
    {
        self.push(value)
    }

    /// Removes the last value and hands it out.
    pub fn pop(&mut self) -> (value: Option<T>)
        requires
            old(self).wf(),
        ensures
            final(self).wf(),
            final(self).spec_capacity() == old(self).spec_capacity(),
            match value {
                Some(value) => old(self)@.len() > 0 && value == old(self)@.last() && final(self)@
                    == old(self)@.drop_last(),
                None => old(self)@.len() == 0 && final(self)@ == old(self)@,
            },
    {
        if self.is_empty() {
            return None;
        }
        self.count -= 1;
        let value = self.buf.take(self.count);
        assert(self@ =~= old(self)@.drop_last());
        value
    }

    pub fn iter(&self) -> (iter: Iter<'_, T>)
        requires
            self.wf(),
        ensures
            iter.wf(),
            iter.items() == self@,
            iter.position() == 0,
    {
        Iter { len: 0, array: self }
    }

    pub fn get(&self, index: usize) -> (value: Option<&T>)
        requires
            self.wf(),
        ensures
            match value {
                Some(value) => index < self@.len() && *value == self@[index as int],
                None => index >= self@.len(),
            },
    {
        if index < self.len() {
            self.buf.get(index)
        } else {
            None
        }
    }

    /// The value at `index`, to be changed in place.
    pub fn get_mut(&mut self, index: usize) -> (value: Option<&mut T>)
        requires
            old(self).wf(),
        ensures
            final(self).wf(),
            final(self).spec_capacity() == old(self).spec_capacity(),
            match value {
                Some(value) => index < old(self)@.len() && *value == old(self)@[index as int]
                    && final(self)@ == old(self)@.update(index as int, *final(value)),
                None => index >= old(self)@.len() && final(self)@ == old(self)@,
            },
    {
        if index < self.len() {
            let value = self.buf.get_mut(index);
            proof {
                if value is Some {
                    assert(Seq::new(
                        self.count as nat,
                        |i: int| old(self).buf@.update(index as int, Some(*final(value->0)))[i]->0,
                    ) =~= old(self)@.update(index as int, *final(value->0)));
                }
            }
            value
        } else {
            None
        }
    }

    /// A walk that hands the values out to be changed in place. The array
    /// after the walk is the one that the walk ends with: well formed, with
    /// as many values and slots, each value as it was left.
    pub fn iter_mut(&mut self) -> (iter: IterMut<'_, T>)
        requires
            old(self).wf(),
        ensures
            iter.wf(),
            iter.items() == old(self)@,
            iter.position() == 0,
            *iter.array == *old(self),
            *final(self) == *final(iter.array),
    {
        IterMut { len: 0, array: self }
    }

    /// The value at `index`, which is in bounds.
    pub fn index(&self, index: usize) -> (value: &T)
        requires
            self.wf(),
            index < self@.len(),
        ensures
            *value == self@[index as int],
    {
        match self.buf.get(index) {
            Some(value) => value,
            None => {
                proof {
                    assert(self.buf@[index as int] is Some);
                }
                unreached()
            },
        }
    }

    /// Replaces the value at `index`, which is in bounds.
    pub fn set(&mut self, index: usize, value: T)
        requires
            old(self).wf(),
            index < old(self)@.len(),
        ensures
            final(self).wf(),
            final(self)@ == old(self)@.update(index as int, value),
            final(self).spec_capacity() == old(self).spec_capacity(),
    {
        self.buf.set(index, value);
        assert(self@ =~= old(self)@.update(index as int, value));
    }

    /// A well-formed array holds no more values than its buffer has slots.
    pub proof fn lemma_wf(&self)
        requires
            self.wf(),
        ensures
            self@.len() <= self.spec_capacity(),
    {
    }

    pub fn capacity(&self) -> (capacity: usize)
        ensures
            capacity == self.spec_capacity(),
            self.wf() ==> capacity >= self@.len(),
    {
        self.buf.capacity()
    }

    pub fn is_empty(&self) -> (b: bool)
        ensures
            b == (self@.len() == 0),
    {
        self.count == 0
    }

    pub fn len(&self) -> (len: usize)
        ensures
            len == self@.len(),
    {
        self.count
    }

    /// Whether the buffer is full.
    pub fn needs_to_grow(&self) -> (b: bool)
        requires
            self.wf(),
        ensures
            b == (self@.len() == self.spec_capacity()),
    {
        self.buf.capacity() <= self.count
    }

    /// Grows the buffer; the values stay.
    pub fn grow(&mut self)
        requires
            old(self).wf(),
        ensures
            final(self).wf(),
            final(self)@ == old(self)@,
            final(self).spec_capacity() == crate::raw_array::grown_capacity(
                old(self).spec_capacity(),
            ),
    {
        self.buf.grow(None);
        assert(self@ =~= old(self)@);
    }
}

impl<T> Default for Array<T> {
    fn default() -> (array: Self)
        ensures
            array.wf(),
            array@ == Seq::<T>::empty(),
            array.spec_capacity() == 0,
    {
        Self::new()
    }
}

/// A walk over an array, from the first value to the last.
pub struct Iter<'a, T> {
    array: &'a Array<T>,
    len: usize,
}

impl<'a, T> Iter<'a, T> {
    pub closed spec fn wf(&self) -> bool {
        self.array.wf() && self.len <= self.array@.len()
    }

    /// The values of the array that is walked.
    pub closed spec fn items(&self) -> Seq<T> {
        self.array@
    }

    /// How many values were handed out.
    pub closed spec fn position(&self) -> nat {
        self.len as nat
    }

    /// Hands out the next value and moves on, or `None` at the end.
    pub fn next(&mut self) -> (value: Option<&'a T>)
        requires
            old(self).wf(),
        ensures
            final(self).wf(),
            final(self).items() == old(self).items(),
            match value {
                Some(value) => old(self).position() < old(self).items().len() && *value == old(
                    self,
                ).items()[old(self).position() as int] && final(self).position() == old(
                    self,
                ).position() + 1,
                None => old(self).position() == old(self).items().len() && final(self).position()
                    == old(self).position(),
            },
    {
        let next = self.array.get(self.len);
        if next.is_some() {
            self.len += 1;
        }
        next
    }
}

/// A walk over an array, from the first value to the last, that hands the
/// values out to be changed in place. Its fields are open to contracts, which
/// speak of the array that the walk leaves.
pub struct IterMut<'a, T: 'a> {
    pub array: &'a mut Array<T>,
    pub len: usize,
}

impl<'a, T> IterMut<'a, T> {
    pub open spec fn wf(&self) -> bool {
        self.array.wf() && self.len <= self.array@.len()
    }

    /// The values of the array that is walked.
    pub open spec fn items(&self) -> Seq<T> {
        self.array@
    }

    /// How many values were handed out.
    pub open spec fn position(&self) -> nat {
        self.len as nat
    }

    /// Hands out the next value and moves on, or `None` at the end.
    pub fn next(&mut self) -> (value: Option<&mut T>)
        requires
            old(self).wf(),
        ensures
            final(self).wf(),
            *final(final(self).array) == *final(old(self).array),
            final(self).array.spec_capacity() == old(self).array.spec_capacity(),
            match value {
                Some(value) => old(self).position() < old(self).items().len() && *value == old(
                    self,
                ).items()[old(self).position() as int] && final(self).position() == old(
                    self,
                ).position() + 1 && final(self).items() == old(self).items().update(
                    old(self).position() as int,
                    *final(value),
                ),
                None => old(self).position() == old(self).items().len() && final(self).position()
                    == old(self).position() && final(self).items() == old(self).items(),
            },
    {
        let next = self.array.get_mut(self.len);
        if next.is_some() {
            self.len += 1;
        }
        next
    }
}

} // verus!
