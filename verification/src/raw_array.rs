//! A buffer of slots, each empty or holding one value. It grows on request
//! and never shrinks.

use vstd::prelude::*;

verus! {

#[derive(Clone, Debug, PartialEq, Eq)]
pub struct RawArray<T> {
    slots: Vec<Option<T>>,
}

impl<T> View for RawArray<T> {
    type V = Seq<Option<T>>;

    closed spec fn view(&self) -> Seq<Option<T>> {
        self.slots@
    }
}

/// `count` empty slots.
pub open spec fn empty_slots<T>(count: nat) -> Seq<Option<T>> {
    Seq::new(count, |i: int| None::<T>)
}

/// The capacity that a buffer of capacity `capacity` grows to when none is
/// asked for: 8 at first, then twice as much.
pub open spec fn grown_capacity(capacity: nat) -> nat {
    if capacity < 8 {
        8
    } else {
        capacity * 2
    }
}

impl<T> RawArray<T> {
    pub fn new() -> (array: Self)
        ensures
            array@ == Seq::<Option<T>>::empty(),
    {
        Self { slots: Vec::new() }
    }

    pub fn with_capacity(capacity: usize) -> (array: Self)
        ensures
            array@ == empty_slots::<T>(capacity as nat),
    {
        let mut slots: Vec<Option<T>> = Vec::new();
        while slots.len() < capacity
            invariant
                slots.len() <= capacity,
                slots@ == empty_slots::<T>(slots.len() as nat),
            decreases capacity - slots.len(),
        {
            slots.push(None);
            assert(slots@ =~= empty_slots::<T>(slots.len() as nat));
        }
        Self { slots }
    }

    pub fn capacity(&self) -> (capacity: usize)
        ensures
            capacity == self@.len(),
    {
        self.slots.len()
    }

    /// What the slot at `index` holds.
    pub fn get(&self, index: usize) -> (value: Option<&T>)
        requires
            index < self@.len(),
        ensures
            match value {
                Some(value) => self@[index as int] == Some(*value),
                None => self@[index as int] is None,
            },
    {
        self.slots[index].as_ref()
    }

    /// What the slot at `index` holds, to be changed in place.
    pub fn get_mut(&mut self, index: usize) -> (value: Option<&mut T>)
        requires
            index < old(self)@.len(),
        ensures
            match value {
                Some(value) => old(self)@[index as int] == Some(*value) && final(self)@ == old(
                    self,
                )@.update(index as int, Some(*final(value))),
                None => old(self)@[index as int] is None && final(self)@ == old(self)@,
            },
    {
        match &mut self.slots[index] {
            Some(value) => Some(value),
            None => None,
        }
    }

    /// Fills the slot at `index`.
    pub fn set(&mut self, index: usize, value: T)
        requires
            index < old(self)@.len(),
        ensures
            final(self)@ == old(self)@.update(index as int, Some(value)),
    {
        self.slots[index] = Some(value);
    }

    /// Empties the slot at `index` and hands out what it held.
    pub fn take(&mut self, index: usize) -> (value: Option<T>)
        requires
            index < old(self)@.len(),
        ensures
            value == old(self)@[index as int],
            final(self)@ == old(self)@.update(index as int, None),
    {
        let mut value: Option<T> = None;
        core::mem::swap(&mut self.slots[index], &mut value);
        value
    }

    /// Grows the buffer to `new_capacity` slots, or to `grown_capacity` where
    /// none is given or the buffer has no slot yet. What the slots hold stays.
    pub fn grow(&mut self, new_capacity: Option<usize>)
        requires
            new_capacity is Some ==> new_capacity->0 >= old(self)@.len(),
        ensures
            final(self)@.len() == if old(self)@.len() == 0 || new_capacity is None {
                grown_capacity(old(self)@.len())
            } else {
                new_capacity->0 as nat
            },
            final(self)@ == old(self)@ + empty_slots::<T>(
                (final(self)@.len() - old(self)@.len()) as nat,
            ),
    {
        let ghost before = self.slots@;
        let capacity = self.slots.len();
        let mut added: usize = 0;
        if capacity > 0 && new_capacity.is_some() {
            let target = new_capacity.unwrap();
            while added < target - capacity
                invariant
                    capacity == before.len(),
                    capacity <= target,
                    added <= target - capacity,
                    self.slots@ == before + empty_slots::<T>(added as nat),
                decreases target - capacity - added,
            {
                self.slots.push(None);
                added += 1;
                assert(self.slots@ =~= before + empty_slots::<T>(added as nat));
            }
        } else if capacity < 8 {
            while added < 8 - capacity
                invariant
                    capacity == before.len(),
                    capacity < 8,
                    added <= 8 - capacity,
                    self.slots@ == before + empty_slots::<T>(added as nat),
                decreases 8 - capacity - added,
            {
                self.slots.push(None);
                added += 1;
                assert(self.slots@ =~= before + empty_slots::<T>(added as nat));
            }
        } else {
            while added < capacity
                invariant
                    capacity == before.len(),
                    added <= capacity,
                    self.slots@ == before + empty_slots::<T>(added as nat),
                decreases capacity - added,
            {
                self.slots.push(None);
                added += 1;
                assert(self.slots@ =~= before + empty_slots::<T>(added as nat));
            }
        }
        assert(self.slots@ =~= before + empty_slots::<T>(added as nat));
    }
}

impl<T> Default for RawArray<T> {
    fn default() -> (array: Self)
        ensures
            array@ == Seq::<Option<T>>::empty(),
    {
        Self::new()
    }
}

} // verus!
