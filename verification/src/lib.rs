//! A fixed-capacity circular buffer (ring) with overwrite-on-full semantics:
//! once full, the oldest unread slot is silently overwritten by the newest
//! write. The read and write cursors advance independently modulo the
//! capacity; occupancy is tracked per slot, never by comparing the cursors.

use vstd::prelude::*;

pub mod laws;
pub mod model;

use crate::model::RingModel;

verus! {

/// A fixed-length contiguous storage area of `capacity` optional slots,
/// with a read cursor and a write cursor, both advancing modulo `capacity`.
pub struct Ring<T> {
    buffer: Vec<Option<T>>,
    read_idx: usize,
    write_idx: usize,
    capacity: usize,
}

impl<T> View for Ring<T> {
    type V = RingModel<T>;

    closed spec fn view(&self) -> RingModel<T> {
        RingModel {
            slots: self.buffer@,
            read: self.read_idx as int,
            write: self.write_idx as int,
        }
    }
}

impl<T> Ring<T> {
    /// Well-formedness: the stored capacity matches the storage length and
    /// the abstract state is well formed (positive capacity, cursors in
    /// range).
    pub closed spec fn wf(&self) -> bool {
        &&& self.capacity == self.buffer@.len()
        &&& self@.wf()
    }

    /// Creates a ring of `capacity` slots, all empty, both cursors at zero.
    /// Capacity zero is a precondition violation: all index arithmetic
    /// reduces modulo the capacity.
    pub fn new(capacity: usize) -> (r: Ring<T>)
        requires
            capacity > 0,
        ensures
            r.wf(),
            r@ == RingModel::<T>::empty(capacity as int),
    {
        let mut buffer: Vec<Option<T>> = Vec::new();
        let mut i: usize = 0;
        while i < capacity
            invariant
                i <= capacity,
                buffer@.len() == i,
                forall|j: int| 0 <= j < i ==> buffer@[j] is None,
            decreases capacity - i,
        {
            buffer.push(None);
            i = i + 1;
        }
        let r = Ring { buffer, read_idx: 0, write_idx: 0, capacity };
        proof {
            assert(r@.slots =~= RingModel::<T>::empty(capacity as int).slots);
        }
        r
    }

    /// Creates a ring from a non-empty sequence of values: the capacity is
    /// the sequence length, every slot is occupied in the original order,
    /// and both cursors start at zero, so the next push overwrites the
    /// first (logically oldest) element. An empty input is a precondition
    /// violation, since it would give capacity zero.
    pub fn from(values: Vec<T>) -> (r: Ring<T>)
        requires
            values@.len() > 0,
        ensures
            r.wf(),
            r@ == RingModel::<T>::full_of(values@),
    {
        let ghost orig: Seq<T> = values@;
        let capacity = values.len();
        let mut rest = values;
        let mut buffer: Vec<Option<T>> = Vec::new();
        while rest.len() > 0
            invariant
                buffer@.len() + rest@.len() == orig.len(),
                rest@ == orig.skip(buffer@.len() as int),
                forall|j: int| 0 <= j < buffer@.len() ==> buffer@[j] == Some(orig[j]),
            decreases rest@.len(),
        {
            let x = rest.remove(0);
            proof {
                assert(x == orig[buffer@.len() as int]);
            }
            buffer.push(Some(x));
            proof {
                assert(rest@ =~= orig.skip(buffer@.len() as int));
            }
        }
        let r = Ring { buffer, read_idx: 0, write_idx: 0, capacity };
        proof {
            assert(r@.slots =~= RingModel::<T>::full_of(orig).slots);
        }
        r
    }

    /// Maps an arbitrary index to its position modulo the capacity; both
    /// cursors wrap through this helper.
    pub fn looped(&self, index: usize) -> (r: usize)
        requires
            self.wf(),
        ensures
            r as int == index as int % self@.cap(),
    {
        index % self.capacity
    }

    /// Writes `elem` into the slot under the write cursor, unconditionally
    /// replacing whatever was there, then advances the write cursor. Never
    /// fails and never blocks: this is the overwrite-on-full policy.
    pub fn push(&mut self, elem: T)
        requires
            old(self).wf(),
        ensures
            final(self).wf(),
            final(self)@ == old(self)@.after_push(elem),
    {
        self.buffer[self.write_idx] = Some(elem);
        let next = self.looped(self.write_idx + 1);
        self.write_idx = next;
        proof {
            assert(self@ =~= old(self)@.after_push(elem));
        }
    }

    /// Reads the slot under the read cursor: if occupied, takes the value
    /// out, leaving the slot empty; if empty, returns `None`. The read
    /// cursor advances in either case — popping an empty slot still
    /// consumes that cursor position.
    pub fn pop(&mut self) -> (r: Option<T>)
        requires
            old(self).wf(),
        ensures
            final(self).wf(),
            r == old(self)@.pop_result(),
            final(self)@ == old(self)@.after_pop(),
    {
        let slot = &mut self.buffer[self.read_idx];
        let result = slot.take();
        let next = self.looped(self.read_idx + 1);
        self.read_idx = next;
        proof {
            assert(self@ =~= old(self)@.after_pop());
        }
        result
    }
}

} // verus!
