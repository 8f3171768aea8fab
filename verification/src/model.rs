//! The mathematical model of a ring: a sequence of optional slots and two
//! cursors, each advancing modulo the sequence length.

use vstd::prelude::*;

verus! {

/// Abstract state of a ring buffer: `slots` is the storage area (one entry
/// per slot, `None` for an empty slot), `read` and `write` are the cursors.
/// The capacity is the length of `slots`.
#[verifier::ext_equal]
pub struct RingModel<T> {
    pub slots: Seq<Option<T>>,
    pub read: int,
    pub write: int,
}

impl<T> RingModel<T> {
    /// The fixed capacity: the number of slots.
    pub open spec fn cap(self) -> int {
        self.slots.len() as int
    }

    /// Well-formedness: at least one slot, and both cursors in `[0, cap)`.
    pub open spec fn wf(self) -> bool {
        &&& self.cap() > 0
        &&& 0 <= self.read < self.cap()
        &&& 0 <= self.write < self.cap()
    }

    /// A freshly created ring: every slot empty, both cursors at zero.
    pub open spec fn empty(cap: int) -> RingModel<T> {
        RingModel { slots: Seq::new(cap as nat, |i: int| None), read: 0, write: 0 }
    }

    /// A ring built from a sequence: every slot occupied in the original
    /// order, both cursors at zero, capacity equal to the sequence length.
    pub open spec fn full_of(vs: Seq<T>) -> RingModel<T> {
        RingModel { slots: Seq::new(vs.len(), |i: int| Some(vs[i])), read: 0, write: 0 }
    }

    /// The state after one push: the slot under the write cursor is
    /// overwritten unconditionally and the write cursor advances.
    pub open spec fn after_push(self, v: T) -> RingModel<T> {
        RingModel {
            slots: self.slots.update(self.write, Some(v)),
            read: self.read,
            write: (self.write + 1) % self.cap(),
        }
    }

    /// What one pop returns: the content of the slot under the read cursor.
    pub open spec fn pop_result(self) -> Option<T> {
        self.slots[self.read]
    }

    /// The state after one pop: the slot under the read cursor is left empty
    /// and the read cursor advances, whether or not a value was present.
    pub open spec fn after_pop(self) -> RingModel<T> {
        RingModel {
            slots: self.slots.update(self.read, None),
            read: (self.read + 1) % self.cap(),
            write: self.write,
        }
    }

    /// The state after pushing every element of `vs`, front first.
    pub open spec fn after_pushes(self, vs: Seq<T>) -> RingModel<T>
        decreases vs.len(),
    {
        if vs.len() == 0 {
            self
        } else {
            self.after_push(vs[0]).after_pushes(vs.drop_first())
        }
    }

    /// The state after `n` successive pops.
    pub open spec fn after_pops(self, n: nat) -> RingModel<T>
        decreases n,
    {
        if n == 0 {
            self
        } else {
            self.after_pop().after_pops((n - 1) as nat)
        }
    }

    /// The results of `n` successive pops, in order.
    pub open spec fn pop_results(self, n: nat) -> Seq<Option<T>>
        decreases n,
    {
        if n == 0 {
            Seq::empty()
        } else {
            seq![self.pop_result()] + self.after_pop().pop_results((n - 1) as nat)
        }
    }
}

} // verus!
