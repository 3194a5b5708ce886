//! Fixed-capacity storage for one value at a time.
//!
//! A slot has a capacity and an alignment that are fixed when the library is
//! built. It is either vacant or holds exactly one occupant, and an occupant is
//! only ever admitted when its type fits both limits.

use vstd::prelude::*;

verus! {

/// Largest occupant, in bytes, that a slot can hold.
pub const CAPACITY: usize = 48;

/// Strictest alignment, in bytes, that a slot can give its occupant.
pub const ALIGNMENT: usize = 16;

/// Whether a value of type `V` fits a slot: its size is within [`CAPACITY`] and
/// its alignment within [`ALIGNMENT`].
pub open spec fn fits<V>() -> bool {
    &&& vstd::layout::size_of::<V>() <= CAPACITY
    &&& vstd::layout::align_of::<V>() <= ALIGNMENT
}

/// The cell itself, as the borrow of a field.
fn storage_of<V>(cell: &mut Option<V>) -> (storage: &mut Option<V>)
    ensures
        *storage == *old(cell),
        *final(cell) == *final(storage),
    no_unwind
{
    cell
}

/// Storage for at most one value of type `V`.
pub struct Slot<V> {
    occupant: Option<V>,
}

impl<V> View for Slot<V> {
    type V = Option<V>;

    /// The occupant, or `None` for a vacant slot.
    closed spec fn view(&self) -> Option<V> {
        self.occupant
    }
}

impl<V> Slot<V> {
    /// Only a type that fits is ever stored.
    #[verifier::type_invariant]
    spec fn occupant_fits(&self) -> bool {
        self.occupant is Some ==> fits::<V>()
    }

    /// Tests at run time whether `V` fits a slot.
    pub fn admits() -> (ok: bool)
        ensures
            ok == fits::<V>(),
    {
        core::mem::size_of::<V>() <= CAPACITY && core::mem::align_of::<V>() <= ALIGNMENT
    }

    /// A vacant slot.
    pub fn new() -> (slot: Self)
        ensures
            slot@ is None,
    {
        Slot { occupant: None }
    }

    /// Whether the slot holds no occupant. A slot that holds one is evidence
    /// that `V` fits.
    pub fn is_vacant(&self) -> (vacant: bool)
        ensures
            vacant == (self@ is None),
            !vacant ==> fits::<V>(),
    {
        proof {
            use_type_invariant(self);
        }
        self.occupant.is_none()
    }

    /// The slot's storage, seen as storage for a `V`: `None` while nothing has
    /// been written to it.
    pub fn cast(&mut self) -> (storage: &mut Option<V>)
        requires
            fits::<V>(),
        ensures
            *storage == old(self)@,
            final(self)@ == *final(storage),
    {
        storage_of(&mut self.occupant)
    }

    /// Writes `value` into a vacant slot and hands back exclusive access to it.
    /// Whatever the caller leaves behind that reference is the occupant.
    pub fn put(&mut self, value: V) -> (stored: &mut V)
        requires
            fits::<V>(),
            old(self)@ is None,
        ensures
            *stored == value,
            final(self)@ == Some(*final(stored)),
    {
        self.cast().insert(value)
    }

    /// Moves the occupant out and leaves the slot vacant, ready for the next one.
    pub fn take(&mut self) -> (value: V)
        requires
            old(self)@ is Some,
        ensures
            old(self)@ == Some(value),
            final(self)@ is None,
            fits::<V>(),
    {
        proof {
            use_type_invariant(&*self);
        }
        self.cast().take().unwrap()
    }
}

} // verus!
