//! ROM or RAM memory in bytes.

use vstd::prelude::*;
use crate::mem::const_slice::ConstSlice;
use crate::mem::ram_state::{RamState, filled_by, holds_fill, is_fill_of};

verus! {

/// Kind of reset.
#[derive(Debug, Copy, Clone, PartialEq, Eq, Structural)]
pub enum ResetKind {
    Soft,
    Hard,
}

/// Something that can be reset.
pub trait Reset {
    /// Reset the component.
    fn reset(&mut self, kind: ResetKind);
}

/// The abstract state of a memory.
pub ghost struct MemoryView<D> {
    pub ram_state: RamState,
    pub is_ram: bool,
    pub data: D,
}

/// Represents ROM or RAM memory in bytes.
pub struct Memory<D> {
    ram_state: RamState,
    is_ram: bool,
    data: D,
}

impl<D: Clone> Clone for Memory<D> {
    fn clone(&self) -> (r: Self)
        ensures
            r@.ram_state == self@.ram_state,
            r@.is_ram == self@.is_ram,
            call_ensures(D::clone, (&self@.data,), r@.data),
    {
        Memory { ram_state: self.ram_state, is_ram: self.is_ram, data: self.data.clone() }
    }
}

impl<D> View for Memory<D> {
    type V = MemoryView<D>;

    closed spec fn view(&self) -> MemoryView<D> {
        MemoryView { ram_state: self.ram_state, is_ram: self.is_ram, data: self.data }
    }
}

impl<D: Default> Default for Memory<D> {
    fn default() -> (r: Self)
        ensures
            r@.ram_state == RamState::AllZeros,
            !r@.is_ram,
            call_ensures(D::default, (), r@.data),
    {
        Memory { ram_state: RamState::AllZeros, is_ram: false, data: D::default() }
    }
}

impl<D> Memory<D> {
    /// Create a new `Memory` instance.
    pub fn new() -> (r: Self)
        where
            D: Default,
        ensures
            r@.ram_state == RamState::AllZeros,
            !r@.is_ram,
            call_ensures(D::default, (), r@.data),
    {
        Self::default()
    }

    /// Whether this `Memory` is RAM or ROM.
    pub fn is_ram(&self) -> (r: bool)
        ensures
            r == self@.is_ram,
    {
        self.is_ram
    }

    /// A memory with the given state, kind and data, as they are.
    pub fn from_parts(ram_state: RamState, is_ram: bool, data: D) -> (r: Self)
        ensures
            r@ == (MemoryView { ram_state, is_ram, data }),
    {
        Memory { ram_state, is_ram, data }
    }

    /// The data held.
    pub fn data(&self) -> (r: &D)
        ensures
            *r == self@.data,
    {
        &self.data
    }

    /// The state RAM is filled with.
    pub fn ram_state(&self) -> (r: RamState)
        ensures
            r == self@.ram_state,
    {
        self.ram_state
    }
}

impl Memory<Vec<u8>> {
    /// Create a default ROM `Memory` instance.
    pub fn rom() -> (r: Self)
        ensures
            r@.ram_state == RamState::AllZeros,
            !r@.is_ram,
            r@.data@.len() == 0,
    {
        Memory { ram_state: RamState::AllZeros, is_ram: false, data: Vec::new() }
    }

    /// Create a default RAM `Memory` instance.
    pub fn ram(ram_state: RamState) -> (r: Self)
        ensures
            r@.ram_state == ram_state,
            r@.is_ram,
            r@.data@.len() == 0,
    {
        Memory { ram_state, is_ram: true, data: Vec::new() }
    }

    /// Set `Memory` as ram.
    pub fn set_ram(&mut self, ram_state: RamState)
        ensures
            final(self)@ == (MemoryView { ram_state, is_ram: true, data: old(self)@.data }),
    {
        self.ram_state = ram_state;
        self.is_ram = true;
    }

    /// Fill ram based on [`RamState`].
    pub fn with_ram_state(self, state: RamState) -> (r: Self)
        ensures
            r@.ram_state == state,
            r@.is_ram == self@.is_ram,
            filled_by(state, self@.data@, r@.data@),
            is_fill_of(state, self@.data@.len(), r@.data@),
    {
        let mut m = self;
        m.ram_state = state;
        m.ram_state.fill(m.data.as_mut_slice());
        m
    }

    /// Set `Memory` to have the given size, filled by `ram_state`.
    pub fn with_size(self, size: usize) -> (r: Self)
        ensures
            r@.ram_state == self@.ram_state,
            r@.is_ram == self@.is_ram,
            r@.data@.len() == size,
            holds_fill(self@.ram_state, r@.data@),
            is_fill_of(self@.ram_state, size as nat, r@.data@),
    {
        let mut m = self;
        m.resize(size);
        m
    }

    /// Resize `Memory` to the given size, filled by `ram_state`.
    pub fn resize(&mut self, size: usize)
        ensures
            final(self)@.ram_state == old(self)@.ram_state,
            final(self)@.is_ram == old(self)@.is_ram,
            final(self)@.data@.len() == size,
            holds_fill(old(self)@.ram_state, final(self)@.data@),
            is_fill_of(old(self)@.ram_state, size as nat, final(self)@.data@),
    {
        self.data.resize(size, 0);
        self.ram_state.fill(self.data.as_mut_slice());
    }
}

impl<T, const N: usize> Memory<ConstSlice<T, N>> {
    /// Create a default ROM `Memory` instance.
    pub fn rom_const() -> (r: Self)
        where
            T: Default + Copy,
        ensures
            r@.ram_state == RamState::AllZeros,
            !r@.is_ram,
            r@.data@.len() == N,
            forall|i: int| 0 <= i < N ==> call_ensures(T::default, (), #[trigger] r@.data@[i]),
            forall|i: int, j: int| 0 <= i < N && 0 <= j < N ==> r@.data@[i] == r@.data@[j],
    {
        Memory { ram_state: RamState::AllZeros, is_ram: false, data: ConstSlice::new() }
    }

    /// Create a default RAM `Memory` instance.
    pub fn ram_const(ram_state: RamState) -> (r: Self)
        where
            T: Default + Copy,
        ensures
            r@.ram_state == ram_state,
            r@.is_ram,
            r@.data@.len() == N,
            forall|i: int| 0 <= i < N ==> call_ensures(T::default, (), #[trigger] r@.data@[i]),
            forall|i: int, j: int| 0 <= i < N && 0 <= j < N ==> r@.data@[i] == r@.data@[j],
    {
        Memory { ram_state, is_ram: true, data: ConstSlice::new() }
    }
}

impl Reset for Memory<Vec<u8>> {
    fn reset(&mut self, kind: ResetKind)
        ensures
            final(self)@.ram_state == old(self)@.ram_state,
            final(self)@.is_ram == old(self)@.is_ram,
            old(self)@.is_ram && kind == ResetKind::Hard ==> filled_by(
                old(self)@.ram_state,
                old(self)@.data@,
                final(self)@.data@,
            ),
            old(self)@.is_ram && kind == ResetKind::Hard ==> is_fill_of(
                old(self)@.ram_state,
                old(self)@.data@.len(),
                final(self)@.data@,
            ),
            !(old(self)@.is_ram && kind == ResetKind::Hard) ==> final(self)@.data@ == old(self)@.data@,
    {
        if self.is_ram && kind == ResetKind::Hard {
            self.ram_state.fill(self.data.as_mut_slice());
        }
    }
}

impl<const N: usize> Reset for Memory<ConstSlice<u8, N>> {
    fn reset(&mut self, kind: ResetKind)
        ensures
            final(self)@.ram_state == old(self)@.ram_state,
            final(self)@.is_ram == old(self)@.is_ram,
            old(self)@.is_ram && kind == ResetKind::Hard ==> filled_by(
                old(self)@.ram_state,
                old(self)@.data@,
                final(self)@.data@,
            ),
            old(self)@.is_ram && kind == ResetKind::Hard ==> is_fill_of(
                old(self)@.ram_state,
                old(self)@.data@.len(),
                final(self)@.data@,
            ),
            !(old(self)@.is_ram && kind == ResetKind::Hard) ==> final(self)@.data@ == old(self)@.data@,
    {
        if self.is_ram && kind == ResetKind::Hard {
            self.ram_state.fill(self.data.as_mut());
        }
    }
}

impl<T> From<T> for Memory<T> {
    fn from(data: T) -> (r: Self)
        ensures
            r@ == (MemoryView { ram_state: RamState::AllZeros, is_ram: false, data }),
    {
        Memory { ram_state: RamState::AllZeros, is_ram: false, data }
    }
}

impl<T> vstd::std_specs::convert::FromSpecImpl<T> for Memory<T> {
    open spec fn obeys_from_spec() -> bool {
        true
    }

    closed spec fn from_spec(v: T) -> Memory<T> {
        Memory { ram_state: RamState::AllZeros, is_ram: false, data: v }
    }
}


impl<D: core::ops::Deref> core::ops::Deref for Memory<D> {
    type Target = D::Target;

    fn deref(&self) -> (r: &D::Target)
        ensures
            call_ensures(D::deref, (&self@.data,), r),
    {
        self.data.deref()
    }
}

impl<D: core::ops::DerefMut> core::ops::DerefMut for Memory<D> {
    fn deref_mut(&mut self) -> (r: &mut D::Target)
        ensures
            exists|m: &mut D|
                #[trigger] call_ensures(D::deref_mut, (m,), r) && *m == old(self)@.data
                    && *final(m) == final(self)@.data,
            final(self)@.ram_state == old(self)@.ram_state,
            final(self)@.is_ram == old(self)@.is_ram,
    {
        self.data.deref_mut()
    }
}

impl<T> AsRef<[T]> for Memory<Vec<T>> {
    fn as_ref(&self) -> (r: &[T])
        ensures
            r@ == self@.data@,
    {
        self.data.as_slice()
    }
}

impl<T> AsMut<[T]> for Memory<Vec<T>> {
    fn as_mut(&mut self) -> (r: &mut [T])
        ensures
            r@ == old(self)@.data@,
            final(self)@ == (MemoryView { data: final(self)@.data, ..old(self)@ }),
            final(self)@.data@ == final(r)@,
    {
        self.data.as_mut_slice()
    }
}

impl<T, const N: usize> AsRef<[T]> for Memory<ConstSlice<T, N>> {
    fn as_ref(&self) -> (r: &[T])
        ensures
            r@ == self@.data@,
    {
        self.data.as_ref()
    }
}

impl<T, const N: usize> AsMut<[T]> for Memory<ConstSlice<T, N>> {
    fn as_mut(&mut self) -> (r: &mut [T])
        ensures
            r@ == old(self)@.data@,
            final(self)@ == (MemoryView { data: final(self)@.data, ..old(self)@ }),
            final(self)@.data@ == final(r)@,
    {
        self.data.as_mut()
    }
}


/// Whether `b` is RAM exactly when `a` is.
pub open spec fn keeps_ram<D>(a: MemoryView<D>, b: MemoryView<D>) -> bool {
    b.is_ram == a.is_ram
}

/// Whether `b` is RAM exactly when `a` is, or is RAM.
pub open spec fn keeps_or_makes_ram<D>(a: MemoryView<D>, b: MemoryView<D>) -> bool {
    b.is_ram == a.is_ram || b.is_ram
}

/// Over any sequence of states where each step keeps whether the memory is RAM or makes
/// it RAM (as `set_ram` does; `with_size`, `resize`, `with_ram_state` and `reset` keep
/// it), RAM stays RAM; and where every step keeps it, the last state is RAM exactly when
/// the first is.
pub proof fn lemma_is_ram_along<D>(states: Seq<MemoryView<D>>)
    requires
        states.len() >= 1,
        forall|k: int| 0 <= k < states.len() - 1 ==> #[trigger] keeps_or_makes_ram(states[k], states[k + 1]),
    ensures
        states[0].is_ram ==> states.last().is_ram,
        (forall|k: int| 0 <= k < states.len() - 1 ==> #[trigger] keeps_ram(states[k], states[k + 1]))
            ==> states.last().is_ram == states[0].is_ram,
    decreases states.len(),
{
    if states.len() > 1 {
        let init = states.drop_last();
        let n = states.len() - 1;
        assert forall|k: int| 0 <= k < init.len() - 1 implies #[trigger] keeps_or_makes_ram(init[k], init[k + 1]) by {
            assert(keeps_or_makes_ram(states[k], states[k + 1]));
        }
        lemma_is_ram_along(init);
        assert(init.last() == states[n - 1]);
        assert(keeps_or_makes_ram(states[n - 1], states[n - 1 + 1]));
        if forall|k: int| 0 <= k < states.len() - 1 ==> #[trigger] keeps_ram(states[k], states[k + 1]) {
            assert forall|k: int| 0 <= k < init.len() - 1 implies #[trigger] keeps_ram(init[k], init[k + 1]) by {
                assert(keeps_ram(states[k], states[k + 1]));
            }
            assert(keeps_ram(states[n - 1], states[n - 1 + 1]));
        }
    }
}

} // verus!
