//! A fixed-size array whose indices wrap around its length.

use vstd::prelude::*;
use vstd::arithmetic::power2::pow2;
use vstd::bits::{lemma_usize_low_bits_mask_is_mod, lemma_usize_pow2_no_overflow, low_bits_mask};
use crate::mem::banks::is_power_of_two;

verus! {

/// A fixed-size array of `N` items; indexing masks the index to the length, so the
/// length must be a power of two.
pub struct ConstSlice<T, const N: usize>(pub(crate) [T; N]);

impl<T, const N: usize> View for ConstSlice<T, N> {
    type V = Seq<T>;

    closed spec fn view(&self) -> Seq<T> {
        self.0@
    }
}

/// The position that an index selects in an array of `n` items.
pub open spec fn masked_index(index: usize, n: usize) -> usize {
    index & ((n - 1) as usize)
}

/// In an array whose length is a power of two, masking an index takes it modulo the length.
pub proof fn lemma_masked_index_wraps(index: usize, n: usize)
    requires
        is_power_of_two(n),
    ensures
        masked_index(index, n) as int == index as int % n as int,
        masked_index(index, n) < n,
{
    let k = choose|k: nat| k < usize::BITS && n == pow2(k);
    lemma_usize_pow2_no_overflow(k);
    lemma_usize_low_bits_mask_is_mod(index, k);
    assert(low_bits_mask(k) == n - 1);
}

impl<T, const N: usize> ConstSlice<T, N> {
    /// The number of items, `N`.
    pub open spec fn spec_len(&self) -> nat {
        N as nat
    }

    /// Create a new `ConstSlice` instance filled with `val`.
    pub fn filled(val: T) -> (r: Self)
        where
            T: Copy,
        ensures
            r@.len() == N,
            forall|i: int| 0 <= i < N ==> r@[i] == val,
    {
        ConstSlice([val; N])
    }

    /// Create a new `ConstSlice` instance filled with `T::default()`.
    pub fn new() -> (r: Self)
        where
            T: Default + Copy,
        ensures
            r@.len() == N,
            forall|i: int| 0 <= i < N ==> call_ensures(T::default, (), #[trigger] r@[i]),
            forall|i: int, j: int| 0 <= i < N && 0 <= j < N ==> r@[i] == r@[j],
    {
        let d = T::default();
        ConstSlice::filled(d)
    }

    /// The item at `index`, masked to the length, to be written through.
    pub fn index_mut(&mut self, index: usize) -> (r: &mut T)
        requires
            is_power_of_two(N),
        ensures
            *r == old(self)@[masked_index(index, N) as int],
            final(self)@ == old(self)@.update(masked_index(index, N) as int, *final(r)),
    {
        proof {
            lemma_masked_index_wraps(index, N);
        }
        &mut self.0[index & (N - 1)]
    }
}


impl<T: Default + Copy, const N: usize> Default for ConstSlice<T, N> {
    fn default() -> (r: Self)
        ensures
            r@.len() == N,
            forall|i: int| 0 <= i < N ==> call_ensures(T::default, (), #[trigger] r@[i]),
            forall|i: int, j: int| 0 <= i < N && 0 <= j < N ==> r@[i] == r@[j],
    {
        ConstSlice::new()
    }
}

impl<T, const N: usize> From<[T; N]> for ConstSlice<T, N> {
    fn from(data: [T; N]) -> (r: Self)
        ensures
            r@ == data@,
    {
        ConstSlice(data)
    }
}

impl<T, const N: usize> vstd::std_specs::convert::FromSpecImpl<[T; N]> for ConstSlice<T, N> {
    open spec fn obeys_from_spec() -> bool {
        true
    }

    closed spec fn from_spec(v: [T; N]) -> ConstSlice<T, N> {
        ConstSlice(v)
    }
}

impl<T, const N: usize> core::ops::Deref for ConstSlice<T, N> {
    type Target = [T; N];

    fn deref(&self) -> (r: &[T; N])
        ensures
            r@ == self@,
    {
        &self.0
    }
}

impl<T, const N: usize> core::ops::DerefMut for ConstSlice<T, N> {
    fn deref_mut(&mut self) -> (r: &mut [T; N])
        ensures
            r@ == old(self)@,
            final(self)@ == final(r)@,
    {
        &mut self.0
    }
}

impl<T, const N: usize> AsRef<[T]> for ConstSlice<T, N> {
    fn as_ref(&self) -> (r: &[T])
        ensures
            r@ == self@,
    {
        self.0.as_slice()
    }
}

impl<T, const N: usize> AsMut<[T]> for ConstSlice<T, N> {
    fn as_mut(&mut self) -> (r: &mut [T])
        ensures
            r@ == old(self)@,
            final(self)@ == final(r)@,
    {
        &mut self.0
    }
}

impl<T, const N: usize> core::ops::Index<usize> for ConstSlice<T, N> {
    type Output = T;

    fn index(&self, index: usize) -> (r: &T)
        ensures
            *r == self@[masked_index(index, N) as int],
    {
        proof {
            lemma_masked_index_wraps(index, N);
        }
        &self.0[index & (N - 1)]
    }
}

impl<T, const N: usize> vstd::std_specs::core::IndexSpecImpl<usize> for ConstSlice<T, N> {
    open spec fn index_req(&self, index: &usize) -> bool {
        is_power_of_two(N)
    }
}
} // verus!
