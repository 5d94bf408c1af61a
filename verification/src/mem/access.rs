//! Memory read and write operations.

use vstd::prelude::*;

verus! {

/// The address after `addr`, wrapping past the end of the address space.
pub open spec fn next_addr(addr: u16) -> u16 {
    ((addr + 1) % 0x10000) as u16
}

/// The 16-bit value whose low byte is `lo` and whose high byte is `hi`.
pub open spec fn le_word(lo: u8, hi: u8) -> u16 {
    (lo + 256 * hi) as u16
}

/// Builds a 16-bit value from its bytes in little-endian order.
pub fn u16_from_le_bytes(lo: u8, hi: u8) -> (r: u16)
    ensures
        r == le_word(lo, hi),
{
    (lo as u16) + (hi as u16) * 256
}

/// Splits a 16-bit value into its bytes in little-endian order.
pub fn u16_to_le_bytes(val: u16) -> (r: (u8, u8))
    ensures
        r == ((val % 256) as u8, (val / 256) as u8),
        le_word(r.0, r.1) == val,
{
    ((val % 256) as u8, (val / 256) as u8)
}

/// A trait that represents memory read operations. Reads typically have side-effects.
pub trait Read: Sized {
    /// Read from the given address.
    fn read(&mut self, addr: u16) -> (r: u8)
        default_ensures
            call_ensures(Self::peek, (&*old(self), addr), r),
            *final(self) == *old(self),
    {
        self.peek(addr)
    }

    /// Read two bytes from the given address, low byte first, then the high byte from
    /// the next address: two reads one after the other, the second starting from the
    /// state the first left.
    fn read_u16(&mut self, addr: u16) -> (r: u16)
        ensures
            exists|first: &mut Self, second: &mut Self, lo: u8, hi: u8|
                #[trigger] call_ensures(Self::read, (first, addr), lo)
                    && #[trigger] call_ensures(Self::read, (second, next_addr(addr)), hi)
                    && *first == *old(self) && *final(first) == *second && *final(second) == *final(self)
                    && r == le_word(lo, hi),
    {
        let ghost s0 = *self;
        let lo = self.read(addr);
        let ghost s1 = *self;
        assert(exists|m: &mut Self|
            #[trigger] call_ensures(Self::read, (m, addr), lo) && *m == s0 && *final(m) == s1);
        let next = addr.wrapping_add(1);
        assert(next == next_addr(addr));
        let hi = self.read(next);
        let ghost s2 = *self;
        assert(exists|m: &mut Self|
            #[trigger] call_ensures(Self::read, (m, next), hi) && *m == s1 && *final(m) == s2);
        u16_from_le_bytes(lo, hi)
    }

    /// Peek from the given address.
    fn peek(&self, addr: u16) -> u8;

    /// Peek two bytes from the given address.
    fn peek_u16(&self, addr: u16) -> (r: u16)
        ensures
            exists|lo: u8, hi: u8|
                call_ensures(Self::peek, (self, addr), lo) && call_ensures(Self::peek, (self, next_addr(addr)), hi)
                    && r == le_word(lo, hi),
    {
        let lo = self.peek(addr);
        let hi = self.peek(addr.wrapping_add(1));
        u16_from_le_bytes(lo, hi)
    }
}

/// A trait that represents memory write operations.
pub trait Write: Sized {
    /// Write value to the given address.
    fn write(&mut self, addr: u16, val: u8);

    /// Write the two bytes of a value to the given address, low byte first, then the
    /// high byte to the next address: two writes one after the other, the second
    /// starting from the state the first left.
    fn write_u16(&mut self, addr: u16, val: u16)
        ensures
            exists|first: &mut Self, second: &mut Self|
                #[trigger] call_ensures(Self::write, (first, addr, (val % 256) as u8), ())
                    && #[trigger] call_ensures(Self::write, (second, next_addr(addr), (val / 256) as u8), ())
                    && *first == *old(self) && *final(first) == *second && *final(second) == *final(self),
    {
        let (lo, hi) = u16_to_le_bytes(val);
        let ghost s0 = *self;
        self.write(addr, lo);
        let ghost s1 = *self;
        assert(exists|m: &mut Self|
            #[trigger] call_ensures(Self::write, (m, addr, lo), ()) && *m == s0 && *final(m) == s1);
        let next = addr.wrapping_add(1);
        assert(next == next_addr(addr));
        self.write(next, hi);
        let ghost s2 = *self;
        assert(exists|m: &mut Self|
            #[trigger] call_ensures(Self::write, (m, next, hi), ()) && *m == s1 && *final(m) == s2);
    }
}

} // verus!
