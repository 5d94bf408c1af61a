//! Bank switching: a window of CPU addresses mapped onto pages of a larger memory.

use vstd::prelude::*;
use vstd::arithmetic::power2::{pow2, lemma_pow2_pos};
use vstd::arithmetic::mul::{lemma_mul_inequality, lemma_mul_strict_inequality};
use vstd::arithmetic::div_mod::{
    lemma_fundamental_div_mod, lemma_small_mod, lemma_mod_multiples_basic, lemma_div_multiples_vanish,
};
use vstd::bits::{
    lemma_usize_shl_is_mul, lemma_usize_pow2_no_overflow, lemma_usize_shr_is_div, lemma_usize_low_bits_mask_is_mod,
    low_bits_mask,
};

verus! {

/// Represents allowed memory bank access.
#[derive(Debug, Copy, Clone, PartialEq, Eq, Structural)]
pub enum BankAccess {
    NoAccess,
    Read,
    ReadWrite,
}

/// Why a set of banks could not be made.
#[derive(Debug, Copy, Clone, PartialEq, Eq, Structural)]
pub enum Error {
    InvalidWindow,
    InvalidSize,
}

impl Error {
    /// The message that describes the error.
    pub fn message(&self) -> (r: &'static str)
        ensures
            *self == Error::InvalidWindow ==> r@ == "bank `window` must a non-zero power of two"@,
            *self == Error::InvalidSize ==> r@ == "bank `size` must be non-zero"@,
    {
        match self {
            Error::InvalidWindow => "bank `window` must a non-zero power of two",
            Error::InvalidSize => "bank `size` must be non-zero",
        }
    }
}

/// Whether `n` is a power of two that a `usize` can hold.
pub open spec fn is_power_of_two(n: usize) -> bool {
    exists|k: nat| k < usize::BITS && n == pow2(k)
}

/// `n - 1`, or 0 when `n` is 0.
pub open spec fn saturating_dec(n: usize) -> usize {
    if n == 0 { 0 } else { (n - 1) as usize }
}

/// The abstract state of a set of banks.
pub ghost struct BanksView {
    pub start: usize,
    pub end: usize,
    pub size: usize,
    pub window: usize,
    pub shift: usize,
    pub mask: usize,
    pub page_count: usize,
    pub banks: Seq<usize>,
    pub access: Seq<BankAccess>,
}

impl BanksView {
    /// What every set of banks satisfies.
    pub open spec fn wf(self) -> bool {
        &&& self.start <= self.end
        &&& self.size == self.end - self.start
        &&& 0 < self.size < usize::MAX
        &&& self.shift < usize::BITS
        &&& self.window == pow2(self.shift as nat)
        &&& self.page_count * self.window <= usize::MAX
        &&& self.mask == saturating_dec(self.page_count)
        &&& self.banks.len() == self.access.len()
        &&& self.banks.len() == (self.size + 1) / (self.window as int)
    }

    /// Number of bank slots.
    pub open spec fn len(self) -> nat {
        self.banks.len()
    }

    /// The slot that an address falls into.
    pub open spec fn slot(self, addr: u16) -> usize {
        ((addr as usize) & self.size) >> self.shift
    }

    /// The slot that a bank number selects: bank numbers wrap around the slot count.
    pub open spec fn wrap(self, bank: usize) -> int {
        bank as int % (self.len() as int)
    }

    /// The offset of the first byte of a page, once the page number is masked.
    pub open spec fn page_base(self, page: usize) -> int {
        (page & self.mask) * self.window
    }

    /// The address in the underlying memory that `addr` maps to.
    pub open spec fn translated(self, addr: u16) -> usize {
        self.banks[self.slot(addr) as int] | ((addr as usize) & ((self.window - 1) as usize))
    }

    /// The state after mapping `page` into the slot that `bank` selects.
    pub open spec fn with_page(self, bank: usize, page: usize) -> BanksView {
        BanksView { banks: self.banks.update(self.wrap(bank), self.page_base(page) as usize), ..self }
    }

    /// The state after giving the slot that `bank` selects the access `access`.
    pub open spec fn with_access(self, bank: usize, access: BankAccess) -> BanksView {
        BanksView { access: self.access.update(self.wrap(bank), access), ..self }
    }

    /// Whether the slot that `addr` falls into can be read.
    pub open spec fn is_readable(self, addr: u16) -> bool {
        let a = self.access[self.slot(addr) as int];
        a == BankAccess::Read || a == BankAccess::ReadWrite
    }

    /// Whether the slot that `addr` falls into can be written.
    pub open spec fn is_writable(self, addr: u16) -> bool {
        self.access[self.slot(addr) as int] == BankAccess::ReadWrite
    }

    /// The slot that the `i`-th bank of a range starting at bank `start` selects.
    pub open spec fn range_slot(self, start: usize, i: int) -> int {
        (start + i) % (self.len() as int)
    }

    /// Whether some bank of the range `start..=end` selects slot `j`.
    pub open spec fn range_hits(self, start: usize, end: usize, j: int) -> bool {
        exists|i: int| 0 <= i <= end - start && #[trigger] self.range_slot(start, i) == j
    }

    /// What `set_range(start, end, page)` leaves: the banks of the range map consecutive
    /// pages from `page` on, a later bank of the range overriding an earlier one that
    /// selects the same slot; every other slot and every other field keeps its value.
    pub open spec fn range_mapped(self, next: BanksView, start: usize, end: usize, page: usize) -> bool {
        &&& next == (BanksView { banks: next.banks, ..self })
        &&& next.banks.len() == self.banks.len()
        &&& forall|i: int|
            0 <= i <= end - start && end - start - self.len() < i ==> next.banks[#[trigger] self.range_slot(start, i)]
                == self.page_base(page) + i * self.window
        &&& forall|j: int| 0 <= j < self.len() && !self.range_hits(start, end, j) ==> next.banks[j] == self.banks[j]
    }

    /// What `set_access_range(start, end, access)` leaves: every slot that a bank of the
    /// range selects gets `access`; every other slot and every other field keeps its value.
    pub open spec fn range_access(self, next: BanksView, start: usize, end: usize, access: BankAccess) -> bool {
        &&& next == (BanksView { access: next.access, ..self })
        &&& next.access.len() == self.access.len()
        &&& forall|i: int| 0 <= i <= end - start ==> next.access[#[trigger] self.range_slot(start, i)] == access
        &&& forall|j: int| 0 <= j < self.len() && !self.range_hits(start, end, j) ==> next.access[j] == self.access[j]
    }

    /// Every bank maps a whole page below the page count: its offset is a multiple of
    /// the window and below `page_count * window`.
    pub open spec fn pages_aligned(self) -> bool {
        forall|i: int|
            0 <= i < self.len() ==> (#[trigger] self.banks[i] as int) % (self.window as int) == 0
                && self.banks[i] < self.page_count * self.window
    }

    /// Whether `other` has this state's layout: the same address range, window, page
    /// count and number of slots.
    pub open spec fn same_layout(self, other: BanksView) -> bool {
        &&& other.start == self.start
        &&& other.end == self.end
        &&& other.size == self.size
        &&& other.window == self.window
        &&& other.shift == self.shift
        &&& other.mask == self.mask
        &&& other.page_count == self.page_count
        &&& other.len() == self.len()
        &&& other.access.len() == self.access.len()
    }

    /// Whether `next` is what one call of `set`, `set_range`, `set_access` or
    /// `set_access_range` that does not panic leaves of this state.
    pub open spec fn mutation_step(self, next: BanksView) -> bool {
        ||| exists|bank: usize, page: usize|
            self.len() > 0 && self.page_count > 0 && next == #[trigger] self.with_page(bank, page)
        ||| exists|bank: usize, access: BankAccess| self.len() > 0 && next == #[trigger] self.with_access(bank, access)
        ||| exists|start: usize, end: usize, page: usize|
            (start <= end ==> self.len() > 0 && self.page_count > 0 && (page & self.mask) + (end - start)
                < self.page_count) && #[trigger] self.range_mapped(next, start, end, page)
        ||| exists|start: usize, end: usize, access: BankAccess|
            (start <= end ==> self.len() > 0) && #[trigger] self.range_access(next, start, end, access)
    }

    /// Whether the step from this state to `next` is a `set_access` or
    /// `set_access_range` call that gives slot `j` the access `access`.
    pub open spec fn gives_access(self, next: BanksView, j: int, access: BankAccess) -> bool {
        ||| exists|bank: usize| self.len() > 0 && next == #[trigger] self.with_access(bank, access) && self.wrap(bank) == j
        ||| exists|start: usize, end: usize|
            (start <= end ==> self.len() > 0) && #[trigger] self.range_access(next, start, end, access)
                && self.range_hits(start, end, j)
    }

    /// The state that `Banks::new` makes on valid arguments.
    pub open spec fn initial(self, start: usize, end: usize, capacity: usize, window: usize) -> bool {
        &&& self.wf()
        &&& self.start == start
        &&& self.end == end
        &&& self.window == window
        &&& self.page_count == capacity / window
        &&& self.len() == ((end - start) + 1) / (window as int)
        &&& forall|i: int| 0 <= i < self.len() ==> self.banks[i] == (i * window) % (capacity as int)
        &&& forall|i: int| 0 <= i < self.len() ==> self.access[i] == BankAccess::ReadWrite
    }
}

/// Represents a set of memory banks.
pub struct Banks {
    start: usize,
    end: usize,
    size: usize,
    window: usize,
    shift: usize,
    mask: usize,
    banks: Vec<usize>,
    access: Vec<BankAccess>,
    page_count: usize,
}

impl View for Banks {
    type V = BanksView;

    closed spec fn view(&self) -> BanksView {
        BanksView {
            start: self.start,
            end: self.end,
            size: self.size,
            window: self.window,
            shift: self.shift,
            mask: self.mask,
            page_count: self.page_count,
            banks: self.banks@,
            access: self.access@,
        }
    }
}

/// The fields of a set of banks, as plain values.
pub struct BanksParts {
    pub start: usize,
    pub end: usize,
    pub size: usize,
    pub window: usize,
    pub shift: usize,
    pub mask: usize,
    pub banks: Vec<usize>,
    pub access: Vec<BankAccess>,
    pub page_count: usize,
}

impl View for BanksParts {
    type V = BanksView;

    open spec fn view(&self) -> BanksView {
        BanksView {
            start: self.start,
            end: self.end,
            size: self.size,
            window: self.window,
            shift: self.shift,
            mask: self.mask,
            page_count: self.page_count,
            banks: self.banks@,
            access: self.access@,
        }
    }
}

/// The exponent `k` with `n == 2^k`, if `n` is a power of two.
fn log2_exact(n: usize) -> (r: Option<usize>)
    ensures
        match r {
            Some(k) => k < usize::BITS && n == pow2(k as nat),
            None => !is_power_of_two(n),
        },
{
    let bits: usize = usize::BITS as usize;
    let mut k: usize = 0;
    while k < bits
        invariant
            bits == usize::BITS,
            k <= bits,
            forall|j: nat| j < k ==> pow2(j) != n,
        decreases bits - k,
    {
        proof {
            lemma_usize_pow2_no_overflow(k as nat);
            lemma_usize_shl_is_mul(1, k);
        }
        if (1usize << k) == n {
            return Some(k);
        }
        k = k + 1;
    }
    None
}

impl Clone for Banks {
    fn clone(&self) -> (r: Self)
        ensures
            r@ == self@,
    {
        let banks = self.banks.clone();
        let access = self.access.clone();
        proof {
            assert(banks@ =~= self.banks@);
            assert(access@ =~= self.access@);
        }
        Banks {
            start: self.start,
            end: self.end,
            size: self.size,
            window: self.window,
            shift: self.shift,
            mask: self.mask,
            banks,
            access,
            page_count: self.page_count,
        }
    }
}

impl Banks {
    /// Makes the banks that map `start..=end` in windows of `window` bytes onto a
    /// memory of `capacity` bytes.
    pub fn new(start: usize, end: usize, capacity: usize, window: usize) -> (r: Result<Banks, Error>)
        requires
            is_power_of_two(window) ==> start <= end,
            is_power_of_two(window) && start < end ==> end - start < usize::MAX,
            is_power_of_two(window) && start < end && capacity == 0 ==> (end - start + 1) / (window as int) == 0,
        ensures
            !is_power_of_two(window) ==> r == Err::<Banks, Error>(Error::InvalidWindow),
            is_power_of_two(window) && start == end ==> r == Err::<Banks, Error>(Error::InvalidSize),
            is_power_of_two(window) && start < end ==> r is Ok && r->Ok_0@.initial(start, end, capacity, window),
    {
        let shift = match log2_exact(window) {
            Some(k) => k,
            None => return Err(Error::InvalidWindow),
        };
        if end - start == 0 {
            return Err(Error::InvalidSize);
        }
        let size = end - start;
        proof {
            lemma_pow2_pos(shift as nat);
        }
        let bank_count = (size + 1) / window;
        let mut banks: Vec<usize> = Vec::new();
        let mut access: Vec<BankAccess> = Vec::new();
        let mut i: usize = 0;
        while i < bank_count
            invariant
                window > 0,
                bank_count == (size + 1) / (window as int),
                size < usize::MAX,
                capacity == 0 ==> bank_count == 0,
                i <= bank_count,
                banks@.len() == i,
                access@.len() == i,
                forall|j: int| 0 <= j < i ==> banks@[j] == (j * window) % (capacity as int),
                forall|j: int| 0 <= j < i ==> access@[j] == BankAccess::ReadWrite,
            decreases bank_count - i,
        {
            proof {
                lemma_fundamental_div_mod(size + 1, window as int);
                lemma_mul_inequality(i + 1, bank_count as int, window as int);
                assert(window * bank_count == bank_count * window) by (nonlinear_arith);
                assert((i + 1) * window == i * window + window) by (nonlinear_arith);
            }
            banks.push((i * window) % capacity);
            access.push(BankAccess::ReadWrite);
            i = i + 1;
        }
        let page_count = capacity / window;
        proof {
            lemma_fundamental_div_mod(capacity as int, window as int);
            assert(window * page_count == page_count * window) by (nonlinear_arith);
            assert((capacity as int) % (window as int) >= 0);
        }
        let mask = if page_count == 0 { 0 } else { page_count - 1 };
        Ok(Banks { start, end, size, window, shift, mask, banks, access, page_count })
    }
}


/// `x & m` never exceeds `m`.
proof fn lemma_and_le(x: usize, m: usize)
    ensures
        x & m <= m,
{
    assert(x & m <= m) by (bit_vector);
}

/// Two banks of a range that are less than a slot count apart select different slots.
proof fn lemma_distinct_slots(start: int, i: int, k: int, len: int)
    requires
        0 <= i < k,
        k - i < len,
        0 <= start,
    ensures
        (start + i) % len != (start + k) % len,
{
    lemma_fundamental_div_mod(start + i, len);
    lemma_fundamental_div_mod(start + k, len);
    vstd::arithmetic::div_mod::lemma_mod_pos_bound(start + i, len);
    vstd::arithmetic::div_mod::lemma_mod_pos_bound(start + k, len);
    if (start + i) % len == (start + k) % len {
        let q1 = (start + i) / len;
        let q2 = (start + k) / len;
        assert(len * q2 - len * q1 == k - i);
        assert(len * (q2 - q1) == k - i) by (nonlinear_arith)
            requires
                len * q2 - len * q1 == k - i,
        ;
        if q2 - q1 <= 0 {
            assert(len * (q2 - q1) <= 0) by (nonlinear_arith)
                requires
                    q2 - q1 <= 0,
                    len > 0,
            ;
        } else {
            assert(len * (q2 - q1) >= len) by (nonlinear_arith)
                requires
                    q2 - q1 >= 1,
                    len > 0,
            ;
        }
    }
}

impl Banks {
    /// Maps `page` into the slot that `bank` selects; bank numbers past the slot count
    /// wrap around, and page numbers are masked to the page count.
    pub fn set(&mut self, bank: usize, page: usize)
        requires
            old(self)@.wf(),
            old(self)@.len() > 0,
            old(self)@.page_count > 0,
        ensures
            final(self)@.wf(),
            final(self)@ == old(self)@.with_page(bank, page),
    {
        let len = self.banks.len();
        let mut bank = bank;
        if bank >= len {
            bank = bank % len;
        } else {
            proof {
                lemma_small_mod(bank as nat, len as nat);
            }
        }
        proof {
            lemma_and_le(page, self.mask);
            lemma_mul_inequality((page & self.mask) as int, self.page_count as int, self.window as int);
            lemma_usize_shl_is_mul(page & self.mask, self.shift);
        }
        let value = (page & self.mask) << self.shift;
        self.banks.set(bank, value);
    }

    /// Maps consecutive pages, from `page` on, into the slots that the banks
    /// `start..=end` select.
    pub fn set_range(&mut self, start: usize, end: usize, page: usize)
        requires
            old(self)@.wf(),
            start <= end ==> old(self)@.len() > 0 && old(self)@.page_count > 0
                && (page & old(self)@.mask) + (end - start) < old(self)@.page_count,
        ensures
            final(self)@.wf(),
            old(self)@.range_mapped(final(self)@, start, end, page),
    {
        if start > end {
            proof {
                assert forall|j: int| 0 <= j < self@.len() implies !self@.range_hits(start, end, j) by {}
            }
            return;
        }
        let ghost orig = self@;
        let len = self.banks.len();
        let window = self.window;
        proof {
            lemma_and_le(page, self.mask);
            lemma_mul_inequality((page & self.mask) as int, self.page_count as int, self.window as int);
            lemma_usize_shl_is_mul(page & self.mask, self.shift);
        }
        let mut new_addr = (page & self.mask) << self.shift;
        let mut bank = start;
        loop
            invariant_except_break
                new_addr == orig.page_base(page) + (bank - start) * window,
                forall|i: int|
                    0 <= i < bank - start && bank - start - len <= i ==> self@.banks[#[trigger] orig.range_slot(start, i)]
                        == orig.page_base(page) + i * window,
                forall|j: int|
                    0 <= j < len && (forall|i: int| 0 <= i < bank - start ==> #[trigger] orig.range_slot(start, i) != j)
                        ==> self@.banks[j] == orig.banks[j],
            invariant
                orig.wf(),
                orig.len() > 0,
                orig.page_count > 0,
                (page & orig.mask) + (end - start) < orig.page_count,
                len == orig.len(),
                window == orig.window,
                start <= bank <= end,
                self@ == (BanksView { banks: self@.banks, ..orig }),
                self@.banks.len() == orig.banks.len(),
            ensures
                bank == end,
                self@ == (BanksView { banks: self@.banks, ..orig }),
                self@.banks.len() == orig.banks.len(),
                forall|i: int|
                    0 <= i <= end - start && end - start - len < i ==> self@.banks[#[trigger] orig.range_slot(start, i)]
                        == orig.page_base(page) + i * window,
                forall|j: int|
                    0 <= j < len && (forall|i: int| 0 <= i <= end - start ==> #[trigger] orig.range_slot(start, i) != j)
                        ==> self@.banks[j] == orig.banks[j],
            decreases end - bank,
        {
            let ghost k = bank - start;
            let mut slot = bank;
            if slot >= len {
                slot = slot % len;
            } else {
                proof {
                    lemma_small_mod(slot as nat, len as nat);
                }
            }
            assert(slot == orig.range_slot(start, k));
            self.banks.set(slot, new_addr);
            proof {
                assert forall|i: int|
                    0 <= i <= k && k + 1 - len <= i implies self@.banks[#[trigger] orig.range_slot(start, i)]
                        == orig.page_base(page) + i * window by {
                    if i < k {
                        lemma_distinct_slots(start as int, i, k, len as int);
                    }
                }
                assert forall|j: int|
                    0 <= j < len && (forall|i: int| 0 <= i <= k ==> #[trigger] orig.range_slot(start, i) != j) implies
                        self@.banks[j] == orig.banks[j] by {
                    assert(orig.range_slot(start, k) != j);
                }
            }
            if bank == end {
                break;
            }
            proof {
                assert((k + 1) * window == k * window + window) by (nonlinear_arith);
                lemma_mul_inequality(
                    (page & orig.mask) + k + 2,
                    orig.page_count as int,
                    window as int,
                );
                assert(((page & orig.mask) + k + 2) * window == orig.page_base(page) + (k + 1) * window + window)
                    by (nonlinear_arith)
                    requires
                        orig.page_base(page) == (page & orig.mask) * window,
                ;
            }
            new_addr = new_addr + window;
            bank = bank + 1;
        }
        proof {
            assert forall|j: int| 0 <= j < len && !orig.range_hits(start, end, j) implies
                self@.banks[j] == orig.banks[j] by {
                assert forall|i: int| 0 <= i <= end - start implies #[trigger] orig.range_slot(start, i) != j by {}
            }
        }
    }
}

impl Banks {
    /// Gives the slot that `bank` selects the access `access`; bank numbers past the
    /// slot count wrap around.
    pub fn set_access(&mut self, bank: usize, access: BankAccess)
        requires
            old(self)@.wf(),
            old(self)@.len() > 0,
        ensures
            final(self)@.wf(),
            final(self)@ == old(self)@.with_access(bank, access),
    {
        let len = self.access.len();
        let mut bank = bank;
        if bank >= len {
            bank = bank % len;
        } else {
            proof {
                lemma_small_mod(bank as nat, len as nat);
            }
        }
        self.access.set(bank, access);
    }

    /// Gives every slot that the banks `start..=end` select the access `access`.
    pub fn set_access_range(&mut self, start: usize, end: usize, access: BankAccess)
        requires
            old(self)@.wf(),
            start <= end ==> old(self)@.len() > 0,
        ensures
            final(self)@.wf(),
            old(self)@.range_access(final(self)@, start, end, access),
    {
        if start > end {
            proof {
                assert forall|j: int| 0 <= j < self@.len() implies !self@.range_hits(start, end, j) by {}
            }
            return;
        }
        let ghost orig = self@;
        let mut slot = start;
        loop
            invariant_except_break
                forall|i: int| 0 <= i < slot - start ==> self@.access[#[trigger] orig.range_slot(start, i)] == access,
                forall|j: int|
                    0 <= j < orig.len() && (forall|i: int| 0 <= i < slot - start ==> #[trigger] orig.range_slot(start, i) != j)
                        ==> self@.access[j] == orig.access[j],
            invariant
                orig.wf(),
                orig.len() > 0,
                start <= slot <= end,
                self@ == (BanksView { access: self@.access, ..orig }),
                self@.access.len() == orig.access.len(),
            ensures
                self@ == (BanksView { access: self@.access, ..orig }),
                self@.access.len() == orig.access.len(),
                forall|i: int| 0 <= i <= end - start ==> self@.access[#[trigger] orig.range_slot(start, i)] == access,
                forall|j: int|
                    0 <= j < orig.len() && (forall|i: int| 0 <= i <= end - start ==> #[trigger] orig.range_slot(start, i) != j)
                        ==> self@.access[j] == orig.access[j],
            decreases end - slot,
        {
            let ghost k = slot - start;
            let ghost before = self@;
            self.set_access(slot, access);
            proof {
                assert(orig.range_slot(start, k) == before.wrap(slot));
                assert forall|i: int| 0 <= i <= k implies self@.access[#[trigger] orig.range_slot(start, i)] == access by {}
                assert forall|j: int|
                    0 <= j < orig.len() && (forall|i: int| 0 <= i <= k ==> #[trigger] orig.range_slot(start, i) != j) implies
                        self@.access[j] == orig.access[j] by {
                    assert(orig.range_slot(start, k) != j);
                }
            }
            if slot == end {
                break;
            }
            slot = slot + 1;
        }
        proof {
            assert forall|j: int| 0 <= j < orig.len() && !orig.range_hits(start, end, j) implies
                self@.access[j] == orig.access[j] by {
                assert forall|i: int| 0 <= i <= end - start implies #[trigger] orig.range_slot(start, i) != j by {}
            }
        }
    }

    /// Whether the slot that `addr` falls into can be read.
    pub fn readable(&self, addr: u16) -> (r: bool)
        requires
            self@.wf(),
            self@.slot(addr) < self@.len(),
        ensures
            r == self@.is_readable(addr),
    {
        let slot = self.get(addr);
        match self.access[slot] {
            BankAccess::Read | BankAccess::ReadWrite => true,
            BankAccess::NoAccess => false,
        }
    }

    /// Whether the slot that `addr` falls into can be written.
    pub fn writable(&self, addr: u16) -> (r: bool)
        requires
            self@.wf(),
            self@.slot(addr) < self@.len(),
        ensures
            r == self@.is_writable(addr),
    {
        let slot = self.get(addr);
        match self.access[slot] {
            BankAccess::ReadWrite => true,
            _ => false,
        }
    }

    /// The number of the last page.
    pub fn last(&self) -> (r: usize)
        ensures
            r == saturating_dec(self@.page_count),
    {
        if self.page_count == 0 {
            0
        } else {
            self.page_count - 1
        }
    }

    /// The number of bank slots.
    pub fn banks_len(&self) -> (r: usize)
        ensures
            r == self@.len(),
    {
        self.banks.len()
    }

    /// The slot that `addr` falls into.
    pub fn get(&self, addr: u16) -> (r: usize)
        requires
            self@.wf(),
        ensures
            r == self@.slot(addr),
    {
        ((addr as usize) & self.size) >> self.shift
    }

    /// The address in the underlying memory that `addr` maps to: the offset of the page
    /// mapped into its slot, with the low bits of `addr` that index into the window.
    pub fn translate(&self, addr: u16) -> (r: usize)
        requires
            self@.wf(),
            self@.slot(addr) < self@.len(),
        ensures
            r == self@.translated(addr),
    {
        let slot = self.get(addr);
        proof {
            lemma_pow2_pos(self.shift as nat);
        }
        let page_offset = self.banks[slot];
        page_offset | ((addr as usize) & (self.window - 1))
    }

    /// The page mapped into slot `bank`.
    pub fn page(&self, bank: usize) -> (r: usize)
        requires
            self@.wf(),
            bank < self@.len(),
        ensures
            r == self@.banks[bank as int] / self@.window,
    {
        proof {
            lemma_usize_shr_is_div(self.banks@[bank as int], self.shift);
        }
        self.banks[bank] >> self.shift
    }

    /// The offset of the page mapped into slot `bank`.
    pub fn page_offset(&self, bank: usize) -> (r: usize)
        requires
            bank < self@.len(),
        ensures
            r == self@.banks[bank as int],
    {
        self.banks[bank]
    }

    /// The number of pages of the underlying memory.
    pub fn page_count(&self) -> (r: usize)
        ensures
            r == self@.page_count,
    {
        self.page_count
    }
}

/// Or-ing a window-aligned offset with the low bits of an address adds the address's
/// offset within the window.
proof fn lemma_aligned_or(b: usize, a: usize, s: usize)
    requires
        s < usize::BITS,
        (b as int) % (pow2(s as nat) as int) == 0,
    ensures
        b | (a & ((pow2(s as nat) - 1) as usize)) == b + (a as int) % (pow2(s as nat) as int),
{
    lemma_usize_pow2_no_overflow(s as nat);
    lemma_usize_low_bits_mask_is_mod(a, s as nat);
    lemma_usize_low_bits_mask_is_mod(b, s as nat);
    let m = low_bits_mask(s as nat) as usize;
    assert(m == (pow2(s as nat) - 1) as usize);
    let c = a & m;
    assert(b & m == 0);
    assert(b & (a & m) == 0) by (bit_vector)
        requires
            b & m == 0,
    ;
    assert(b | c == b + c) by (bit_vector)
        requires
            b & c == 0,
    ;
}

/// The offset of a masked page fits in a `usize` and is window-aligned.
proof fn lemma_page_base(v: BanksView, page: usize)
    requires
        v.wf(),
        v.page_count > 0,
    ensures
        0 <= v.page_base(page) < v.page_count * v.window,
        v.page_base(page) % (v.window as int) == 0,
        v.page_base(page) / (v.window as int) == page & v.mask,
{
    lemma_pow2_pos(v.shift as nat);
    lemma_and_le(page, v.mask);
    lemma_mul_inequality((page & v.mask) + 1, v.page_count as int, v.window as int);
    assert(((page & v.mask) + 1) * v.window == (page & v.mask) * v.window + v.window) by (nonlinear_arith);
    lemma_mod_multiples_basic((page & v.mask) as int, v.window as int);
    lemma_div_multiples_vanish((page & v.mask) as int, v.window as int);
    assert((page & v.mask) * v.window == v.window * (page & v.mask)) by (nonlinear_arith);
}

/// After a page is mapped into a bank, every address of that bank's slot translates
/// to the page's offset plus the address's offset within the window.
pub proof fn lemma_translate_after_set(v: BanksView, bank: usize, page: usize, addr: u16)
    requires
        v.wf(),
        v.len() > 0,
        v.page_count > 0,
        v.slot(addr) as int == v.wrap(bank),
    ensures
        v.with_page(bank, page).translated(addr) == v.page_base(page) + (addr as int) % (v.window as int),
{
    lemma_page_base(v, page);
    let b = v.page_base(page) as usize;
    lemma_aligned_or(b, addr as usize, v.shift);
    vstd::arithmetic::div_mod::lemma_mod_pos_bound(v.wrap(bank) + 0, v.len() as int);
}

/// After a range of banks is mapped, every address of the slot that the `i`-th bank of
/// the range selects (and that no later bank of the range selects again) translates to
/// the `i`-th page after the first one, plus the address's offset within the window.
pub proof fn lemma_translate_after_set_range(
    v: BanksView,
    next: BanksView,
    start: usize,
    end: usize,
    page: usize,
    i: int,
    addr: u16,
)
    requires
        v.wf(),
        v.len() > 0,
        v.page_count > 0,
        start <= end,
        (page & v.mask) + (end - start) < v.page_count,
        v.range_mapped(next, start, end, page),
        0 <= i <= end - start,
        end - start - v.len() < i,
        v.slot(addr) as int == v.range_slot(start, i),
    ensures
        next.translated(addr) == v.page_base(page) + i * v.window + (addr as int) % (v.window as int),
{
    lemma_pow2_pos(v.shift as nat);
    let p = (page & v.mask) + i;
    lemma_mul_inequality(p + 1, v.page_count as int, v.window as int);
    assert((p + 1) * v.window == p * v.window + v.window) by (nonlinear_arith);
    assert(p * v.window == v.page_base(page) + i * v.window) by (nonlinear_arith)
        requires
            p == (page & v.mask) + i,
            v.page_base(page) == (page & v.mask) * v.window,
    ;
    lemma_mod_multiples_basic(p, v.window as int);
    let b = (v.page_base(page) + i * v.window) as usize;
    assert(next.banks[v.range_slot(start, i)] == b);
    lemma_aligned_or(b, addr as usize, v.shift);
}

/// Mapping a page into one bank leaves the translation of addresses in every other
/// slot, and the access of every slot, as they were.
pub proof fn lemma_set_leaves_others(v: BanksView, bank: usize, page: usize, addr: u16)
    requires
        v.wf(),
        v.len() > 0,
        v.slot(addr) < v.len(),
    ensures
        v.slot(addr) as int != v.wrap(bank) ==> v.with_page(bank, page).translated(addr) == v.translated(addr),
        v.with_page(bank, page).is_readable(addr) == v.is_readable(addr),
        v.with_page(bank, page).is_writable(addr) == v.is_writable(addr),
{
}

/// The page read back from a bank is the page mapped into it, masked to the page
/// count; when the page count is a power of two, that is the page modulo the page count.
pub proof fn lemma_page_after_set(v: BanksView, bank: usize, page: usize)
    requires
        v.wf(),
        v.len() > 0,
        v.page_count > 0,
    ensures
        v.with_page(bank, page).banks[v.wrap(bank)] / v.window == page & v.mask,
        is_power_of_two(v.page_count) ==> page & v.mask == page % v.page_count,
{
    lemma_page_base(v, page);
    vstd::arithmetic::div_mod::lemma_mod_pos_bound(bank as int, v.len() as int);
    if is_power_of_two(v.page_count) {
        let k = choose|k: nat| k < usize::BITS && v.page_count == pow2(k);
        lemma_usize_low_bits_mask_is_mod(page, k);
    }
}

/// Giving a bank an access decides what its slot allows, and leaves every other slot,
/// and every translation, as they were.
pub proof fn lemma_access_after_set_access(v: BanksView, bank: usize, access: BankAccess, addr: u16)
    requires
        v.wf(),
        v.len() > 0,
        v.slot(addr) < v.len(),
    ensures
        v.slot(addr) as int == v.wrap(bank) ==> v.with_access(bank, access).is_readable(addr)
            == (access == BankAccess::Read || access == BankAccess::ReadWrite),
        v.slot(addr) as int == v.wrap(bank) ==> v.with_access(bank, access).is_writable(addr)
            == (access == BankAccess::ReadWrite),
        v.slot(addr) as int != v.wrap(bank) ==> v.with_access(bank, access).is_readable(addr) == v.is_readable(addr),
        v.slot(addr) as int != v.wrap(bank) ==> v.with_access(bank, access).is_writable(addr) == v.is_writable(addr),
        v.with_access(bank, access).translated(addr) == v.translated(addr),
{
}

/// A writable slot is readable.
pub proof fn lemma_writable_is_readable(v: BanksView, addr: u16)
    ensures
        v.is_writable(addr) ==> v.is_readable(addr),
{
}

/// When the mapped span is a whole number of windows, every address falls into a slot.
pub proof fn lemma_slot_in_range(v: BanksView, addr: u16)
    requires
        v.wf(),
        (v.size + 1) % (v.window as int) == 0,
    ensures
        v.slot(addr) < v.len(),
{
    lemma_pow2_pos(v.shift as nat);
    let x = (addr as usize) & v.size;
    lemma_and_le(addr as usize, v.size);
    lemma_usize_shr_is_div(x, v.shift);
    let q = (v.size + 1) / (v.window as int);
    lemma_fundamental_div_mod(v.size + 1, v.window as int);
    assert((x as int) / (v.window as int) < q) by (nonlinear_arith)
        requires
            x <= v.size,
            v.window > 0,
            v.size + 1 == v.window * q,
    {
        vstd::arithmetic::div_mod::lemma_div_is_ordered(x as int, v.size as int, v.window as int);
        lemma_div_multiples_vanish(q, v.window as int);
        vstd::arithmetic::div_mod::lemma_div_is_ordered(v.size as int, v.size + 1, v.window as int);
    }
}

/// Mapping a range of one bank is mapping that bank.
pub proof fn lemma_single_range_is_set(v: BanksView, next: BanksView, bank: usize, page: usize)
    requires
        v.wf(),
        v.len() > 0,
        v.range_mapped(next, bank, bank, page),
    ensures
        next == v.with_page(bank, page),
{
    let w = v.with_page(bank, page);
    assert(v.range_slot(bank, 0) == v.wrap(bank));
    assert forall|j: int| 0 <= j < v.len() implies next.banks[j] == w.banks[j] by {
        if j != v.wrap(bank) {
            assert(!v.range_hits(bank, bank, j));
        }
    }
    assert(next.banks =~= w.banks);
}

/// Giving a range of one bank an access is giving that bank the access.
pub proof fn lemma_single_access_range_is_set_access(v: BanksView, next: BanksView, bank: usize, access: BankAccess)
    requires
        v.wf(),
        v.len() > 0,
        v.range_access(next, bank, bank, access),
    ensures
        next == v.with_access(bank, access),
{
    let w = v.with_access(bank, access);
    assert(v.range_slot(bank, 0) == v.wrap(bank));
    assert forall|j: int| 0 <= j < v.len() implies next.access[j] == w.access[j] by {
        if j != v.wrap(bank) {
            assert(!v.range_hits(bank, bank, j));
        }
    }
    assert(next.access =~= w.access);
}

/// Every slot of a new set of banks can be read and written.
pub proof fn lemma_initial_access(v: BanksView, start: usize, end: usize, capacity: usize, window: usize, addr: u16)
    requires
        v.initial(start, end, capacity, window),
        v.slot(addr) < v.len(),
    ensures
        v.is_readable(addr),
        v.is_writable(addr),
{
}

/// The last bank of a range `0..=span` that selects the same slot as bank `i`: it lies
/// among the last `len` banks of the range.
proof fn lemma_last_same_slot(start: int, span: int, len: int, i: int) -> (last: int)
    requires
        0 <= start,
        0 <= i <= span,
        len > 0,
    ensures
        i <= last <= span,
        span - len < last,
        (start + last) % len == (start + i) % len,
{
    let q = (span - i) / len;
    lemma_fundamental_div_mod(span - i, len);
    vstd::arithmetic::div_mod::lemma_mod_pos_bound(span - i, len);
    vstd::arithmetic::div_mod::lemma_div_pos_is_pos(span - i, len);
    let last = i + len * q;
    vstd::arithmetic::div_mod::lemma_mod_multiples_vanish(q, start + i, len);
    assert(start + last == len * q + (start + i));
    assert(len * q >= 0) by (nonlinear_arith)
        requires
            len > 0,
            q >= 0,
    ;
    last
}

/// A new set of banks over a capacity that is a whole number of windows maps every
/// bank to a whole page inside the capacity.
pub proof fn lemma_initial_pages_aligned(v: BanksView, start: usize, end: usize, capacity: usize, window: usize)
    requires
        v.initial(start, end, capacity, window),
        capacity > 0,
        capacity % window == 0,
    ensures
        v.pages_aligned(),
        v.page_count * v.window == capacity,
{
    lemma_pow2_pos(v.shift as nat);
    let k = v.page_count as int;
    let w = window as int;
    let c = capacity as int;
    lemma_fundamental_div_mod(c, w);
    assert(k * w == c) by (nonlinear_arith)
        requires
            c == w * (c / w) + c % w,
            c % w == 0,
            k == c / w,
    ;
    assert(k > 0) by (nonlinear_arith)
        requires
            k * w == c,
            c > 0,
            w > 0,
    ;
    assert forall|i: int| 0 <= i < v.len() implies (#[trigger] v.banks[i] as int) % w == 0 && v.banks[i] < k * w by {
        lemma_fundamental_div_mod(i, k);
        vstd::arithmetic::div_mod::lemma_mod_pos_bound(i, k);
        let r = (i % k) * w;
        lemma_mul_strict_inequality(i % k, k, w);
        assert(i * w == (i / k) * (k * w) + r) by (nonlinear_arith)
            requires
                i == k * (i / k) + i % k,
                r == (i % k) * w,
        ;
        vstd::arithmetic::div_mod::lemma_fundamental_div_mod_converse(i * w, k * w, i / k, r);
        lemma_mod_multiples_basic(i % k, w);
    }
}

/// Mapping a page into a bank keeps every bank mapped to a whole page below the page count.
pub proof fn lemma_set_keeps_pages_aligned(v: BanksView, bank: usize, page: usize)
    requires
        v.wf(),
        v.len() > 0,
        v.page_count > 0,
        v.pages_aligned(),
    ensures
        v.with_page(bank, page).pages_aligned(),
{
    lemma_page_base(v, page);
}

/// Mapping a range of banks keeps every bank mapped to a whole page below the page count.
pub proof fn lemma_set_range_keeps_pages_aligned(v: BanksView, next: BanksView, start: usize, end: usize, page: usize)
    requires
        v.wf(),
        v.pages_aligned(),
        start <= end ==> v.len() > 0 && v.page_count > 0 && (page & v.mask) + (end - start) < v.page_count,
        v.range_mapped(next, start, end, page),
    ensures
        next.pages_aligned(),
{
    lemma_pow2_pos(v.shift as nat);
    let w = v.window as int;
    assert forall|j: int| 0 <= j < next.len() implies (#[trigger] next.banks[j] as int) % w == 0
        && next.banks[j] < v.page_count * v.window by {
        if v.range_hits(start, end, j) {
            let i0 = choose|i: int| 0 <= i <= end - start && #[trigger] v.range_slot(start, i) == j;
            let last = lemma_last_same_slot(start as int, end - start, v.len() as int, i0);
            assert(v.range_slot(start, last) == j);
            let p = (page & v.mask) + last;
            lemma_mul_strict_inequality(p, v.page_count as int, w);
            assert(p * w == v.page_base(page) + last * w) by (nonlinear_arith)
                requires
                    p == (page & v.mask) + last,
                    v.page_base(page) == (page & v.mask) * w,
            ;
            lemma_mod_multiples_basic(p, w);
        }
    }
}

/// Giving access, mapping pages and mapping ranges keep the layout; giving access keeps
/// every bank's page, and mapping keeps every slot's access.
pub proof fn lemma_mutations_keep_layout(
    v: BanksView,
    next: BanksView,
    bank: usize,
    page: usize,
    access: BankAccess,
    start: usize,
    end: usize,
)
    requires
        v.wf(),
    ensures
        v.len() > 0 ==> v.same_layout(v.with_page(bank, page)),
        v.with_page(bank, page).access == v.access,
        v.len() > 0 ==> v.same_layout(v.with_access(bank, access)),
        v.with_access(bank, access).banks == v.banks,
        v.range_mapped(next, start, end, page) ==> v.same_layout(next) && next.access == v.access,
        v.range_access(next, start, end, access) ==> v.same_layout(next) && next.banks == v.banks,
{
    if v.len() > 0 {
        vstd::arithmetic::div_mod::lemma_mod_pos_bound(bank as int, v.len() as int);
    }
}

/// In a state where every bank maps a whole page below the page count, an address
/// translates into the page mapped into its slot, at its own offset within the window,
/// below `page_count * window`; and every bank's offset is its page times the window,
/// its page at most the last page.
pub proof fn lemma_aligned_translation(v: BanksView, addr: u16, i: int)
    requires
        v.wf(),
        v.pages_aligned(),
        v.slot(addr) < v.len(),
        0 <= i < v.len(),
    ensures
        v.translated(addr) % v.window == (addr as usize) % v.window,
        v.translated(addr) / v.window == v.banks[v.slot(addr) as int] / v.window,
        v.translated(addr) < v.page_count * v.window,
        v.banks[i] == (v.banks[i] / v.window) * v.window,
        v.banks[i] / v.window <= saturating_dec(v.page_count),
{
    lemma_pow2_pos(v.shift as nat);
    let w = v.window as int;
    let b = v.banks[v.slot(addr) as int];
    assert((b as int) % w == 0 && b < v.page_count * w);
    lemma_aligned_or(b, addr as usize, v.shift);
    let r = (addr as int) % w;
    vstd::arithmetic::div_mod::lemma_mod_pos_bound(addr as int, w);
    lemma_fundamental_div_mod(b as int, w);
    let q = (b as int) / w;
    assert(v.translated(addr) == q * w + r) by (nonlinear_arith)
        requires
            v.translated(addr) == b + r,
            b == w * q + 0,
    ;
    vstd::arithmetic::div_mod::lemma_fundamental_div_mod_converse(v.translated(addr) as int, w, q, r);
    assert(q < v.page_count) by (nonlinear_arith)
        requires
            b == w * q,
            b < v.page_count * w,
            w > 0,
    ;
    lemma_mul_inequality(q + 1, v.page_count as int, w);
    assert((q + 1) * w == q * w + w) by (nonlinear_arith);
    let bi = v.banks[i];
    assert((bi as int) % w == 0 && bi < v.page_count * w);
    lemma_fundamental_div_mod(bi as int, w);
    let qi = (bi as int) / w;
    assert(qi < v.page_count) by (nonlinear_arith)
        requires
            bi == w * qi + 0,
            bi < v.page_count * w,
            w > 0,
    ;
    assert(bi == qi * w) by (nonlinear_arith)
        requires
            bi == w * qi + 0,
    ;
}

/// Over any number of calls of `set`, `set_range`, `set_access` and
/// `set_access_range` that do not panic, the layout stays that of the first state, and a
/// state where every bank maps a whole page below the page count stays so.
pub proof fn lemma_mutations_along(states: Seq<BanksView>)
    requires
        states.len() >= 1,
        states[0].wf(),
        forall|k: int| 0 <= k < states.len() - 1 ==> #[trigger] states[k].mutation_step(states[k + 1]),
    ensures
        forall|k: int| #![trigger states[k]] 0 <= k < states.len() ==> states[k].wf() && states[0].same_layout(states[k]),
        states[0].pages_aligned() ==> forall|k: int| #![trigger states[k]] 0 <= k < states.len() ==> states[k].pages_aligned(),
    decreases states.len(),
{
    if states.len() > 1 {
        let init = states.drop_last();
        assert forall|k: int| 0 <= k < init.len() - 1 implies #[trigger] init[k].mutation_step(init[k + 1]) by {
            assert(states[k].mutation_step(states[k + 1]));
        }
        lemma_mutations_along(init);
        let n = states.len() - 1;
        let a = states[n - 1];
        let b = states[n];
        assert(init[n - 1] == a);
        assert(init[0] == states[0]);
        assert(init[n - 1].wf() && init[0].same_layout(init[n - 1]));
        assert(states[n - 1].mutation_step(states[n - 1 + 1]));
        if exists|bank: usize, page: usize| a.len() > 0 && a.page_count > 0 && b == #[trigger] a.with_page(bank, page) {
            let (bank, page) = choose|bank: usize, page: usize|
                a.len() > 0 && a.page_count > 0 && b == #[trigger] a.with_page(bank, page);
            lemma_mutations_keep_layout(a, b, bank, page, BankAccess::NoAccess, 0, 0);
            if states[0].pages_aligned() {
                assert(init[n - 1].pages_aligned());
                lemma_set_keeps_pages_aligned(a, bank, page);
            }
        } else if exists|bank: usize, access: BankAccess| a.len() > 0 && b == #[trigger] a.with_access(bank, access) {
            let (bank, access) = choose|bank: usize, access: BankAccess|
                a.len() > 0 && b == #[trigger] a.with_access(bank, access);
            lemma_mutations_keep_layout(a, b, bank, 0, access, 0, 0);
        } else if exists|start: usize, end: usize, page: usize|
            (start <= end ==> a.len() > 0 && a.page_count > 0 && (page & a.mask) + (end - start) < a.page_count)
                && #[trigger] a.range_mapped(b, start, end, page) {
            let (start, end, page) = choose|start: usize, end: usize, page: usize|
                (start <= end ==> a.len() > 0 && a.page_count > 0 && (page & a.mask) + (end - start) < a.page_count)
                    && #[trigger] a.range_mapped(b, start, end, page);
            lemma_mutations_keep_layout(a, b, 0, page, BankAccess::NoAccess, start, end);
            if states[0].pages_aligned() {
                assert(init[n - 1].pages_aligned());
                lemma_set_range_keeps_pages_aligned(a, b, start, end, page);
            }
        } else {
            let (start, end, access) = choose|start: usize, end: usize, access: BankAccess|
                (start <= end ==> a.len() > 0) && #[trigger] a.range_access(b, start, end, access);
            lemma_mutations_keep_layout(a, b, 0, 0, access, start, end);
        }
        assert(b.wf());
        assert(states[0].same_layout(b));
        assert forall|k: int| #![trigger states[k]] 0 <= k < states.len() implies states[k].wf() && states[0].same_layout(states[k]) by {
            if k < n {
                assert(init[k] == states[k]);
            }
        }
        if states[0].pages_aligned() {
            assert forall|k: int| #![trigger states[k]] 0 <= k < states.len() implies states[k].pages_aligned() by {
                if k < n {
                    assert(init[k] == states[k]);
                }
            }
        }
    }
}

/// One call leaves the access of a slot alone unless it gives that slot an access, and
/// then the slot has that access.
pub proof fn lemma_step_access(a: BanksView, b: BanksView, j: int, access: BankAccess)
    requires
        a.wf(),
        a.mutation_step(b),
        0 <= j < a.len(),
    ensures
        a.gives_access(b, j, access) ==> b.access[j] == access,
        (forall|given: BankAccess| !#[trigger] a.gives_access(b, j, given)) ==> b.access[j] == a.access[j],
{
    if a.gives_access(b, j, access) {
        if exists|bank: usize| a.len() > 0 && b == #[trigger] a.with_access(bank, access) && a.wrap(bank) == j {
        } else {
            let (start, end) = choose|start: usize, end: usize|
                (start <= end ==> a.len() > 0) && #[trigger] a.range_access(b, start, end, access)
                    && a.range_hits(start, end, j);
            let i = choose|i: int| 0 <= i <= end - start && #[trigger] a.range_slot(start, i) == j;
        }
    }
    if forall|given: BankAccess| !#[trigger] a.gives_access(b, j, given) {
        if exists|bank: usize, page: usize| a.len() > 0 && a.page_count > 0 && b == #[trigger] a.with_page(bank, page) {
        } else if exists|bank: usize, given: BankAccess| a.len() > 0 && b == #[trigger] a.with_access(bank, given) {
            let (bank, given) = choose|bank: usize, given: BankAccess| a.len() > 0 && b == #[trigger] a.with_access(bank, given);
            assert(!a.gives_access(b, j, given));
            vstd::arithmetic::div_mod::lemma_mod_pos_bound(bank as int, a.len() as int);
        } else if exists|start: usize, end: usize, page: usize|
            (start <= end ==> a.len() > 0 && a.page_count > 0 && (page & a.mask) + (end - start) < a.page_count)
                && #[trigger] a.range_mapped(b, start, end, page) {
        } else {
            let (start, end, given) = choose|start: usize, end: usize, given: BankAccess|
                (start <= end ==> a.len() > 0) && #[trigger] a.range_access(b, start, end, given);
            assert(!a.gives_access(b, j, given));
        }
    }
}

/// Over any number of calls, the access of a slot is the access that the last call
/// giving that slot an access gave it: from the state `states[k]` on, if no call gives
/// slot `j` an access, the slot keeps the access it has in `states[k]` (for the state
/// that `Banks::new` makes, read and write).
pub proof fn lemma_access_along(states: Seq<BanksView>, j: int, k: int)
    requires
        states.len() >= 1,
        states[0].wf(),
        forall|m: int| 0 <= m < states.len() - 1 ==> #[trigger] states[m].mutation_step(states[m + 1]),
        0 <= j < states[0].len(),
        0 <= k < states.len(),
        forall|m: int, given: BankAccess|
            k <= m < states.len() - 1 ==> !#[trigger] states[m].gives_access(states[m + 1], j, given),
    ensures
        states.last().access[j] == states[k].access[j],
    decreases states.len(),
{
    if states.len() - 1 > k {
        let init = states.drop_last();
        let n = states.len() - 1;
        assert forall|m: int| 0 <= m < init.len() - 1 implies #[trigger] init[m].mutation_step(init[m + 1]) by {
            assert(states[m].mutation_step(states[m + 1]));
        }
        assert forall|m: int, given: BankAccess|
            k <= m < init.len() - 1 implies !#[trigger] init[m].gives_access(init[m + 1], j, given) by {
            assert(!states[m].gives_access(states[m + 1], j, given));
        }
        lemma_access_along(init, j, k);
        lemma_mutations_along(states);
        assert(states[n - 1].wf() && states[0].same_layout(states[n - 1]));
        assert(states[n - 1].mutation_step(states[n - 1 + 1]));
        assert forall|given: BankAccess| !#[trigger] states[n - 1].gives_access(states[n], j, given) by {
            assert(!states[n - 1].gives_access(states[n - 1 + 1], j, given));
        }
        lemma_step_access(states[n - 1], states[n], j, BankAccess::NoAccess);
        assert(init.last() == states[n - 1]);
        assert(init[k] == states[k]);
    }
}

impl Banks {
    /// The fields of these banks, as plain values.
    pub fn to_parts(&self) -> (r: BanksParts)
        ensures
            r@ == self@,
    {
        let banks = self.banks.clone();
        let access = self.access.clone();
        proof {
            assert(banks@ =~= self.banks@);
            assert(access@ =~= self.access@);
        }
        BanksParts {
            start: self.start,
            end: self.end,
            size: self.size,
            window: self.window,
            shift: self.shift,
            mask: self.mask,
            banks,
            access,
            page_count: self.page_count,
        }
    }

    /// Banks with the given fields, if they are those of a set of banks: a non-empty
    /// range, a power-of-two window of `2^shift` bytes, a mask one below the page count
    /// (or 0), and one page offset and one access for each window of the range.
    pub fn from_parts(parts: BanksParts) -> (r: Option<Banks>)
        ensures
            r is Some <==> parts@.wf(),
            r matches Some(b) ==> b@ == parts@,
    {
        let BanksParts { start, end, size, window, shift, mask, banks, access, page_count } = parts;
        if start > end || size != end - start || size == 0 || size == usize::MAX {
            return None;
        }
        if shift >= usize::BITS as usize {
            return None;
        }
        proof {
            lemma_usize_pow2_no_overflow(shift as nat);
            lemma_usize_shl_is_mul(1, shift);
        }
        if window != (1usize << shift) {
            return None;
        }
        if page_count.checked_mul(window).is_none() {
            return None;
        }
        let expected_mask = if page_count == 0 { 0 } else { page_count - 1 };
        if mask != expected_mask {
            return None;
        }
        proof {
            lemma_pow2_pos(shift as nat);
        }
        if banks.len() != access.len() || banks.len() != (size + 1) / window {
            return None;
        }
        Some(Banks { start, end, size, window, shift, mask, banks, access, page_count })
    }
}
} // verus!
