//! The state RAM holds on startup.

use rand::TryRngCore;
use vstd::prelude::*;
use crate::text::str_eq;

verus! {

/// RAM in a given state on startup.
#[derive(Debug, Copy, Clone, PartialEq, Eq, Structural)]
pub enum RamState {
    AllZeros,
    AllOnes,
    Random,
}

impl Default for RamState {
    fn default() -> (s: Self)
        ensures
            s == RamState::AllZeros,
    {
        RamState::AllZeros
    }
}

/// The byte that a deterministic state writes into every cell, if any.
pub open spec fn fill_byte(state: RamState) -> Option<u8> {
    match state {
        RamState::AllZeros => Some(0x00u8),
        RamState::AllOnes => Some(0xFFu8),
        RamState::Random => None,
    }
}

/// Whether every byte of `data` is the fill byte of a deterministic state (any
/// contents meet a random state).
pub open spec fn holds_fill(state: RamState, data: Seq<u8>) -> bool {
    match fill_byte(state) {
        Some(b) => forall|i: int| 0 <= i < data.len() ==> data[i] == b,
        None => true,
    }
}

/// What `fill` leaves in memory that held `before`: the same length, filled by `state`.
pub open spec fn filled_by(state: RamState, before: Seq<u8>, after: Seq<u8>) -> bool {
    &&& after.len() == before.len()
    &&& holds_fill(state, after)
}

/// The state that a numeric option selects.
pub open spec fn state_from_index(value: usize) -> RamState {
    if value == 0 {
        RamState::AllZeros
    } else if value == 1 {
        RamState::AllOnes
    } else {
        RamState::Random
    }
}

/// The name of a state, as `as_str` gives it.
pub open spec fn state_name(state: RamState) -> Seq<char> {
    match state {
        RamState::AllZeros => "all-zeros"@,
        RamState::AllOnes => "all-ones"@,
        RamState::Random => "random"@,
    }
}

/// The state that a name names, if any.
pub open spec fn state_named(name: Seq<char>) -> Option<RamState> {
    if name == "all-zeros"@ {
        Some(RamState::AllZeros)
    } else if name == "all-ones"@ {
        Some(RamState::AllOnes)
    } else if name == "random"@ {
        Some(RamState::Random)
    } else {
        None
    }
}

/// Parsing the name of a state gives the state back.
pub proof fn lemma_parse_name(state: RamState)
    ensures
        state_named(state_name(state)) == Some(state),
{
    reveal_strlit("all-zeros");
    reveal_strlit("all-ones");
    reveal_strlit("random");
    assert("all-zeros"@.len() == 9 && "all-ones"@.len() == 8 && "random"@.len() == 6);
}

/// The numeric option of a state is its position in `RamState::as_slice()`.
pub proof fn lemma_index_matches_slice(i: usize)
    requires
        i < 3,
    ensures
        state_from_index(i) == seq![RamState::AllZeros, RamState::AllOnes, RamState::Random][i as int],
{
}

/// Calls `TryRngCore::try_fill_bytes` on `rand::rngs::OsRng` to fill a fresh buffer of
/// `len` bytes from the operating system's generator, and gives the buffer back if the
/// generator could fill it, `None` if it reported a failure; it does not panic. What the
/// bytes are rests on chance, so only their number is stated.
#[verifier::external_body]
fn try_fill_random(len: usize) -> (r: Option<Vec<u8>>)
    ensures
        r matches Some(bytes) ==> bytes@.len() == len,
{
    let mut bytes = vec![0u8; len];
    match rand::rngs::OsRng.try_fill_bytes(&mut bytes) {
        Ok(()) => Some(bytes),
        Err(_) => None,
    }
}

/// Whether `drawn` is what one draw of `len` bytes from the operating system's
/// generator gave: the bytes it produced, or `None` where it reported a failure.
pub closed spec fn drawn_from_generator(len: usize, drawn: Option<Vec<u8>>) -> bool {
    call_ensures(try_fill_random, (len,), drawn)
}

/// Whether `data` is what filling `len` bytes by `state` gives: `len` bytes of `$00`
/// or of `$FF` for the deterministic states; for the random state, the bytes one draw
/// from the operating system's generator produced, or `len` bytes of `$00` where the
/// generator reported a failure.
pub open spec fn is_fill_of(state: RamState, len: nat, data: Seq<u8>) -> bool {
    &&& data.len() == len
    &&& match state {
        RamState::AllZeros => forall|i: int| 0 <= i < len ==> data[i] == 0x00u8,
        RamState::AllOnes => forall|i: int| 0 <= i < len ==> data[i] == 0xFFu8,
        RamState::Random => exists|drawn: Option<Vec<u8>>|
            #[trigger] drawn_from_generator(len as usize, drawn) && match drawn {
                Some(bytes) => data == bytes@,
                None => forall|i: int| 0 <= i < len ==> data[i] == 0x00u8,
            },
    }
}

/// A deterministic state fills memory of a given length in one way only: every byte is
/// the state's fill byte, whatever the memory held before.
pub proof fn lemma_constant_fill_unique(state: RamState, len: nat, a: Seq<u8>, b: Seq<u8>)
    requires
        state != RamState::Random,
        is_fill_of(state, len, a),
        is_fill_of(state, len, b),
    ensures
        a == b,
        fill_byte(state) matches Some(byte) && a == Seq::new(len, |i: int| byte),
{
    let byte = fill_byte(state)->0;
    assert(a =~= Seq::new(len, |i: int| byte));
    assert(b =~= Seq::new(len, |i: int| byte));
}

/// A draw from the operating system's generator that succeeded gave exactly as many
/// bytes as were asked for, so a random fill leaves every byte of the memory drawn.
pub proof fn lemma_drawn_length(len: usize, drawn: Option<Vec<u8>>)
    requires
        drawn_from_generator(len, drawn),
    ensures
        drawn matches Some(bytes) ==> bytes@.len() == len,
{
}

/// Every fill is of the memory's length and holds the state's fill byte where the state
/// has one.
pub proof fn lemma_fill_is_filled_by(state: RamState, before: Seq<u8>, after: Seq<u8>)
    requires
        is_fill_of(state, before.len(), after),
    ensures
        filled_by(state, before, after),
{
}

/// Copies `bytes` over `data`, which has as many bytes.
fn copy_bytes(data: &mut [u8], bytes: &Vec<u8>)
    requires
        old(data)@.len() == bytes@.len(),
    ensures
        final(data)@ == bytes@,
{
    let n = data.len();
    let mut i: usize = 0;
    while i < n
        invariant
            n == data@.len(),
            n == bytes@.len(),
            i <= n,
            forall|j: int| 0 <= j < i ==> data@[j] == bytes@[j],
        decreases n - i,
    {
        data[i] = bytes[i];
        i = i + 1;
    }
    assert(data@ =~= bytes@);
}

/// Sets every byte of `data` to `b`.
fn fill_constant(data: &mut [u8], b: u8)
    ensures
        final(data)@.len() == old(data)@.len(),
        forall|i: int| 0 <= i < final(data)@.len() ==> final(data)@[i] == b,
{
    let n = data.len();
    let mut i: usize = 0;
    while i < n
        invariant
            n == data@.len(),
            n == old(data)@.len(),
            i <= n,
            forall|j: int| 0 <= j < i ==> data@[j] == b,
        decreases n - i,
    {
        data[i] = b;
        i = i + 1;
    }
}

impl RamState {
    /// Return `RamState` options as a slice.
    pub fn as_slice() -> (r: &'static [RamState])
        ensures
            r@ == seq![RamState::AllZeros, RamState::AllOnes, RamState::Random],
    {
        &[RamState::AllZeros, RamState::AllOnes, RamState::Random]
    }

    /// Return `RamState` as a `str`.
    pub fn as_str(&self) -> (r: &'static str)
        ensures
            r@ == state_name(*self),
    {
        match self {
            RamState::AllZeros => "all-zeros",
            RamState::AllOnes => "all-ones",
            RamState::Random => "random",
        }
    }

    /// The human readable label of the state, as shown to users.
    pub fn label(&self) -> (r: &'static str)
        ensures
            *self == RamState::AllZeros ==> r@ == "All $00"@,
            *self == RamState::AllOnes ==> r@ == "All $FF"@,
            *self == RamState::Random ==> r@ == "Random"@,
    {
        match self {
            RamState::AllZeros => "All $00",
            RamState::AllOnes => "All $FF",
            RamState::Random => "Random",
        }
    }

    /// Fills data slice based on `RamState`: all `$00`, all `$FF`, or random bytes from
    /// the operating system's generator. Where that generator cannot be read, the
    /// random state zeroes the data instead.
    pub fn fill(&self, data: &mut [u8])
        ensures
            filled_by(*self, old(data)@, final(data)@),
            is_fill_of(*self, old(data)@.len(), final(data)@),
    {
        match self {
            RamState::AllZeros => fill_constant(data, 0x00),
            RamState::AllOnes => fill_constant(data, 0xFF),
            RamState::Random => {
                let drawn = try_fill_random(data.len());
                assert(drawn_from_generator(data@.len() as usize, drawn));
                match drawn {
                    Some(bytes) => copy_bytes(data, &bytes),
                    None => fill_constant(data, 0x00),
                }
            },
        }
    }

    /// Parses the name that `as_str` gives back into a state.
    pub fn parse(s: &str) -> (r: Result<RamState, &'static str>)
        ensures
            match state_named(s@) {
                Some(state) => r == Ok::<RamState, &'static str>(state),
                None => r is Err && r->Err_0@
                    == "invalid RamState value. valid options: `all-zeros`, `all-ones`, or `random`"@,
            },
    {
        proof {
            reveal_strlit("all-zeros");
            reveal_strlit("all-ones");
            reveal_strlit("random");
            assert("all-zeros"@.len() == 9 && "all-ones"@.len() == 8 && "random"@.len() == 6);
        }
        if str_eq(s, "all-zeros") {
            Ok(RamState::AllZeros)
        } else if str_eq(s, "all-ones") {
            Ok(RamState::AllOnes)
        } else if str_eq(s, "random") {
            Ok(RamState::Random)
        } else {
            Err("invalid RamState value. valid options: `all-zeros`, `all-ones`, or `random`")
        }
    }
}

impl From<usize> for RamState {
    fn from(value: usize) -> (s: Self) {
        match value {
            0 => RamState::AllZeros,
            1 => RamState::AllOnes,
            _ => RamState::Random,
        }
    }
}

impl vstd::std_specs::convert::FromSpecImpl<usize> for RamState {
    open spec fn obeys_from_spec() -> bool {
        true
    }

    open spec fn from_spec(v: usize) -> RamState {
        state_from_index(v)
    }
}

impl std::str::FromStr for RamState {
    type Err = &'static str;

    fn from_str(s: &str) -> (r: Result<Self, Self::Err>)
        ensures
            match state_named(s@) {
                Some(state) => r == Ok::<RamState, &'static str>(state),
                None => r is Err && r->Err_0@
                    == "invalid RamState value. valid options: `all-zeros`, `all-ones`, or `random`"@,
            },
    {
        RamState::parse(s)
    }
}

} // verus!
