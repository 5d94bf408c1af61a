use tetanes::mem::access::{Read, Write};
use tetanes::mem::const_slice::ConstSlice;
use tetanes::mem::memory::{Memory, Reset, ResetKind};
use tetanes::mem::ram_state::RamState;

#[test]
fn ram_state_names() {
    assert_eq!(RamState::AllZeros.as_str(), "all-zeros");
    assert_eq!(RamState::AllOnes.as_str(), "all-ones");
    assert_eq!(RamState::Random.as_str(), "random");
    assert_eq!(RamState::AllZeros.label(), "All $00");
    assert_eq!(RamState::AllOnes.label(), "All $FF");
    assert_eq!(RamState::Random.label(), "Random");
}

#[test]
fn ram_state_parse_round_trips() {
    for state in RamState::as_slice() {
        assert_eq!(state.as_str().parse::<RamState>(), Ok(*state));
    }
    assert_eq!(
        "ones".parse::<RamState>(),
        Err("invalid RamState value. valid options: `all-zeros`, `all-ones`, or `random`")
    );
    assert_eq!(RamState::parse("all-zeros "), Err("invalid RamState value. valid options: `all-zeros`, `all-ones`, or `random`"));
}

#[test]
fn ram_state_from_index() {
    assert_eq!(RamState::from(0usize), RamState::AllZeros);
    assert_eq!(RamState::from(1usize), RamState::AllOnes);
    assert_eq!(RamState::from(2usize), RamState::Random);
    assert_eq!(RamState::from(99usize), RamState::Random);
    assert_eq!(RamState::as_slice(), &[RamState::AllZeros, RamState::AllOnes, RamState::Random]);
    assert_eq!(RamState::default(), RamState::AllZeros);
}

#[test]
fn fill_constant_states() {
    let mut data = [1u8, 2, 3, 4];
    RamState::AllZeros.fill(&mut data);
    assert_eq!(data, [0, 0, 0, 0]);
    RamState::AllOnes.fill(&mut data);
    assert_eq!(data, [0xFF, 0xFF, 0xFF, 0xFF]);
}

#[test]
fn fill_random_overwrites() {
    let mut data = [0u8; 64];
    RamState::Random.fill(&mut data);
    assert!(data.iter().any(|&b| b != 0));
}

#[test]
fn rom_and_ram() {
    let rom = Memory::rom();
    assert!(!rom.is_ram());
    assert_eq!(rom.len(), 0);
    let ram = Memory::ram(RamState::AllOnes);
    assert!(ram.is_ram());
    assert_eq!(ram.ram_state(), RamState::AllOnes);
    let m: Memory<Vec<u8>> = Memory::new();
    assert!(!m.is_ram());
    assert_eq!(m.ram_state(), RamState::AllZeros);
}

#[test]
fn with_size_fills() {
    let ram = Memory::ram(RamState::AllOnes).with_size(16);
    assert_eq!(ram.len(), 16);
    assert!(ram.iter().all(|&b| b == 0xFF));
    let rom = Memory::rom().with_size(8);
    assert_eq!(&rom[..], &[0u8; 8]);
}

#[test]
fn resize_and_set_ram() {
    let mut m = Memory::rom();
    m.set_ram(RamState::AllOnes);
    assert!(m.is_ram());
    m.resize(4);
    assert_eq!(m.as_ref(), &[0xFFu8; 4]);
    m.resize(2);
    assert_eq!(m.as_ref(), &[0xFFu8; 2]);
    let m = m.with_ram_state(RamState::AllZeros);
    assert_eq!(m.as_ref(), &[0u8; 2]);
    assert_eq!(m.ram_state(), RamState::AllZeros);
}

#[test]
fn reset_refills_ram_only_on_hard_reset() {
    let mut ram = Memory::ram(RamState::AllZeros).with_size(4);
    ram.as_mut()[0] = 7;
    ram.reset(ResetKind::Soft);
    assert_eq!(ram.as_ref(), &[7u8, 0, 0, 0]);
    ram.reset(ResetKind::Hard);
    assert_eq!(ram.as_ref(), &[0u8; 4]);

    let mut rom = Memory::from(vec![1u8, 2, 3]);
    assert!(!rom.is_ram());
    rom.reset(ResetKind::Hard);
    assert_eq!(rom.as_ref(), &[1u8, 2, 3]);
}

#[test]
fn const_memory() {
    let mut ram: Memory<ConstSlice<u8, 8>> = Memory::ram_const(RamState::AllOnes);
    assert!(ram.is_ram());
    assert_eq!(ram.as_ref(), &[0u8; 8]);
    ram.reset(ResetKind::Hard);
    assert_eq!(ram.as_ref(), &[0xFFu8; 8]);
    let rom: Memory<ConstSlice<u8, 4>> = Memory::rom_const();
    assert!(!rom.is_ram());
    assert_eq!(rom.as_ref(), &[0u8; 4]);
}

#[test]
fn const_slice_index_wraps() {
    let slice = ConstSlice::from([10u8, 11, 12, 13]);
    assert_eq!(slice[1], 11);
    assert_eq!(slice[5], 11);
    assert_eq!(slice[7], 13);
    let mut slice = ConstSlice::<u8, 4>::filled(3);
    *slice.index_mut(6) = 9;
    assert_eq!(*slice, [3, 3, 9, 3]);
    let slice: ConstSlice<u16, 2> = ConstSlice::new();
    assert_eq!(slice.as_ref(), &[0u16, 0]);
}

struct Bus {
    cells: [u8; 4],
    reads: usize,
}

impl Read for Bus {
    fn peek(&self, addr: u16) -> u8 {
        self.cells[addr as usize % 4]
    }
}

impl Write for Bus {
    fn write(&mut self, addr: u16, val: u8) {
        self.cells[addr as usize % 4] = val;
    }
}

#[test]
fn read_and_peek_words() {
    let mut bus = Bus { cells: [0x34, 0x12, 0, 0xAB], reads: 0 };
    assert_eq!(bus.peek_u16(0), 0x1234);
    assert_eq!(bus.read_u16(0), 0x1234);
    assert_eq!(bus.read(3), 0xAB);
    assert_eq!(bus.peek_u16(0xFFFF), 0x34AB);
    assert_eq!(bus.reads, 0);
}

#[test]
fn write_u16_writes_low_then_high_byte() {
    let mut bus = Bus { cells: [0; 4], reads: 0 };
    bus.write_u16(1, 0xBEEF);
    assert_eq!(bus.cells, [0, 0xEF, 0xBE, 0]);
    assert_eq!(bus.peek_u16(1), 0xBEEF);
    bus.write_u16(0xFFFF, 0x1234);
    assert_eq!(bus.peek_u16(0xFFFF), 0x1234);
}

#[test]
fn clone_keeps_memory() {
    let ram = Memory::ram(RamState::AllOnes).with_size(3);
    let copy = ram.clone();
    assert!(copy.is_ram());
    assert_eq!(copy.ram_state(), RamState::AllOnes);
    assert_eq!(copy.as_ref(), &[0xFFu8; 3]);
}

#[test]
fn from_data_is_zero_state_rom() {
    let m = Memory::from(vec![1u8, 2, 3]).with_size(5);
    assert!(!m.is_ram());
    assert_eq!(m.as_ref(), &[0u8; 5]);
    let r: Memory<ConstSlice<u8, 4>> = Memory::ram_const(RamState::AllOnes);
    assert_eq!(*r, [0u8; 4]);
}

#[test]
fn memory_parts_round_trip() {
    let m = Memory::from_parts(RamState::Random, true, vec![5u8, 6]);
    assert!(m.is_ram());
    assert_eq!(m.ram_state(), RamState::Random);
    assert_eq!(m.data(), &vec![5u8, 6]);
}

#[test]
fn random_fill_keeps_length() {
    let mut data = vec![0u8; 17];
    RamState::Random.fill(&mut data);
    assert_eq!(data.len(), 17);
}
