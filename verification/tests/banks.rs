use std::num::NonZeroUsize;
use tetanes::mem::banks::{BankAccess, Banks, Error};

fn banks_8k() -> Banks {
    Banks::new(0x8000, 0xFFFF, 128 * 1024, NonZeroUsize::new(0x2000).unwrap().get()).unwrap()
}

#[test]
fn get_bank() {
    let banks = Banks::new(
        0x8000,
        0xFFFF,
        128 * 1024,
        NonZeroUsize::new(0x4000).unwrap().get(),
    )
    .unwrap();
    assert_eq!(banks.get(0x8000), 0);
    assert_eq!(banks.get(0x9FFF), 0);
    assert_eq!(banks.get(0xA000), 0);
    assert_eq!(banks.get(0xBFFF), 0);
    assert_eq!(banks.get(0xC000), 1);
    assert_eq!(banks.get(0xDFFF), 1);
    assert_eq!(banks.get(0xE000), 1);
    assert_eq!(banks.get(0xFFFF), 1);
}

#[test]
fn bank_translate() {
    let mut banks = Banks::new(
        0x8000,
        0xFFFF,
        128 * 1024,
        NonZeroUsize::new(0x2000).unwrap().get(),
    )
    .unwrap();

    let last_bank = banks.last();
    assert_eq!(last_bank, 15, "bank count");

    assert_eq!(banks.translate(0x8000), 0x0000);
    banks.set(0, 1);
    assert_eq!(banks.translate(0x8000), 0x2000);
    banks.set(0, 2);
    assert_eq!(banks.translate(0x8000), 0x4000);
    banks.set(0, 0);
    assert_eq!(banks.translate(0x8000), 0x0000);
    banks.set(0, banks.last());
    assert_eq!(banks.translate(0x8000), 0x1E000);
}

#[test]
fn new_rejects_zero_window() {
    assert!(matches!(Banks::new(0x8000, 0xFFFF, 0x8000, 0), Err(Error::InvalidWindow)));
}

#[test]
fn new_rejects_window_not_power_of_two() {
    assert!(matches!(Banks::new(0x8000, 0xFFFF, 0x8000, 0x3000), Err(Error::InvalidWindow)));
}

#[test]
fn new_rejects_empty_range() {
    assert!(matches!(Banks::new(0x6000, 0x6000, 0x2000, 0x2000), Err(Error::InvalidSize)));
}

#[test]
fn error_messages() {
    assert_eq!(Error::InvalidWindow.message(), "bank `window` must a non-zero power of two");
    assert_eq!(Error::InvalidSize.message(), "bank `size` must be non-zero");
}

#[test]
fn new_maps_banks_to_consecutive_windows_modulo_capacity() {
    let banks = Banks::new(0x8000, 0xFFFF, 0x4000, 0x2000).unwrap();
    assert_eq!(banks.banks_len(), 4);
    assert_eq!(banks.page_offset(0), 0x0000);
    assert_eq!(banks.page_offset(1), 0x2000);
    assert_eq!(banks.page_offset(2), 0x0000);
    assert_eq!(banks.page_offset(3), 0x2000);
    assert_eq!(banks.page_count(), 2);
    assert_eq!(banks.last(), 1);
}

#[test]
fn new_banks_are_read_write() {
    let banks = banks_8k();
    for addr in [0x8000u16, 0xA000, 0xC000, 0xFFFF] {
        assert!(banks.readable(addr));
        assert!(banks.writable(addr));
    }
}

#[test]
fn last_of_no_pages_is_zero() {
    let banks = Banks::new(0x8000, 0xFFFF, 0x1000, 0x2000).unwrap();
    assert_eq!(banks.page_count(), 0);
    assert_eq!(banks.last(), 0);
}

#[test]
fn set_wraps_bank_number() {
    let mut banks = banks_8k();
    banks.set(5, 3);
    assert_eq!(banks.page(1), 3);
    assert_eq!(banks.translate(0xA000), 0x6000);
}

#[test]
fn set_masks_page_number() {
    let mut banks = banks_8k();
    banks.set(2, 17);
    assert_eq!(banks.page(2), 1);
    assert_eq!(banks.page_offset(2), 0x2000);
}

#[test]
fn translate_keeps_offset_within_window() {
    let mut banks = banks_8k();
    banks.set(1, 7);
    assert_eq!(banks.translate(0xA123), 7 * 0x2000 + 0x123);
    assert_eq!(banks.translate(0xBFFF), 7 * 0x2000 + 0x1FFF);
    assert_eq!(banks.translate(0x8123), 0x0123);
}

#[test]
fn set_range_maps_consecutive_pages() {
    let mut banks = banks_8k();
    banks.set_range(0, 3, 4);
    assert_eq!(banks.page(0), 4);
    assert_eq!(banks.page(1), 5);
    assert_eq!(banks.page(2), 6);
    assert_eq!(banks.page(3), 7);
}

#[test]
fn set_range_later_banks_win() {
    let mut banks = banks_8k();
    banks.set_range(2, 7, 0);
    assert_eq!(banks.page(2), 4);
    assert_eq!(banks.page(3), 5);
    assert_eq!(banks.page(0), 2);
    assert_eq!(banks.page(1), 3);
}

#[test]
fn set_range_empty_changes_nothing() {
    let mut banks = banks_8k();
    banks.set_range(3, 2, 9);
    assert_eq!(banks.page(2), 2);
    assert_eq!(banks.page(3), 3);
}

#[test]
fn set_access_controls_reads_and_writes() {
    let mut banks = banks_8k();
    banks.set_access(1, BankAccess::Read);
    assert!(banks.readable(0xA000));
    assert!(!banks.writable(0xA000));
    banks.set_access(5, BankAccess::NoAccess);
    assert!(!banks.readable(0xA000));
    assert!(!banks.writable(0xA000));
    assert!(banks.writable(0x8000));
}

#[test]
fn set_access_range_covers_range() {
    let mut banks = banks_8k();
    banks.set_access_range(1, 2, BankAccess::Read);
    assert!(banks.writable(0x8000));
    assert!(!banks.writable(0xA000));
    assert!(!banks.writable(0xC000));
    assert!(banks.readable(0xC000));
    assert!(banks.writable(0xE000));
}

#[test]
fn clone_keeps_mapping() {
    let mut banks = banks_8k();
    banks.set(3, 9);
    let copy = banks.clone();
    assert_eq!(copy.page(3), 9);
    assert_eq!(copy.translate(0xE001), 9 * 0x2000 + 1);
}

#[test]
fn pages_stay_whole_after_mutations() {
    let mut banks = banks_8k();
    banks.set(1, 21);
    banks.set_range(2, 4, 13);
    banks.set_access_range(0, 1, BankAccess::Read);
    for bank in 0..banks.banks_len() {
        assert!(banks.page(bank) <= banks.last());
        assert_eq!(banks.page_offset(bank), banks.page(bank) * 0x2000);
    }
    let t = banks.translate(0xA345);
    assert_eq!(t % 0x2000, 0xA345 % 0x2000);
    assert_eq!(t / 0x2000, banks.page(1));
    assert!(t < 128 * 1024);
    assert_eq!(banks.banks_len(), 4);
    assert_eq!(banks.page_count(), 16);
}

#[test]
fn parts_round_trip() {
    let mut banks = banks_8k();
    banks.set(2, 9);
    banks.set_access(3, BankAccess::Read);
    let parts = banks.to_parts();
    assert_eq!(parts.start, 0x8000);
    assert_eq!(parts.window, 0x2000);
    assert_eq!(parts.shift, 13);
    assert_eq!(parts.mask, 15);
    let copy = Banks::from_parts(parts).unwrap();
    assert_eq!(copy.page(2), 9);
    assert!(!copy.writable(0xE000));
    assert_eq!(copy.translate(0xC001), 9 * 0x2000 + 1);
}

#[test]
fn from_parts_rejects_inconsistent_fields() {
    let mut parts = banks_8k().to_parts();
    parts.window = 0x3000;
    assert!(Banks::from_parts(parts).is_none());
    let mut parts = banks_8k().to_parts();
    parts.banks.pop();
    assert!(Banks::from_parts(parts).is_none());
    let mut parts = banks_8k().to_parts();
    parts.mask = 3;
    assert!(Banks::from_parts(parts).is_none());
}
