use nwind::exidx::{exidx_offset, find_entry, IndexEntry};

#[test]
fn exidx_offset_sign_extends_prel31() {
    // Entry 1 of a table at 0x2000 lies at 0x2008; 0x7fff_fff0 is -16.
    assert_eq!(exidx_offset(0x2000, 1, 0x7fff_fff0), 0x1ff8);
    // 0x100 is +256; bit 31 of the word is not part of the offset.
    assert_eq!(exidx_offset(0x2000, 0, 0x0000_0100), 0x2100);
    assert_eq!(exidx_offset(0x2000, 0, 0x8000_0100), 0x2100);
    // Addresses wrap around on 32 bits.
    assert_eq!(exidx_offset(0xffff_fff8, 1, 0x10), 0x10);
}

#[test]
fn index_entry_words_are_little_endian() {
    let table = [0x01, 0x02, 0x03, 0x04, 0x05, 0x06, 0x07, 0x88];
    let entry = IndexEntry::read(&table, 0);
    assert_eq!(entry.offset_to_function(), 0x0403_0201);
    assert_eq!(entry.value(), 0x8807_0605);
}

#[test]
fn find_entry_returns_function_range() {
    // Functions at 0x1000 and 0x1400, table at 0x2000.
    let mut table = Vec::new();
    table.extend_from_slice(&(0u32.wrapping_sub(0x1000) & 0x7fff_ffff).to_le_bytes());
    table.extend_from_slice(&1u32.to_le_bytes());
    table.extend_from_slice(&(0u32.wrapping_sub(0x1008 - 0x400) & 0x7fff_ffff).to_le_bytes());
    table.extend_from_slice(&1u32.to_le_bytes());
    let (index, _, start, end) = find_entry(&table, 0x2000, 0x1234).unwrap();
    assert_eq!((index, start, end), (0, 0x1000, 0x1400));
    let (index, _, start, end) = find_entry(&table, 0x2000, 0x1400).unwrap();
    assert_eq!((index, start, end), (1, 0x1400, 0xffff_ffff));
    assert!(find_entry(&table, 0x2000, 0x0fff).is_none());
}
