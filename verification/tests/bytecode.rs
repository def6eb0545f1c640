use byteorder::{ByteOrder, NativeEndian};
use nwind::bytecode::{collect_bytecode, BytecodeIter};

fn collect(mut iter: BytecodeIter) -> Vec<u8> {
    let mut out = Vec::new();
    while let Some(byte) = iter.next() {
        out.push(byte);
    }
    out
}

#[test]
fn test_bytecode_iter_inline_bytecode() {
    let inline_bytecode = &[0x04, 0x03, 0x02, 0x01];
    let vec: Vec<u8> = collect(BytecodeIter::new(NativeEndian::read_u32(inline_bytecode), 0, &[]));
    assert_eq!(vec, &[0x01, 0x02, 0x03, 0x04]);
}

#[test]
fn test_bytecode_iter_inline_bytecode_with_offset() {
    let inline_bytecode = &[0x04, 0x03, 0x02, 0x01];
    let vec: Vec<u8> = collect(BytecodeIter::new(NativeEndian::read_u32(inline_bytecode), 1, &[]));
    assert_eq!(vec, &[0x02, 0x03, 0x04]);
}

#[test]
fn test_bytecode_iter_inline_bytecode_with_offset_and_with_bytecode() {
    let inline_bytecode = &[0x04, 0x03, 0x02, 0x01];
    let bytecode = &[0x08, 0x07, 0x06, 0x05];
    let vec: Vec<u8> =
        collect(BytecodeIter::new(NativeEndian::read_u32(inline_bytecode), 1, bytecode));
    assert_eq!(vec, &[0x02, 0x03, 0x04, 0x05, 0x06, 0x07, 0x08]);
}

#[test]
fn collect_bytecode_matches_iteration() {
    let words = [0x0c, 0x0b, 0x0a, 0x09, 0x10, 0x0f, 0x0e, 0x0d];
    assert_eq!(
        collect_bytecode(0x0102_0304, 2, &words),
        vec![0x03, 0x04, 0x09, 0x0a, 0x0b, 0x0c, 0x0d, 0x0e, 0x0f, 0x10]
    );
    assert_eq!(collect_bytecode(0xaabb_ccdd, 3, &[]), vec![0xdd]);
}
