use nwind::regs::{FpRegsIter, RegMask, RegsIter};

fn regs_to_vec(mut iter: RegsIter) -> Vec<u8> {
    let mut out = Vec::new();
    while let Some(reg) = iter.next() {
        out.push(reg.0);
    }
    out
}

fn fp_regs_to_vec(mut iter: FpRegsIter) -> Vec<u8> {
    let mut out = Vec::new();
    while let Some(reg) = iter.next() {
        out.push(reg.0);
    }
    out
}

#[test]
fn test_regs_iter() {
    assert!(regs_to_vec(RegsIter::new(0)).is_empty());
    assert_eq!(regs_to_vec(RegsIter::new(0b1)), vec![0]);
    assert_eq!(regs_to_vec(RegsIter::new(0b11)), vec![0, 1]);
    assert_eq!(regs_to_vec(RegsIter::new(0b10)), vec![1]);
    assert_eq!(regs_to_vec(RegsIter::new(0b100)), vec![2]);
    assert_eq!(regs_to_vec(RegsIter::new(0b1000_0000_0000_0000)), vec![15]);
    assert_eq!(regs_to_vec(RegsIter::new(0b1000_0000_0000_0001)), vec![0, 15]);
}

#[test]
fn test_fp_regs_iter() {
    assert!(fp_regs_to_vec(FpRegsIter::new(0)).is_empty());
    assert_eq!(fp_regs_to_vec(FpRegsIter::new(0b1)), vec![0]);
    assert_eq!(fp_regs_to_vec(FpRegsIter::new(0b11)), vec![0, 1]);
    assert_eq!(fp_regs_to_vec(FpRegsIter::new(0b10)), vec![1]);
    assert_eq!(fp_regs_to_vec(FpRegsIter::new(0b100)), vec![2]);
    assert_eq!(fp_regs_to_vec(FpRegsIter::new(0b1000_0000_0000_0000)), vec![15]);
    assert_eq!(fp_regs_to_vec(FpRegsIter::new(0b1000_0000_0000_0001)), vec![0, 15]);
}

#[test]
fn fp_regs_iter_reaches_d31() {
    assert_eq!(fp_regs_to_vec(FpRegsIter::new(0x8000_0001)), vec![0, 31]);
    assert_eq!(fp_regs_to_vec(FpRegsIter::new(0xffff_ffff)).len(), 32);
}

#[test]
fn reg_mask_iter_walks_in_increasing_order() {
    assert_eq!(regs_to_vec(RegMask(0b0100_0000_1111_0000).iter()), vec![4, 5, 6, 7, 14]);
}

#[test]
fn exhausted_iter_stays_exhausted() {
    let mut iter = RegsIter::new(0b1);
    assert_eq!(iter.next().map(|r| r.0), Some(0));
    assert!(iter.next().is_none());
    assert!(iter.next().is_none());
}
