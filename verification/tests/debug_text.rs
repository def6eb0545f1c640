use nwind::regs::{FpReg, FpRegMask, Reg, RegMask};

#[test]
fn register_names() {
    assert_eq!(Reg(7).debug_string(), "r7");
    assert_eq!(Reg(14).debug_string(), "r14");
    assert_eq!(FpReg(8).debug_string(), "d8");
    assert_eq!(FpReg(31).debug_string(), "d31");
    assert_eq!(Reg(255).debug_string(), "r255");
}

#[test]
fn register_set_text() {
    assert_eq!(RegMask((1 << 4) | (1 << 14)).debug_string(), "{r4, r14}");
    assert_eq!(RegMask(0).debug_string(), "{}");
    assert_eq!(RegMask(1).debug_string(), "{r0}");
    assert_eq!(FpRegMask((1 << 17) | (1 << 18)).debug_string(), "{d17, d18}");
}
