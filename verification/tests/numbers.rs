use ironcalc_lotus::number::{small_text_exec, snum32_text_exec};

#[test]
fn snum_low_bit_clear_gives_signed_half() {
    assert_eq!(small_text_exec(0x2710).as_deref(), Some("5000"));
    assert_eq!(small_text_exec(0).as_deref(), Some("0"));
    assert_eq!(small_text_exec(2).as_deref(), Some("1"));
}

#[test]
fn snum32_zero() {
    assert_eq!(snum32_text_exec(0), "0");
}

#[test]
fn snum_scaled_and_negative_values() {
    // Low bit set, factor index 6 (0.0625), value 3 in the upper bits.
    assert_eq!(small_text_exec((3 << 4) | (6 << 1) | 1).as_deref(), Some("0.1875"));
    // Factor 0.05 has no exact binary value, so its text is not known here.
    assert_eq!(small_text_exec((3 << 4) | (2 << 1) | 1), None);
    // 12 with a divisor exponent of 1 and the sign bit: -1.2.
    assert_eq!(snum32_text_exec((12 << 6) | 0x20 | 0x10 | 1), "-1.2");
}
