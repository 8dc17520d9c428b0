use spellman::widen::{e4m3_bits_to_f32_bits, f16_bits_to_f32_bits};

fn f16_to_f32(bits: u16) -> f32 {
    f32::from_bits(f16_bits_to_f32_bits(bits))
}

fn e4m3_to_f32(bits: u8) -> f32 {
    f32::from_bits(e4m3_bits_to_f32_bits(bits))
}

#[test]
fn f16_to_f32_reference_values() {
    // IEEE 754 binary16 reference patterns.
    assert_eq!(f16_to_f32(0x0000), 0.0);
    assert_eq!(f16_to_f32(0x8000), -0.0);
    assert_eq!(f16_to_f32(0x3C00), 1.0);
    assert_eq!(f16_to_f32(0xBC00), -1.0);
    assert_eq!(f16_to_f32(0x3800), 0.5);
    assert_eq!(f16_to_f32(0x4000), 2.0);
    assert_eq!(f16_to_f32(0xC000), -2.0);
    assert_eq!(f16_to_f32(0x3555), 1365.0 / 4096.0); // ~1/3
    assert_eq!(f16_to_f32(0x7BFF), 65504.0); // max normal
    assert_eq!(f16_to_f32(0x0001), 1.0 / 16777216.0); // min subnormal (2^-24)
    assert_eq!(f16_to_f32(0x03FF), 1023.0 / 16777216.0); // max subnormal (1023·2^-24)
    assert!(f16_to_f32(0x7C00).is_infinite());
    assert!(f16_to_f32(0xFC00).is_infinite());
    assert!(f16_to_f32(0x7E00).is_nan());
    // Monotonicity over all positive finite values.
    let mut prev = f32::NEG_INFINITY;
    for bits in 0x0000u16..0x7C00 {
        let v = f16_to_f32(bits);
        assert!(v >= prev, "not monotone at {bits:#06x}");
        prev = v;
    }
}

#[test]
fn widening_keeps_sign_bit_of_zero() {
    assert_eq!(f16_bits_to_f32_bits(0x0000), 0x0000_0000);
    assert_eq!(f16_bits_to_f32_bits(0x8000), 0x8000_0000);
}

#[test]
fn widening_normalizes_subnormals() {
    // 2^-24 is the binary32 normal 1.0 · 2^-24: biased exponent 103.
    assert_eq!(f16_bits_to_f32_bits(0x0001), 103 << 23);
    // 0x0200 is 2^-15: biased exponent 112, empty fraction.
    assert_eq!(f16_bits_to_f32_bits(0x0200), 112 << 23);
    // 0x0300 is 1.5 · 2^-15.
    assert_eq!(f16_bits_to_f32_bits(0x0300), (112 << 23) | (1 << 22));
}

#[test]
fn widening_carries_nan_payload_and_infinities() {
    assert_eq!(f16_bits_to_f32_bits(0x7C00), 0x7F80_0000);
    assert_eq!(f16_bits_to_f32_bits(0xFC00), 0xFF80_0000);
    assert_eq!(f16_bits_to_f32_bits(0x7C01), 0x7F80_2000);
    assert_eq!(f16_bits_to_f32_bits(0x7E00), 0x7FC0_0000);
}

#[test]
fn widening_is_monotone_on_patterns() {
    let mut prev = f16_bits_to_f32_bits(0);
    for bits in 1u16..0x7C00 {
        let w = f16_bits_to_f32_bits(bits);
        assert!(w > prev, "not strictly increasing at {bits:#06x}");
        prev = w;
    }
}

#[test]
fn e4m3_decode_reference_values() {
    assert_eq!(e4m3_to_f32(0x00), 0.0);
    assert_eq!(e4m3_to_f32(0x80), -0.0);
    assert_eq!(e4m3_to_f32(0x38), 1.0);
    assert_eq!(e4m3_to_f32(0xB8), -1.0);
    assert_eq!(e4m3_to_f32(0x3C), 1.5);
    assert_eq!(e4m3_to_f32(0x40), 2.0);
    assert_eq!(e4m3_to_f32(0x70), 128.0);
    assert_eq!(e4m3_to_f32(0x7E), 448.0); // max finite (e4m3fn has no inf)
    assert_eq!(e4m3_to_f32(0x01), 0.001953125); // subnormal: 1 × 2^-9
    assert_eq!(e4m3_to_f32(0x03), 0.005859375); // 3 × 2^-9
    assert_eq!(e4m3_to_f32(0x08), 0.015625); // smallest normal: 2^-6
    assert!(e4m3_to_f32(0x7F).is_nan());
    // Monotone across the positive normal range.
    let mut prev = 0.0f32;
    let mut bits = 0x08u8; // smallest normal, 2^-6
    while bits < 0x7E {
        let v = e4m3_to_f32(bits);
        assert!(v >= prev, "not monotone at {bits:#04x}");
        prev = v;
        bits += 1;
    }
}

#[test]
fn e4m3_subnormals_equal_multiples_of_two_to_minus_nine() {
    for man in 1u8..8 {
        assert_eq!(e4m3_to_f32(man), (man as f32) / 512.0);
        assert_eq!(e4m3_to_f32(0x80 | man), -(man as f32) / 512.0);
    }
}

#[test]
fn e4m3_nan_patterns_and_monotone_patterns() {
    assert_eq!(e4m3_bits_to_f32_bits(0x7F), 0x7FC0_0000);
    assert_eq!(e4m3_bits_to_f32_bits(0xFF), 0x7FC0_0000);
    // Exponent 15 with a fraction other than 7 is an ordinary value.
    assert_eq!(e4m3_to_f32(0x78), 256.0);
    let mut prev = e4m3_bits_to_f32_bits(0);
    for bits in 1u8..0x7F {
        let w = e4m3_bits_to_f32_bits(bits);
        assert!(w > prev, "not strictly increasing at {bits:#04x}");
        prev = w;
    }
}
