use mtf::tensor::{decode_half_bits, process_tensor_data, SourceDtype, TensorData};

/// The floating-point formula the compiler has always used for halves.
fn reference_decode(bytes: [u8; 2], is_bf16: bool) -> f32 {
    if is_bf16 {
        let u = u16::from_le_bytes(bytes);
        f32::from_bits((u as u32) << 16)
    } else {
        let h = u16::from_le_bytes(bytes);
        let sign = (h >> 15) & 1;
        let exp = (h >> 10) & 0x1f;
        let mant = h & 0x3ff;
        if exp == 0 {
            let sign_f = if sign == 1 { -1.0 } else { 1.0 };
            sign_f * (mant as f32) * 2.0f32.powi(-24)
        } else if exp == 31 {
            if mant == 0 {
                if sign == 1 {
                    f32::NEG_INFINITY
                } else {
                    f32::INFINITY
                }
            } else {
                f32::NAN
            }
        } else {
            let sign_f = if sign == 1 { -1.0 } else { 1.0 };
            sign_f * (1.0 + (mant as f32) / 1024.0) * 2.0f32.powi(exp as i32 - 15)
        }
    }
}

fn decode_half(bytes: [u8; 2], is_bf16: bool) -> f32 {
    f32::from_bits(decode_half_bits(bytes, is_bf16))
}

#[test]
fn test_f16_to_f32() {
    let bytes = [0x00, 0x3C];
    let val = decode_half(bytes, false);
    assert!((val - 1.0).abs() < 1e-6);
}

#[test]
fn test_bf16_to_f32() {
    let bytes = [0x80, 0x3F];
    let val = decode_half(bytes, true);
    assert!((val - 1.0).abs() < 1e-6);
}

#[test]
fn every_f16_matches_reference() {
    for h in 0..=u16::MAX {
        let bytes = h.to_le_bytes();
        let got = decode_half(bytes, false);
        let want = reference_decode(bytes, false);
        assert_eq!(got.to_bits(), want.to_bits(), "half {:#06x}", h);
    }
}

#[test]
fn every_bf16_matches_reference() {
    for h in 0..=u16::MAX {
        let bytes = h.to_le_bytes();
        assert_eq!(
            decode_half(bytes, true).to_bits(),
            reference_decode(bytes, true).to_bits()
        );
    }
}

#[test]
fn f16_special_values() {
    assert_eq!(decode_half_bits([0x00, 0x00], false), 0x0000_0000);
    assert_eq!(decode_half_bits([0x00, 0x80], false), 0x8000_0000);
    assert_eq!(decode_half_bits([0x00, 0x7C], false), 0x7f80_0000);
    assert_eq!(decode_half_bits([0x00, 0xFC], false), 0xff80_0000);
    assert_eq!(decode_half_bits([0x01, 0x7E], false), 0x7fc0_0000);
    assert_eq!(decode_half_bits([0x01, 0xFE], false), 0x7fc0_0000);
    assert_eq!(decode_half([0x01, 0x00], false), 2.0f32.powi(-24));
    assert_eq!(decode_half([0xFF, 0x7B], false), 65504.0);
    assert_eq!(decode_half([0x00, 0xC0], false), -2.0);
}

#[test]
fn half_payload_widens_to_f32() {
    // 1.0, -2.0 as f16 plus a stray byte that is dropped
    let raw = [0x00u8, 0x3C, 0x00, 0xC0, 0x55];
    let out = process_tensor_data(&raw, SourceDtype::F16);
    let bytes = out.as_slice();
    assert_eq!(bytes.len(), 8);
    assert_eq!(&bytes[0..4], &1.0f32.to_le_bytes());
    assert_eq!(&bytes[4..8], &(-2.0f32).to_le_bytes());
    assert!(matches!(out, TensorData::Owned(_)));
}

#[test]
fn bf16_payload_widens_to_f32() {
    let raw = [0x80u8, 0x3F, 0x00, 0x40];
    let out = process_tensor_data(&raw, SourceDtype::BF16);
    assert_eq!(out.as_slice(), &[0, 0, 0x80, 0x3F, 0, 0, 0x00, 0x40]);
}

#[test]
fn short_half_payloads_give_an_empty_owned_buffer() {
    let raw = [0x3Cu8];
    let out = process_tensor_data(&raw, SourceDtype::BF16);
    assert!(matches!(out, TensorData::Owned(ref v) if v.is_empty()));
}

#[test]
fn other_payloads_pass_through() {
    let raw = [1u8, 2, 3, 4, 5];
    let f32_out = process_tensor_data(&raw, SourceDtype::F32);
    assert!(matches!(f32_out, TensorData::Borrowed(_)));
    assert_eq!(f32_out.as_slice(), &raw);
    let other = process_tensor_data(&raw, SourceDtype::Other);
    assert_eq!(other.as_slice(), &raw);
}

#[test]
fn f16_widening_keeps_the_order_of_non_negative_halves() {
    let mut prev = decode_half_bits([0x00, 0x00], false);
    assert_eq!(prev, 0);
    for h in 1u16..=0x7C00 {
        let b = h.to_le_bytes();
        let bits = decode_half_bits([b[0], b[1]], false);
        assert!(bits > prev, "not increasing at {:#06x}", h);
        assert!(f32::from_bits(bits) > f32::from_bits(prev));
        prev = bits;
    }
    assert_eq!(prev, 0x7f80_0000);
    // across the subnormal / normal boundary
    assert!(decode_half_bits([0xFF, 0x03], false) < decode_half_bits([0x00, 0x04], false));
}
