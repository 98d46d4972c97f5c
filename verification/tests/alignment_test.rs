use mtf::format::padding_needed;
use mtf::hash::mtf_hash_name;
use mtf::{QuantType, ALIGNMENT_BOUNDARY};

#[test]
fn test_index_sorting_complexity() {
    let t1 = "model.embed_tokens.weight";
    let t2 = "model.layers.0.self_attn.q_proj.weight";

    let h1 = mtf_hash_name(t1);
    let h2 = mtf_hash_name(t2);

    let mut index = vec![h1, h2];
    index.sort();

    assert!(
        index[0] <= index[1],
        "Hashes must sort sequentially for O(log N) lookup binary-search compliance"
    );
}

#[test]
fn test_256_byte_padding_math() {
    let current_cursor: u64 = 1125;
    let modulo = current_cursor % ALIGNMENT_BOUNDARY;
    let padding_needed = if modulo != 0 {
        ALIGNMENT_BOUNDARY - modulo
    } else {
        0
    };

    assert_eq!(
        padding_needed, 155,
        "Padding math calculation anomaly detected"
    );
    assert_eq!(
        (current_cursor + padding_needed) % ALIGNMENT_BOUNDARY,
        0,
        "SIMD Alignment calculation failed!"
    );
}

#[test]
fn padding_needed_values() {
    assert_eq!(padding_needed(1125), 155);
    assert_eq!(padding_needed(0), 0);
    assert_eq!(padding_needed(256), 0);
    assert_eq!(padding_needed(64), 192);
    assert_eq!(padding_needed(255), 1);
    for pos in [1u64, 17, 300, 4095, u64::MAX - 300] {
        let pad = padding_needed(pos);
        assert!(pad < ALIGNMENT_BOUNDARY);
        assert_eq!((pos as u128 + pad as u128) % 256, 0);
    }
}

#[test]
fn quant_type_codes() {
    assert_eq!(QuantType::F32.code(), 0);
    assert_eq!(QuantType::F16.code(), 1);
    assert_eq!(QuantType::Q4_0.code(), 2);
    assert_eq!(QuantType::Q4_1.code(), 3);
    assert_eq!(QuantType::Q8_0.code(), 4);
}
