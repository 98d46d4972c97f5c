use mtf::compile::{
    compile_compressed, compile_model, compile_sources, safetensors_sizes_ok, CompileError,
    SourceTensor,
};
use mtf::engine::{LoadError, MtfEngine, TensorError};
use mtf::hash::mtf_hash_name;
use mtf::tensor::SourceDtype;
use mtf::{ALIGNMENT_BOUNDARY, FORMAT_VERSION, MAGIC_BYTES, MAGIC_FOOTER};

fn safetensors_bytes(entries: &[(&str, &str, Vec<usize>, Vec<u8>)]) -> Vec<u8> {
    let mut header = String::from("{");
    let mut data = Vec::new();
    for (i, (name, dtype, shape, bytes)) in entries.iter().enumerate() {
        if i > 0 {
            header.push(',');
        }
        let dims: Vec<String> = shape.iter().map(|d| d.to_string()).collect();
        header.push_str(&format!(
            "\"{}\":{{\"dtype\":\"{}\",\"shape\":[{}],\"data_offsets\":[{},{}]}}",
            name,
            dtype,
            dims.join(","),
            data.len(),
            data.len() + bytes.len()
        ));
        data.extend_from_slice(bytes);
    }
    header.push('}');
    let mut out = (header.len() as u64).to_le_bytes().to_vec();
    out.extend_from_slice(header.as_bytes());
    out.extend_from_slice(&data);
    out
}

fn f32_bytes(vals: &[f32]) -> Vec<u8> {
    vals.iter().flat_map(|v| v.to_le_bytes()).collect()
}

fn u64_at(b: &[u8], i: usize) -> u64 {
    u64::from_le_bytes(b[i..i + 8].try_into().unwrap())
}

const META: &str = r#"{"config":{"model_type":"llama","hidden_size":2},"tokenizer":{"x":"ü"}}"#;

fn sample_model() -> Vec<u8> {
    let st = safetensors_bytes(&[
        ("model.embed_tokens.weight", "F32", vec![2, 2], f32_bytes(&[1.0, 2.0, 3.0, 4.0])),
        ("lm_head.weight", "F16", vec![2], vec![0x00, 0x3C, 0x00, 0xC0]),
        ("model.norm.weight", "BF16", vec![3], vec![0x80, 0x3F, 0x00, 0x40, 0x00, 0x00]),
        ("token_ids", "I64", vec![1], vec![7, 0, 0, 0, 0, 0, 0, 0]),
    ]);
    let m = match compile_model(&st, META, None) {
        Ok(m) => m,
        Err(_) => panic!("compilation failed"),
    };
    assert_eq!(m.tensor_count, 4);
    assert!(m.shape_check.is_none());
    m.file
}

#[test]
fn compiled_file_has_header_and_footer() {
    let file = sample_model();
    assert!(file.len() >= 128);
    assert_eq!(&file[0..8], &MAGIC_BYTES);
    assert_eq!(u32::from_le_bytes(file[8..12].try_into().unwrap()), FORMAT_VERSION);
    assert_eq!(u64_at(&file, 12), 4);
    assert!(file[20..64].iter().all(|&b| b == 0));
    let f = file.len() - 64;
    assert_eq!(&file[file.len() - 8..], &MAGIC_FOOTER);
    assert_eq!(u32::from_le_bytes(file[f + 24..f + 28].try_into().unwrap()), FORMAT_VERSION);
    let meta_off = u64_at(&file, f + 8) as usize;
    let meta_len = u64_at(&file, f + 16) as usize;
    assert_eq!(meta_off + meta_len, f);
    let text = zstd::decode_all(&file[meta_off..meta_off + meta_len]).unwrap();
    assert_eq!(text, META.as_bytes());
}

#[test]
fn compiled_index_is_sorted_and_aligned() {
    let file = sample_model();
    let f = file.len() - 64;
    let mut pos = u64_at(&file, f) as usize;
    let mut hashes = Vec::new();
    for _ in 0..4 {
        let hash = u64_at(&file, pos);
        let ndim = file[pos + 8] as usize;
        assert_eq!(file[pos + 9], 0);
        let offset = u64_at(&file, pos + 10);
        assert_eq!(offset % ALIGNMENT_BOUNDARY, 0);
        hashes.push(hash);
        pos += 18 + 4 * ndim;
    }
    assert_eq!(pos, u64_at(&file, f + 8) as usize);
    let mut sorted = hashes.clone();
    sorted.sort();
    assert_eq!(hashes, sorted);
}

#[test]
fn engine_reads_back_compiled_tensors() {
    let file = sample_model();
    let engine = match MtfEngine::from_bytes(file) {
        Ok(e) => e,
        Err(e) => panic!("load failed: {:?}", e),
    };
    assert_eq!(engine.metadata_json(), META);
    assert!(engine.contains_tensor("lm_head.weight"));
    assert!(engine.contains_tensor("token_ids"));
    assert!(!engine.contains_tensor("missing.weight"));

    let (bytes, shape) = engine.get_tensor_bytes("model.embed_tokens.weight").unwrap();
    assert_eq!(shape, &[2, 2]);
    assert_eq!(bytes, f32_bytes(&[1.0, 2.0, 3.0, 4.0]).as_slice());

    let (bytes, shape) = engine.get_tensor_bytes("lm_head.weight").unwrap();
    assert_eq!(shape, &[2]);
    assert_eq!(bytes, f32_bytes(&[1.0, -2.0]).as_slice());

    let (bytes, _) = engine.get_tensor_bytes("model.norm.weight").unwrap();
    assert_eq!(bytes, f32_bytes(&[1.0, 2.0, 0.0]).as_slice());

    let (bytes, _) = engine.get_tensor_bytes("token_ids").unwrap();
    assert_eq!(bytes, &[7, 0, 0, 0]);

    assert_eq!(engine.get_tensor_bytes("missing.weight").err(), Some(TensorError::NotFound));
}

#[test]
fn compile_sources_orders_by_hash() {
    let a = [0u8; 4];
    let b = [1u8; 4];
    let sources = vec![
        SourceTensor { name: "x".to_string(), shape: vec![1], dtype: SourceDtype::F32, data: &a },
        SourceTensor { name: "y".to_string(), shape: vec![1], dtype: SourceDtype::F32, data: &b },
    ];
    let meta = zstd::encode_all(&b"{}"[..], 3).unwrap();
    let m = compile_sources(sources, &meta, None);
    let file = m.file;
    let (hx, hy) = (mtf_hash_name("x"), mtf_hash_name("y"));
    let first = u64_at(&file, u64_at(&file, file.len() - 64) as usize);
    assert_eq!(first, hx.min(hy));
    // first payload starts at 256, second at 512
    let engine = MtfEngine::from_bytes(file).ok().unwrap();
    assert_eq!(engine.get_tensor_bytes("x").unwrap().0, &a);
    assert_eq!(engine.get_tensor_bytes("y").unwrap().0, &b);
}

#[test]
fn invalid_safetensors_is_rejected() {
    match compile_model(&[1, 2, 3], "{}", None) {
        Err(CompileError::SafeTensors(_)) => {}
        _ => panic!("expected a safetensors error"),
    }
}

fn huge_tensor_header() -> Vec<u8> {
    let header = format!(
        "{{\"big\":{{\"dtype\":\"U8\",\"shape\":[{m}],\"data_offsets\":[0,{m}]}}}}",
        m = u64::MAX
    );
    let mut out = (header.len() as u64).to_le_bytes().to_vec();
    out.extend_from_slice(header.as_bytes());
    out
}

#[test]
fn oversized_data_end_is_rejected_before_parsing() {
    let st = huge_tensor_header();
    assert!(!safetensors_sizes_ok(&st));
    match compile_model(&st, "{}", None) {
        Err(CompileError::SafeTensorsTooLarge) => {}
        _ => panic!("expected the size check to refuse the header"),
    }
}

#[test]
fn ordinary_headers_pass_the_size_check() {
    let st = safetensors_bytes(&[("w", "F32", vec![1], f32_bytes(&[1.0]))]);
    assert!(safetensors_sizes_ok(&st));
    assert!(safetensors_sizes_ok(&[1, 2, 3]));
    assert!(safetensors_sizes_ok(&[0u8; 8]));
}

#[test]
fn failed_metadata_compression_is_reported_first() {
    match compile_compressed(&[1, 2, 3], None, None) {
        Err(CompileError::MetadataCompression) => {}
        _ => panic!("expected the compression failure"),
    }
    let st = safetensors_bytes(&[("w", "F32", vec![1], f32_bytes(&[1.0]))]);
    match compile_compressed(&st, Some(vec![9, 9]), None) {
        Ok(m) => assert_eq!(m.tensor_count, 1),
        Err(_) => panic!("expected success"),
    }
}

fn load_err(bytes: Vec<u8>) -> LoadError {
    match MtfEngine::from_bytes(bytes) {
        Ok(_) => panic!("expected an error"),
        Err(e) => e,
    }
}

#[test]
fn short_and_foreign_files_are_rejected() {
    assert_eq!(load_err(vec![0x4D, 0x5A]), LoadError::FileTooShort);
    assert_eq!(load_err(vec![0u8; 200]), LoadError::BadMagic);
    let mut short = MAGIC_BYTES.to_vec();
    short.extend_from_slice(&[0u8; 100]);
    assert_eq!(load_err(short), LoadError::FileTooShort);
}

#[test]
fn corrupted_footers_are_rejected() {
    let file = sample_model();
    let f = file.len() - 64;

    let mut bad = file.clone();
    bad[f + 16..f + 24].copy_from_slice(&(file.len() as u64).to_le_bytes());
    assert_eq!(load_err(bad), LoadError::MetadataOutOfBounds);

    let mut bad = file.clone();
    let meta_off = u64_at(&file, f + 8) as usize;
    for b in &mut bad[meta_off..meta_off + 4] {
        *b = 0xAB;
    }
    assert_eq!(load_err(bad), LoadError::MetadataDecompression);

    let mut bad = file.clone();
    bad[f..f + 8].copy_from_slice(&(file.len() as u64 + 1).to_le_bytes());
    assert_eq!(load_err(bad), LoadError::IndexOutOfBounds);

    let mut bad = file.clone();
    bad[12..20].copy_from_slice(&1000u64.to_le_bytes());
    assert_eq!(load_err(bad), LoadError::TruncatedIndex);
}

#[test]
fn non_utf8_metadata_is_rejected() {
    let a = [0u8; 4];
    let sources =
        vec![SourceTensor { name: "x".to_string(), shape: vec![1], dtype: SourceDtype::F32, data: &a }];
    let meta = zstd::encode_all(&[0xFFu8, 0xFE][..], 3).unwrap();
    let m = compile_sources(sources, &meta, None);
    assert_eq!(load_err(m.file), LoadError::MetadataNotUtf8);
}

#[test]
fn non_json_metadata_is_rejected() {
    let a = [0u8; 4];
    let sources =
        vec![SourceTensor { name: "x".to_string(), shape: vec![1], dtype: SourceDtype::F32, data: &a }];
    let meta = zstd::encode_all(&b"not json {"[..], 3).unwrap();
    let m = compile_sources(sources, &meta, None);
    assert_eq!(load_err(m.file), LoadError::MetadataNotJson);
}

#[test]
fn payload_past_the_end_is_out_of_bounds() {
    let file = sample_model();
    let f = file.len() - 64;
    let idx = u64_at(&file, f) as usize;
    let mut bad = file.clone();
    bad[idx + 10..idx + 18].copy_from_slice(&(file.len() as u64).to_le_bytes());
    let first_hash = u64_at(&file, idx);
    let engine = MtfEngine::from_bytes(bad).ok().unwrap();
    let name = ["model.embed_tokens.weight", "lm_head.weight", "model.norm.weight", "token_ids"]
        .into_iter()
        .find(|n| mtf_hash_name(n) == first_hash)
        .unwrap();
    assert_eq!(engine.get_tensor_bytes(name).err(), Some(TensorError::OutOfBounds));
}
