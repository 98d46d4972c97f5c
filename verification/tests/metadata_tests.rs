use mtf::compile::compile_model;
use mtf::engine::{LoadError, MtfEngine};
use mtf::metadata::build_metadata_json;

#[test]
fn both_texts_are_embedded_under_their_keys() {
    let s = build_metadata_json(Some(r#"{"model_type":"llama"}"#), Some(r#"{"x":[1,2]}"#));
    assert_eq!(s, r#"{"config":{"model_type":"llama"},"tokenizer":{"x":[1,2]}}"#);
}

#[test]
fn missing_texts_leave_an_empty_object() {
    assert_eq!(build_metadata_json(None, None), "{}");
}

#[test]
fn invalid_json_is_skipped() {
    assert_eq!(build_metadata_json(Some("{oops"), Some("[1]")), r#"{"tokenizer":[1]}"#);
    assert_eq!(build_metadata_json(Some("7"), Some("not json")), r#"{"config":7}"#);
}

#[test]
fn member_text_is_reserialised() {
    // whitespace in the source text does not survive serialisation
    let s = build_metadata_json(Some("{ \"a\" : 1 }"), None);
    assert_eq!(s, r#"{"config":{"a":1}}"#);
}

#[test]
fn embedded_metadata_is_read_back() {
    let meta = build_metadata_json(Some(r#"{"hidden_size":4}"#), Some(r#"{"v":"ü"}"#));
    let m = match compile_model(&[8, 0, 0, 0, 0, 0, 0, 0, b'{', b'}', b' ', b' ', b' ', b' ', b' ', b' '], &meta, None) {
        Ok(m) => m,
        Err(_) => panic!("compilation failed"),
    };
    let engine = MtfEngine::from_bytes(m.file).ok().unwrap();
    assert_eq!(engine.metadata_json(), meta);
}

#[test]
fn member_at_the_nesting_limit_makes_the_bundle_unreadable() {
    let deep = format!("{}{}", "[".repeat(127), "]".repeat(127));
    assert!(serde_json::from_str::<serde_json::Value>(&deep).is_ok());
    let meta = build_metadata_json(Some(&deep), None);
    assert!(serde_json::from_str::<serde_json::Value>(&meta).is_err());
    let m = match compile_model(&[8, 0, 0, 0, 0, 0, 0, 0, b'{', b'}', b' ', b' ', b' ', b' ', b' ', b' '], &meta, None) {
        Ok(m) => m,
        Err(_) => panic!("compilation failed"),
    };
    assert_eq!(MtfEngine::from_bytes(m.file).err(), Some(LoadError::MetadataNotJson));
}
