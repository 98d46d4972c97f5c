use mtf::validator::{
    describe_mismatches, shape_check_is_defined, validate_tensor_shapes, ModelConfig, ShapeMismatch,
};

fn config(model_type: &str) -> ModelConfig {
    ModelConfig {
        model_type: Some(model_type.to_string()),
        hidden_size: Some(8),
        num_attention_heads: Some(2),
        num_key_value_heads: Some(1),
        num_hidden_layers: Some(11),
        vocab_size: Some(10),
        head_dim: None,
        intermediate_size: Some(16),
    }
}

fn pair(name: &str, shape: &[usize]) -> (String, Vec<usize>) {
    (name.to_string(), shape.to_vec())
}

#[test]
fn matching_llama_shapes_pass() {
    let tensors = vec![
        pair("model.embed_tokens.weight", &[10, 8]),
        pair("model.layers.0.self_attn.k_proj.weight", &[8, 4]),
        pair("model.layers.10.mlp.down_proj.weight", &[16, 8]),
        pair("unrelated", &[1]),
    ];
    assert!(validate_tensor_shapes(&tensors, &config("llama")).is_ok());
}

#[test]
fn mismatches_are_reported_in_architecture_order() {
    let tensors = vec![
        pair("model.layers.10.input_layernorm.weight", &[7]),
        pair("lm_head.weight", &[8, 10]),
        pair("model.layers.1.self_attn.v_proj.weight", &[8, 8]),
    ];
    let errs = match validate_tensor_shapes(&tensors, &config("mistral")) {
        Err(e) => e,
        Ok(()) => panic!("expected mismatches"),
    };
    let names: Vec<&str> = errs.iter().map(|m| m.name.as_str()).collect();
    assert_eq!(
        names,
        vec![
            "lm_head.weight",
            "model.layers.1.self_attn.v_proj.weight",
            "model.layers.10.input_layernorm.weight"
        ]
    );
    assert_eq!(errs[0].expected, vec![10, 8]);
    assert_eq!(errs[0].actual, vec![8, 10]);
    assert_eq!(errs[1].expected, vec![8, 4]);
    assert_eq!(errs[2].actual, vec![7]);
}

#[test]
fn last_duplicate_shape_is_checked() {
    let tensors = vec![pair("lm_head.weight", &[1, 1]), pair("lm_head.weight", &[10, 8])];
    assert!(validate_tensor_shapes(&tensors, &config("gemma")).is_ok());
}

#[test]
fn gpt2_shapes() {
    let tensors = vec![
        pair("wte.weight", &[10, 8]),
        pair("h.3.attn.c_attn.weight", &[8, 24]),
        pair("h.4.mlp.c_fc.weight", &[8, 15]),
    ];
    let errs = validate_tensor_shapes(&tensors, &config("gpt2")).err().unwrap();
    assert_eq!(errs.len(), 1);
    assert_eq!(errs[0].name, "h.4.mlp.c_fc.weight");
    assert_eq!(errs[0].expected, vec![8, 16]);
}

#[test]
fn unchecked_types_pass() {
    let tensors = vec![pair("lm_head.weight", &[1])];
    assert!(validate_tensor_shapes(&tensors, &config("qwen2")).is_ok());
    let mut none = config("llama");
    none.model_type = None;
    assert!(validate_tensor_shapes(&tensors, &none).is_ok());
}

#[test]
fn defaults_apply_for_absent_fields() {
    let cfg = ModelConfig {
        model_type: Some("llama".to_string()),
        hidden_size: None,
        num_attention_heads: None,
        num_key_value_heads: None,
        num_hidden_layers: Some(1),
        vocab_size: None,
        head_dim: None,
        intermediate_size: None,
    };
    let tensors = vec![
        pair("model.embed_tokens.weight", &[32000, 4096]),
        pair("model.layers.0.mlp.up_proj.weight", &[4096, 16384]),
        pair("model.layers.0.self_attn.k_proj.weight", &[4096, 4096]),
    ];
    assert!(validate_tensor_shapes(&tensors, &cfg).is_ok());
}

#[test]
fn undefined_shape_arithmetic_is_detected() {
    let mut cfg = config("llama");
    assert!(shape_check_is_defined(&cfg));
    cfg.num_attention_heads = Some(0);
    assert!(!shape_check_is_defined(&cfg));
    let mut cfg = config("gpt2");
    cfg.hidden_size = Some(u64::MAX / 2);
    cfg.intermediate_size = Some(1);
    assert!(!shape_check_is_defined(&cfg));
    let mut cfg = config("bert");
    cfg.num_attention_heads = Some(0);
    assert!(shape_check_is_defined(&cfg));
}

#[test]
fn mismatch_report_lists_each_tensor() {
    let tensors = vec![
        pair("model.layers.10.input_layernorm.weight", &[7]),
        pair("lm_head.weight", &[8, 10]),
    ];
    let errs = match validate_tensor_shapes(&tensors, &config("llama")) {
        Err(e) => e,
        Ok(()) => panic!("expected mismatches"),
    };
    assert_eq!(
        describe_mismatches(&errs),
        "Shape validation failed:\nlm_head.weight: expected [10, 8], got [8, 10]\n\
         model.layers.10.input_layernorm.weight: expected [8], got [7]"
    );
}

#[test]
fn mismatch_report_formats_like_debug() {
    let m = ShapeMismatch { name: "w".to_string(), expected: vec![], actual: vec![123, 0, 45] };
    assert_eq!(
        describe_mismatches(&[m]),
        format!("Shape validation failed:\nw: expected {:?}, got {:?}", Vec::<usize>::new(), vec![123usize, 0, 45])
    );
    assert_eq!(describe_mismatches(&[]), "Shape validation failed:\n");
}

#[test]
fn llama_family_prescribes_the_same_shapes() {
    let tensors = vec![
        pair("model.embed_tokens.weight", &[10, 8]),
        pair("model.layers.3.self_attn.k_proj.weight", &[8, 5]),
    ];
    let reports: Vec<Vec<String>> = ["llama", "mistral", "gemma"]
        .iter()
        .map(|t| match validate_tensor_shapes(&tensors, &config(t)) {
            Err(e) => e.iter().map(|m| format!("{}:{:?}", m.name, m.expected)).collect(),
            Ok(()) => vec![],
        })
        .collect();
    assert_eq!(reports[0], vec!["model.layers.3.self_attn.k_proj.weight:[8, 4]".to_string()]);
    assert_eq!(reports[0], reports[1]);
    assert_eq!(reports[0], reports[2]);
}

#[test]
fn absent_and_extra_tensors_do_not_fail_a_passing_check() {
    let full = vec![
        pair("model.embed_tokens.weight", &[10, 8]),
        pair("lm_head.weight", &[10, 8]),
    ];
    assert!(validate_tensor_shapes(&full, &config("llama")).is_ok());
    let mut fewer_and_extra = vec![pair("lm_head.weight", &[10, 8])];
    fewer_and_extra.push(pair("model.layers.99.extra", &[3, 3]));
    fewer_and_extra.push(pair("rotary.inv_freq", &[4]));
    assert!(validate_tensor_shapes(&fewer_and_extra, &config("llama")).is_ok());
}
