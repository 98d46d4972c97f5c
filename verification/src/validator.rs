use vstd::prelude::*;
use crate::decimal::{decimal, push_decimal};

verus! {

/// The fields of a model's `config.json` that shape checking reads; a field
/// is `None` when it is absent or not a non-negative integer (for
/// `model_type`: not a string).
pub struct ModelConfig {
    pub model_type: Option<String>,
    pub hidden_size: Option<u64>,
    pub num_attention_heads: Option<u64>,
    pub num_key_value_heads: Option<u64>,
    pub num_hidden_layers: Option<u64>,
    pub vocab_size: Option<u64>,
    pub head_dim: Option<u64>,
    pub intermediate_size: Option<u64>,
}

/// A tensor whose shape differs from the one its architecture prescribes.
pub struct ShapeMismatch {
    pub name: String,
    pub expected: Vec<usize>,
    pub actual: Vec<usize>,
}

/// Dimensions derived from the configuration, with the defaults of a 7B
/// Llama for absent fields.
#[derive(Clone, Copy)]
pub struct ShapeParams {
    pub hidden_size: usize,
    pub num_heads: usize,
    pub num_kv_heads: usize,
    pub num_layers: usize,
    pub vocab_size: usize,
    pub head_dim: usize,
    pub intermediate_size: usize,
}

/// The model type named by the configuration (`"unknown"` when absent).
pub open spec fn model_type_name(cfg: ModelConfig) -> Seq<char> {
    match cfg.model_type {
        Some(s) => s@,
        None => "unknown"@,
    }
}

/// Model types whose shapes are checked.
pub open spec fn is_checked_type(t: Seq<char>) -> bool {
    t == "llama"@ || t == "mistral"@ || t == "gemma"@ || t == "gpt2"@
}

/// Model types laid out like Llama.
pub open spec fn is_llama_like(t: Seq<char>) -> bool {
    t == "llama"@ || t == "mistral"@ || t == "gemma"@ || t == "qwen2"@
}

/// A configuration field as a size, or `default`.
pub open spec fn field_or(v: Option<u64>, default: int) -> int {
    match v {
        Some(x) => (x as usize) as int,
        None => default,
    }
}

/// Configured hidden size (default 4096).
pub open spec fn spec_hidden(cfg: ModelConfig) -> int {
    field_or(cfg.hidden_size, 4096)
}

/// Configured attention head count (default 32).
pub open spec fn spec_heads(cfg: ModelConfig) -> int {
    field_or(cfg.num_attention_heads, 32)
}

/// The arithmetic of the shape derivation stays within `usize` and divides
/// by a non-zero head count.
pub open spec fn shape_arithmetic_ok(cfg: ModelConfig) -> bool {
    &&& spec_heads(cfg) != 0
    &&& spec_hidden(cfg) * 4 <= usize::MAX
}

/// The derived dimensions.
pub open spec fn spec_shape_params(cfg: ModelConfig) -> ShapeParams {
    let hidden = spec_hidden(cfg);
    let heads = spec_heads(cfg);
    ShapeParams {
        hidden_size: hidden as usize,
        num_heads: heads as usize,
        num_kv_heads: field_or(cfg.num_key_value_heads, heads) as usize,
        num_layers: field_or(cfg.num_hidden_layers, 32) as usize,
        vocab_size: field_or(cfg.vocab_size, 32000) as usize,
        head_dim: field_or(cfg.head_dim, hidden / heads) as usize,
        intermediate_size: field_or(cfg.intermediate_size, hidden * 4) as usize,
    }
}

/// The per-layer products of the architecture stay within `usize`.
pub open spec fn layer_arithmetic_ok(arch: Seq<char>, p: ShapeParams) -> bool {
    p.num_layers > 0 ==> {
        &&& is_llama_like(arch) ==> p.head_dim * p.num_kv_heads <= usize::MAX
        &&& arch == "gpt2"@ ==> p.hidden_size * 3 <= usize::MAX
    }
}

/// Deriving the expected shapes of the configured architecture does not
/// overflow or divide by zero.
pub open spec fn shape_check_defined(cfg: ModelConfig) -> bool {
    is_checked_type(model_type_name(cfg)) ==> shape_arithmetic_ok(cfg) && layer_arithmetic_ok(
        model_type_name(cfg),
        spec_shape_params(cfg),
    )
}

/// `prefix`, the layer number, a dot and `suffix`.
pub open spec fn layer_name(prefix: Seq<char>, i: nat, suffix: Seq<char>) -> Seq<char> {
    prefix + decimal(i) + "."@ + suffix
}

/// The nine tensors of one Llama-style decoder layer.
pub open spec fn llama_layer(p: ShapeParams, i: nat) -> Seq<(Seq<char>, Seq<usize>)> {
    let h = p.hidden_size;
    let kv = (p.head_dim * p.num_kv_heads) as usize;
    let m = p.intermediate_size;
    let pre = "model.layers."@;
    seq![
        (layer_name(pre, i, "input_layernorm.weight"@), seq![h]),
        (layer_name(pre, i, "post_attention_layernorm.weight"@), seq![h]),
        (layer_name(pre, i, "self_attn.q_proj.weight"@), seq![h, h]),
        (layer_name(pre, i, "self_attn.k_proj.weight"@), seq![h, kv]),
        (layer_name(pre, i, "self_attn.v_proj.weight"@), seq![h, kv]),
        (layer_name(pre, i, "self_attn.o_proj.weight"@), seq![h, h]),
        (layer_name(pre, i, "mlp.gate_proj.weight"@), seq![h, m]),
        (layer_name(pre, i, "mlp.up_proj.weight"@), seq![h, m]),
        (layer_name(pre, i, "mlp.down_proj.weight"@), seq![m, h]),
    ]
}

/// The six tensors of one GPT-2 block.
pub open spec fn gpt2_layer(p: ShapeParams, i: nat) -> Seq<(Seq<char>, Seq<usize>)> {
    let h = p.hidden_size;
    let m = p.intermediate_size;
    let pre = "h."@;
    seq![
        (layer_name(pre, i, "ln_1.weight"@), seq![h]),
        (layer_name(pre, i, "ln_2.weight"@), seq![h]),
        (layer_name(pre, i, "attn.c_attn.weight"@), seq![h, (h * 3) as usize]),
        (layer_name(pre, i, "attn.c_proj.weight"@), seq![h, h]),
        (layer_name(pre, i, "mlp.c_fc.weight"@), seq![h, m]),
        (layer_name(pre, i, "mlp.c_proj.weight"@), seq![m, h]),
    ]
}

/// Layers `0..n` of a Llama-style model.
pub open spec fn llama_layers(p: ShapeParams, n: nat) -> Seq<(Seq<char>, Seq<usize>)>
    decreases n,
{
    if n == 0 {
        seq![]
    } else {
        llama_layers(p, (n - 1) as nat) + llama_layer(p, (n - 1) as nat)
    }
}

/// Blocks `0..n` of a GPT-2 model.
pub open spec fn gpt2_layers(p: ShapeParams, n: nat) -> Seq<(Seq<char>, Seq<usize>)>
    decreases n,
{
    if n == 0 {
        seq![]
    } else {
        gpt2_layers(p, (n - 1) as nat) + gpt2_layer(p, (n - 1) as nat)
    }
}

/// Names and shapes an architecture prescribes, in a fixed order.
pub open spec fn expected_shapes(arch: Seq<char>, p: ShapeParams) -> Seq<(Seq<char>, Seq<usize>)> {
    let v = p.vocab_size;
    let h = p.hidden_size;
    if is_llama_like(arch) {
        seq![
            ("model.embed_tokens.weight"@, seq![v, h]),
            ("lm_head.weight"@, seq![v, h]),
        ] + llama_layers(p, p.num_layers as nat)
    } else if arch == "gpt2"@ {
        seq![("wte.weight"@, seq![v, h]), ("lm_head.weight"@, seq![v, h])] + gpt2_layers(
            p,
            p.num_layers as nat,
        )
    } else {
        seq![]
    }
}

/// The shape recorded last for `name` among `(name, shape)` pairs.
pub open spec fn lookup_last(pairs: Seq<(Seq<char>, Seq<usize>)>, name: Seq<char>) -> Option<
    Seq<usize>,
>
    decreases pairs.len(),
{
    if pairs.len() == 0 {
        None
    } else if pairs.last().0 == name {
        Some(pairs.last().1)
    } else {
        lookup_last(pairs.drop_last(), name)
    }
}

/// Expected entries whose tensor is present with another shape, as
/// `(name, expected, actual)`, in the order of `expected`.
pub open spec fn mismatches(
    expected: Seq<(Seq<char>, Seq<usize>)>,
    actual: Seq<(Seq<char>, Seq<usize>)>,
) -> Seq<(Seq<char>, Seq<usize>, Seq<usize>)>
    decreases expected.len(),
{
    if expected.len() == 0 {
        seq![]
    } else {
        let e = expected.last();
        let rest = mismatches(expected.drop_last(), actual);
        match lookup_last(actual, e.0) {
            Some(a) => if a != e.1 {
                rest.push((e.0, e.1, a))
            } else {
                rest
            },
            None => rest,
        }
    }
}

/// The views of `(name, shape)` pairs.
pub open spec fn pairs_view(ps: Seq<(String, Vec<usize>)>) -> Seq<(Seq<char>, Seq<usize>)> {
    ps.map_values(|p: (String, Vec<usize>)| (p.0@, p.1@))
}

/// The views of mismatch reports.
pub open spec fn mismatches_view(ms: Seq<ShapeMismatch>) -> Seq<(Seq<char>, Seq<usize>, Seq<usize>)> {
    ms.map_values(|m: ShapeMismatch| (m.name@, m.expected@, m.actual@))
}

/// Outcome of checking the tensors `actual` against configuration `cfg`.
pub open spec fn spec_validate(actual: Seq<(Seq<char>, Seq<usize>)>, cfg: ModelConfig) -> Option<
    Seq<(Seq<char>, Seq<usize>, Seq<usize>)>,
> {
    let t = model_type_name(cfg);
    if !is_checked_type(t) {
        None
    } else {
        let ms = mismatches(expected_shapes(t, spec_shape_params(cfg)), actual);
        if ms.len() == 0 {
            None
        } else {
            Some(ms)
        }
    }
}

fn opt_field(v: Option<u64>, default: usize) -> (r: usize)
    ensures
        r == field_or(v, default as int),
{
    match v {
        Some(x) => x as usize,
        None => default,
    }
}

/// The dimensions derived from the configuration.
pub fn shape_params(cfg: &ModelConfig) -> (p: ShapeParams)
    requires
        shape_arithmetic_ok(*cfg),
    ensures
        p == spec_shape_params(*cfg),
{
    let hidden = opt_field(cfg.hidden_size, 4096);
    let heads = opt_field(cfg.num_attention_heads, 32);
    ShapeParams {
        hidden_size: hidden,
        num_heads: heads,
        num_kv_heads: opt_field(cfg.num_key_value_heads, heads),
        num_layers: opt_field(cfg.num_hidden_layers, 32),
        vocab_size: opt_field(cfg.vocab_size, 32000),
        head_dim: opt_field(cfg.head_dim, hidden / heads),
        intermediate_size: opt_field(cfg.intermediate_size, hidden * 4),
    }
}

fn string_eq_lit(s: &String, lit: &str) -> (b: bool)
    ensures
        b == (s@ == lit@),
{
    let l = String::from_str(lit);
    *s == l
}

/// The configured model type (`"unknown"` when absent).
pub fn model_type_of(cfg: &ModelConfig) -> (s: String)
    ensures
        s@ == model_type_name(*cfg),
{
    match &cfg.model_type {
        Some(s) => s.clone(),
        None => String::from_str("unknown"),
    }
}

fn is_llama_like_exec(t: &String) -> (b: bool)
    ensures
        b == is_llama_like(t@),
{
    string_eq_lit(t, "llama") || string_eq_lit(t, "mistral") || string_eq_lit(t, "gemma")
        || string_eq_lit(t, "qwen2")
}

fn is_checked_type_exec(t: &String) -> (b: bool)
    ensures
        b == is_checked_type(t@),
{
    string_eq_lit(t, "llama") || string_eq_lit(t, "mistral") || string_eq_lit(t, "gemma")
        || string_eq_lit(t, "gpt2")
}

/// Whether shape checking is defined for this configuration: `false` exactly
/// when deriving the expected shapes of a checked architecture would divide
/// by a zero head count or overflow `usize`.
pub fn shape_check_is_defined(cfg: &ModelConfig) -> (b: bool)
    ensures
        b == shape_check_defined(*cfg),
{
    let t = model_type_of(cfg);
    if !is_checked_type_exec(&t) {
        return true;
    }
    let hidden = opt_field(cfg.hidden_size, 4096);
    let heads = opt_field(cfg.num_attention_heads, 32);
    if heads == 0 || hidden > usize::MAX / 4 {
        return false;
    }
    let p = shape_params(cfg);
    if p.num_layers == 0 {
        return true;
    }
    if is_llama_like_exec(&t) {
        if p.num_kv_heads == 0 {
            true
        } else {
            let b = p.head_dim <= usize::MAX / p.num_kv_heads;
            proof {
                let a = p.head_dim as int;
                let k = p.num_kv_heads as int;
                let m = usize::MAX as int;
                assert((a <= m / k) <==> (a * k <= m)) by (nonlinear_arith)
                    requires
                        k > 0,
                        a >= 0,
                        m >= 0,
                {
                    vstd::arithmetic::div_mod::lemma_fundamental_div_mod(m, k);
                    if a <= m / k {
                        vstd::arithmetic::mul::lemma_mul_inequality(a, m / k, k);
                    }
                    if a * k <= m {
                        vstd::arithmetic::div_mod::lemma_div_is_ordered(a * k, m, k);
                        vstd::arithmetic::div_mod::lemma_div_multiples_vanish(a, k);
                    }
                }
            }
            b
        }
    } else {
        p.hidden_size <= usize::MAX / 3
    }
}


fn shape1(a: usize) -> (v: Vec<usize>)
    ensures
        v@ == seq![a],
{
    let mut v = Vec::new();
    v.push(a);
    assert(v@ =~= seq![a]);
    v
}

fn shape2(a: usize, b: usize) -> (v: Vec<usize>)
    ensures
        v@ == seq![a, b],
{
    let mut v = Vec::new();
    v.push(a);
    v.push(b);
    assert(v@ =~= seq![a, b]);
    v
}

fn layer_name_exec(prefix: &str, i: usize, suffix: &str) -> (s: String)
    ensures
        s@ == layer_name(prefix@, i as nat, suffix@),
{
    let mut s = String::from_str(prefix);
    push_decimal(&mut s, i);
    s.append(".");
    s.append(suffix);
    s
}

fn push_pair(out: &mut Vec<(String, Vec<usize>)>, name: String, shape: Vec<usize>)
    ensures
        pairs_view(final(out)@) == pairs_view(old(out)@).push((name@, shape@)),
{
    out.push((name, shape));
    assert(pairs_view(final(out)@) =~= pairs_view(old(out)@).push((name@, shape@)));
}

fn push_llama_layer(out: &mut Vec<(String, Vec<usize>)>, p: ShapeParams, i: usize)
    requires
        p.head_dim * p.num_kv_heads <= usize::MAX,
    ensures
        pairs_view(final(out)@) == pairs_view(old(out)@) + llama_layer(p, i as nat),
{
    let h = p.hidden_size;
    let kv = p.head_dim * p.num_kv_heads;
    let m = p.intermediate_size;
    let pre = "model.layers.";
    push_pair(out, layer_name_exec(pre, i, "input_layernorm.weight"), shape1(h));
    push_pair(out, layer_name_exec(pre, i, "post_attention_layernorm.weight"), shape1(h));
    push_pair(out, layer_name_exec(pre, i, "self_attn.q_proj.weight"), shape2(h, h));
    push_pair(out, layer_name_exec(pre, i, "self_attn.k_proj.weight"), shape2(h, kv));
    push_pair(out, layer_name_exec(pre, i, "self_attn.v_proj.weight"), shape2(h, kv));
    push_pair(out, layer_name_exec(pre, i, "self_attn.o_proj.weight"), shape2(h, h));
    push_pair(out, layer_name_exec(pre, i, "mlp.gate_proj.weight"), shape2(h, m));
    push_pair(out, layer_name_exec(pre, i, "mlp.up_proj.weight"), shape2(h, m));
    push_pair(out, layer_name_exec(pre, i, "mlp.down_proj.weight"), shape2(m, h));
    assert(pairs_view(final(out)@) =~= pairs_view(old(out)@) + llama_layer(p, i as nat));
}

fn push_gpt2_layer(out: &mut Vec<(String, Vec<usize>)>, p: ShapeParams, i: usize)
    requires
        p.hidden_size * 3 <= usize::MAX,
    ensures
        pairs_view(final(out)@) == pairs_view(old(out)@) + gpt2_layer(p, i as nat),
{
    let h = p.hidden_size;
    let m = p.intermediate_size;
    let pre = "h.";
    push_pair(out, layer_name_exec(pre, i, "ln_1.weight"), shape1(h));
    push_pair(out, layer_name_exec(pre, i, "ln_2.weight"), shape1(h));
    push_pair(out, layer_name_exec(pre, i, "attn.c_attn.weight"), shape2(h, h * 3));
    push_pair(out, layer_name_exec(pre, i, "attn.c_proj.weight"), shape2(h, h));
    push_pair(out, layer_name_exec(pre, i, "mlp.c_fc.weight"), shape2(h, m));
    push_pair(out, layer_name_exec(pre, i, "mlp.c_proj.weight"), shape2(m, h));
    assert(pairs_view(final(out)@) =~= pairs_view(old(out)@) + gpt2_layer(p, i as nat));
}

/// Names and shapes that architecture `arch` prescribes for configuration
/// `config`: embeddings and output head, then every layer in order; empty
/// for architectures without a table.
fn get_expected_shapes_for_architecture(arch: &str, config: &ModelConfig) -> (res: Vec<
    (String, Vec<usize>),
>)
    requires
        shape_arithmetic_ok(*config),
        layer_arithmetic_ok(arch@, spec_shape_params(*config)),
    ensures
        pairs_view(res@) == expected_shapes(arch@, spec_shape_params(*config)),
{
    let p = shape_params(config);
    let a = String::from_str(arch);
    let mut out: Vec<(String, Vec<usize>)> = Vec::new();
    let llama_like = is_llama_like_exec(&a);
    let gpt2 = string_eq_lit(&a, "gpt2");
    if !llama_like && !gpt2 {
        assert(pairs_view(out@) =~= seq![]);
        return out;
    }
    let v = p.vocab_size;
    let h = p.hidden_size;
    if llama_like {
        push_pair(&mut out, String::from_str("model.embed_tokens.weight"), shape2(v, h));
    } else {
        push_pair(&mut out, String::from_str("wte.weight"), shape2(v, h));
    }
    push_pair(&mut out, String::from_str("lm_head.weight"), shape2(v, h));
    let ghost head = pairs_view(out@);
    let n = p.num_layers;
    let mut i: usize = 0;
    assert(pairs_view(out@) =~= head + llama_layers(p, 0));
    assert(pairs_view(out@) =~= head + gpt2_layers(p, 0));
    while i < n
        invariant
            i <= n,
            n == p.num_layers,
            n > 0 ==> (llama_like ==> p.head_dim * p.num_kv_heads <= usize::MAX),
            n > 0 ==> (!llama_like ==> p.hidden_size * 3 <= usize::MAX),
            llama_like ==> pairs_view(out@) == head + llama_layers(p, i as nat),
            !llama_like ==> pairs_view(out@) == head + gpt2_layers(p, i as nat),
        decreases n - i,
    {
        let ghost before = pairs_view(out@);
        if llama_like {
            push_llama_layer(&mut out, p, i);
            assert(pairs_view(out@) =~= head + llama_layers(p, (i + 1) as nat));
        } else {
            push_gpt2_layer(&mut out, p, i);
            assert(pairs_view(out@) =~= head + gpt2_layers(p, (i + 1) as nat));
        }
        i += 1;
    }
    out
}


fn find_last(pairs: &[(String, Vec<usize>)], name: &String) -> (res: Option<usize>)
    ensures
        match lookup_last(pairs_view(pairs@), name@) {
            None => res is None,
            Some(a) => res matches Some(k) && k < pairs@.len() && pairs@[k as int].1@ == a,
        },
{
    let ghost pv = pairs_view(pairs@);
    let mut j = pairs.len();
    assert(pv.take(j as int) =~= pv);
    while j > 0
        invariant
            j <= pairs@.len(),
            pv == pairs_view(pairs@),
            lookup_last(pv, name@) == lookup_last(pv.take(j as int), name@),
        decreases j,
    {
        let ghost tj = pv.take(j as int);
        assert(tj.last() == (pairs@[j - 1].0@, pairs@[j - 1].1@));
        if pairs[j - 1].0 == *name {
            return Some(j - 1);
        }
        assert(tj.drop_last() =~= pv.take(j - 1));
        j -= 1;
    }
    None
}

fn shapes_equal(a: &[usize], b: &[usize]) -> (eq: bool)
    ensures
        eq == (a@ == b@),
{
    if a.len() != b.len() {
        return false;
    }
    let mut i: usize = 0;
    while i < a.len()
        invariant
            a@.len() == b@.len(),
            i <= a@.len(),
            forall|k: int| 0 <= k < i ==> a@[k] == b@[k],
        decreases a@.len() - i,
    {
        if a[i] != b[i] {
            return false;
        }
        i += 1;
    }
    assert(a@ =~= b@);
    true
}

/// Checks the tensor shapes against the architecture named by the
/// configuration. Unknown architectures pass unchecked; tensors the
/// architecture prescribes but the model lacks are skipped; otherwise every
/// tensor whose shape differs is reported, in the architecture's order.
pub fn validate_tensor_shapes(tensor_names: &[(String, Vec<usize>)], config: &ModelConfig) -> (res:
    Result<(), Vec<ShapeMismatch>>)
    requires
        shape_check_defined(*config),
    ensures
        match spec_validate(pairs_view(tensor_names@), *config) {
            None => res is Ok,
            Some(ms) => res matches Err(v) && mismatches_view(v@) == ms,
        },
{
    let t = model_type_of(config);
    if !is_checked_type_exec(&t) {
        return Ok(());
    }
    let expected = get_expected_shapes_for_architecture(t.as_str(), config);
    let ghost ev = pairs_view(expected@);
    let ghost av = pairs_view(tensor_names@);
    let mut errors: Vec<ShapeMismatch> = Vec::new();
    let mut i: usize = 0;
    assert(ev.take(0) =~= Seq::<(Seq<char>, Seq<usize>)>::empty());
    while i < expected.len()
        invariant
            i <= expected@.len(),
            ev == pairs_view(expected@),
            av == pairs_view(tensor_names@),
            mismatches_view(errors@) == mismatches(ev.take(i as int), av),
        decreases expected@.len() - i,
    {
        let (name, shape) = &expected[i];
        let ghost ti = ev.take(i + 1);
        assert(ti.drop_last() =~= ev.take(i as int));
        assert(ti.last() == (name@, shape@));
        match find_last(tensor_names, name) {
            Some(k) => {
                let actual = &tensor_names[k].1;
                if !shapes_equal(actual.as_slice(), shape.as_slice()) {
                    let m = ShapeMismatch {
                        name: name.clone(),
                        expected: vstd::slice::slice_to_vec(shape.as_slice()),
                        actual: vstd::slice::slice_to_vec(actual.as_slice()),
                    };
                    let ghost before = errors@;
                    errors.push(m);
                    assert(mismatches_view(errors@) =~= mismatches_view(before).push(
                        (name@, shape@, actual@),
                    ));
                }
            },
            None => {},
        }
        i += 1;
    }
    assert(ev.take(expected@.len() as int) =~= ev);
    if errors.len() == 0 {
        Ok(())
    } else {
        Err(errors)
    }
}

/// The sizes in decimal, separated by `", "`.
pub open spec fn dims_list(d: Seq<usize>) -> Seq<char>
    decreases d.len(),
{
    if d.len() == 0 {
        seq![]
    } else if d.len() == 1 {
        decimal(d[0] as nat)
    } else {
        dims_list(d.drop_last()) + ", "@ + decimal(d.last() as nat)
    }
}

/// A shape written as a bracketed list, as `{:?}` prints a `Vec<usize>`.
pub open spec fn dims_text(d: Seq<usize>) -> Seq<char> {
    "["@ + dims_list(d) + "]"@
}

/// One line of a shape report: `name: expected [..], got [..]`.
pub open spec fn mismatch_line(m: (Seq<char>, Seq<usize>, Seq<usize>)) -> Seq<char> {
    m.0 + ": expected "@ + dims_text(m.1) + ", got "@ + dims_text(m.2)
}

/// The lines of all mismatches, separated by newlines.
pub open spec fn mismatch_lines(ms: Seq<(Seq<char>, Seq<usize>, Seq<usize>)>) -> Seq<char>
    decreases ms.len(),
{
    if ms.len() == 0 {
        seq![]
    } else if ms.len() == 1 {
        mismatch_line(ms[0])
    } else {
        mismatch_lines(ms.drop_last()) + "\n"@ + mismatch_line(ms.last())
    }
}

/// The report of a failed shape check.
pub open spec fn mismatch_report(ms: Seq<(Seq<char>, Seq<usize>, Seq<usize>)>) -> Seq<char> {
    "Shape validation failed:\n"@ + mismatch_lines(ms)
}

fn push_dims(s: &mut String, d: &[usize])
    ensures
        final(s)@ == old(s)@ + dims_text(d@),
{
    let ghost start = s@;
    s.append("[");
    let mut i: usize = 0;
    while i < d.len()
        invariant
            i <= d@.len(),
            s@ == start + "["@ + dims_list(d@.take(i as int)),
        decreases d@.len() - i,
    {
        let ghost before = s@;
        if i > 0 {
            s.append(", ");
        }
        push_decimal(s, d[i]);
        proof {
            let t = d@.take(i + 1);
            assert(t.drop_last() =~= d@.take(i as int));
            assert(t.last() == d@[i as int]);
            if i == 0 {
                assert(dims_list(d@.take(0)) =~= Seq::<char>::empty());
                assert(s@ =~= start + "["@ + dims_list(t));
            } else {
                assert(s@ =~= start + "["@ + dims_list(t));
            }
        }
        i += 1;
    }
    assert(d@.take(d@.len() as int) =~= d@);
    s.append("]");
    assert(s@ =~= start + dims_text(d@));
}

/// The message reporting shape mismatches: a heading, then one line per
/// mismatch in order, `name: expected [..], got [..]`.
pub fn describe_mismatches(errors: &[ShapeMismatch]) -> (s: String)
    ensures
        s@ == mismatch_report(mismatches_view(errors@)),
{
    let ghost ms = mismatches_view(errors@);
    let mut s = String::new();
    s.append("Shape validation failed:\n");
    let ghost head = s@;
    let mut i: usize = 0;
    while i < errors.len()
        invariant
            i <= errors@.len(),
            ms == mismatches_view(errors@),
            s@ == head + mismatch_lines(ms.take(i as int)),
            head == "Shape validation failed:\n"@,
        decreases errors@.len() - i,
    {
        let ghost before = s@;
        if i > 0 {
            s.append("\n");
        }
        let m = &errors[i];
        s.append(m.name.as_str());
        s.append(": expected ");
        push_dims(&mut s, m.expected.as_slice());
        s.append(", got ");
        push_dims(&mut s, m.actual.as_slice());
        proof {
            let t = ms.take(i + 1);
            assert(t.drop_last() =~= ms.take(i as int));
            assert(t.last() == ms[i as int]);
            assert(ms[i as int] == (m.name@, m.expected@, m.actual@));
            if i == 0 {
                assert(mismatch_lines(ms.take(0)) =~= Seq::<char>::empty());
            }
            assert(s@ =~= head + mismatch_lines(t));
        }
        i += 1;
    }
    assert(ms.take(ms.len() as int) =~= ms);
    s
}

proof fn lemma_llama_layers_index(p: ShapeParams, n: nat, i: int, j: int)
    requires
        0 <= i < n,
        0 <= j < 9,
    ensures
        llama_layers(p, n).len() == 9 * n,
        llama_layers(p, n)[9 * i + j] == llama_layer(p, i as nat)[j],
    decreases n,
{
    let prev = llama_layers(p, (n - 1) as nat);
    if n > 1 {
        lemma_llama_layers_len(p, (n - 1) as nat);
    }
    assert(llama_layers(p, n) == prev + llama_layer(p, (n - 1) as nat));
    if i < n - 1 {
        lemma_llama_layers_index(p, (n - 1) as nat, i, j);
    }
    assert(prev.len() == 9 * (n - 1)) by {
        lemma_llama_layers_len(p, (n - 1) as nat);
    }
}

proof fn lemma_llama_layers_len(p: ShapeParams, n: nat)
    ensures
        llama_layers(p, n).len() == 9 * n,
    decreases n,
{
    if n > 0 {
        lemma_llama_layers_len(p, (n - 1) as nat);
    }
}

proof fn lemma_gpt2_layers_len(p: ShapeParams, n: nat)
    ensures
        gpt2_layers(p, n).len() == 6 * n,
    decreases n,
{
    if n > 0 {
        lemma_gpt2_layers_len(p, (n - 1) as nat);
    }
}

proof fn lemma_gpt2_layers_index(p: ShapeParams, n: nat, i: int, j: int)
    requires
        0 <= i < n,
        0 <= j < 6,
    ensures
        gpt2_layers(p, n)[6 * i + j] == gpt2_layer(p, i as nat)[j],
    decreases n,
{
    lemma_gpt2_layers_len(p, (n - 1) as nat);
    assert(gpt2_layers(p, n) == gpt2_layers(p, (n - 1) as nat) + gpt2_layer(p, (n - 1) as nat));
    if i < n - 1 {
        lemma_gpt2_layers_index(p, (n - 1) as nat, i, j);
    }
}

/// `model.layers.<i>.<suffix>`.
pub open spec fn llama_tensor_name(i: nat, suffix: Seq<char>) -> Seq<char> {
    "model.layers."@ + decimal(i) + "."@ + suffix
}

/// The table of a Llama-style architecture (Llama, Mistral, Gemma, Qwen2):
/// the token embedding and the output head, both `[vocab, hidden]`, then
/// nine tensors per layer, in layer order: the two norms `[hidden]`, the
/// query projection `[hidden, hidden]`, the key and value projections
/// `[hidden, head_dim * kv_heads]`, the output projection `[hidden, hidden]`,
/// the MLP gate `[hidden, intermediate]`, the MLP up-projection
/// `[hidden, intermediate]` and the MLP down-projection `[intermediate, hidden]`.
pub proof fn lemma_llama_table(arch: Seq<char>, p: ShapeParams, i: nat)
    requires
        is_llama_like(arch),
        i < p.num_layers,
        p.head_dim * p.num_kv_heads <= usize::MAX,
    ensures
        ({
            let t = expected_shapes(arch, p);
            let h = p.hidden_size;
            let m = p.intermediate_size;
            let kv = (p.head_dim * p.num_kv_heads) as usize;
            let b: int = 2 + 9 * (i as int);
            &&& kv == p.head_dim * p.num_kv_heads
            &&& t.len() == 2 + 9 * p.num_layers
            &&& t[0] == ("model.embed_tokens.weight"@, seq![p.vocab_size, h])
            &&& t[1] == ("lm_head.weight"@, seq![p.vocab_size, h])
            &&& t[b] == (llama_tensor_name(i, "input_layernorm.weight"@), seq![h])
            &&& t[b + 1] == (llama_tensor_name(i, "post_attention_layernorm.weight"@), seq![h])
            &&& t[b + 2] == (llama_tensor_name(i, "self_attn.q_proj.weight"@), seq![h, h])
            &&& t[b + 3] == (llama_tensor_name(i, "self_attn.k_proj.weight"@), seq![h, kv])
            &&& t[b + 4] == (llama_tensor_name(i, "self_attn.v_proj.weight"@), seq![h, kv])
            &&& t[b + 5] == (llama_tensor_name(i, "self_attn.o_proj.weight"@), seq![h, h])
            &&& t[b + 6] == (llama_tensor_name(i, "mlp.gate_proj.weight"@), seq![h, m])
            &&& t[b + 7] == (llama_tensor_name(i, "mlp.up_proj.weight"@), seq![h, m])
            &&& t[b + 8] == (llama_tensor_name(i, "mlp.down_proj.weight"@), seq![m, h])
        }),
{
    let n = p.num_layers as nat;
    let head = seq![
        ("model.embed_tokens.weight"@, seq![p.vocab_size, p.hidden_size]),
        ("lm_head.weight"@, seq![p.vocab_size, p.hidden_size]),
    ];
    let layers = llama_layers(p, n);
    let t = expected_shapes(arch, p);
    assert(t == head + layers);
    lemma_llama_layers_len(p, n);
    let l = llama_layer(p, i);
    let b: int = 2 + 9 * (i as int);
    assert forall|j: int| 0 <= j < 9 implies #[trigger] t[b + j] == l[j] by {
        lemma_llama_layers_index(p, n, i as int, j);
        assert(t[b + j] == layers[9 * i + j]);
    }
    assert(t[b + 0] == l[0]);
    assert(b + 0 == b);
    assert(t[b] == l[0]);
    assert(t[b + 1] == l[1]);
    assert(t[b + 2] == l[2]);
    assert(t[b + 3] == l[3]);
    assert(t[b + 4] == l[4]);
    assert(t[b + 5] == l[5]);
    assert(t[b + 6] == l[6]);
    assert(t[b + 7] == l[7]);
    assert(t[b + 8] == l[8]);
}

/// `h.<i>.<suffix>`.
pub open spec fn gpt2_tensor_name(i: nat, suffix: Seq<char>) -> Seq<char> {
    "h."@ + decimal(i) + "."@ + suffix
}

/// The GPT-2 table: the token embedding `wte.weight` and the output head,
/// both `[vocab, hidden]`, then six tensors per block, in block order: the
/// two norms `[hidden]`, the fused attention input `[hidden, 3 * hidden]`,
/// the attention output `[hidden, hidden]`, the MLP input
/// `[hidden, intermediate]` and the MLP output `[intermediate, hidden]`.
pub proof fn lemma_gpt2_table(p: ShapeParams, i: nat)
    requires
        i < p.num_layers,
        p.hidden_size * 3 <= usize::MAX,
    ensures
        ({
            let t = expected_shapes("gpt2"@, p);
            let h = p.hidden_size;
            let m = p.intermediate_size;
            let b: int = 2 + 6 * (i as int);
            &&& t.len() == 2 + 6 * p.num_layers
            &&& t[0] == ("wte.weight"@, seq![p.vocab_size, h])
            &&& t[1] == ("lm_head.weight"@, seq![p.vocab_size, h])
            &&& t[b] == (gpt2_tensor_name(i, "ln_1.weight"@), seq![h])
            &&& t[b + 1] == (gpt2_tensor_name(i, "ln_2.weight"@), seq![h])
            &&& t[b + 2].0 == gpt2_tensor_name(i, "attn.c_attn.weight"@)
            &&& t[b + 2].1.len() == 2 && t[b + 2].1[0] == h && t[b + 2].1[1] == 3 * h
            &&& t[b + 3] == (gpt2_tensor_name(i, "attn.c_proj.weight"@), seq![h, h])
            &&& t[b + 4] == (gpt2_tensor_name(i, "mlp.c_fc.weight"@), seq![h, m])
            &&& t[b + 5] == (gpt2_tensor_name(i, "mlp.c_proj.weight"@), seq![m, h])
        }),
{
    reveal_strlit("gpt2");
    reveal_strlit("llama");
    reveal_strlit("mistral");
    reveal_strlit("gemma");
    reveal_strlit("qwen2");
    let n = p.num_layers as nat;
    let head = seq![
        ("wte.weight"@, seq![p.vocab_size, p.hidden_size]),
        ("lm_head.weight"@, seq![p.vocab_size, p.hidden_size]),
    ];
    let t = expected_shapes("gpt2"@, p);
    assert("gpt2"@.len() == 4);
    assert("llama"@.len() == 5 && "gemma"@.len() == 5 && "qwen2"@.len() == 5);
    assert("mistral"@.len() == 7);
    assert(!is_llama_like("gpt2"@));
    let layers = gpt2_layers(p, n);
    assert(t == head + layers);
    lemma_gpt2_layers_len(p, n);
    let l = gpt2_layer(p, i);
    let b: int = 2 + 6 * (i as int);
    assert forall|j: int| 0 <= j < 6 implies #[trigger] t[b + j] == l[j] by {
        lemma_gpt2_layers_index(p, n, i as int, j);
        assert(t[b + j] == layers[6 * i + j]);
    }
    assert(t[b + 0] == l[0]);
    assert(b + 0 == b);
    assert(t[b] == l[0]);
    assert(t[b + 1] == l[1]);
    assert(t[b + 2] == l[2]);
    assert(t[b + 3] == l[3]);
    assert(t[b + 4] == l[4]);
    assert(t[b + 5] == l[5]);
}

/// The shape recorded last: `Some(s)` when some pair `(name, s)` has no later
/// pair of the same name, and `None` exactly when no pair carries the name.
pub proof fn lemma_lookup_last(pairs: Seq<(Seq<char>, Seq<usize>)>, name: Seq<char>)
    ensures
        lookup_last(pairs, name) is None <==> forall|j: int|
            0 <= j < pairs.len() ==> (#[trigger] pairs[j]).0 != name,
        lookup_last(pairs, name) matches Some(s) ==> exists|i: int|
            0 <= i < pairs.len() && pairs[i] == (name, s) && forall|j: int|
                i < j < pairs.len() ==> (#[trigger] pairs[j]).0 != name,
    decreases pairs.len(),
{
    if pairs.len() > 0 {
        let d = pairs.drop_last();
        lemma_lookup_last(d, name);
        let last = pairs.len() - 1;
        assert(pairs[last] == pairs.last());
        assert forall|j: int| 0 <= j < d.len() implies #[trigger] d[j] == pairs[j] by {}
        if pairs.last().0 == name {
            assert(pairs[last] == (name, pairs.last().1));
        } else {
            if lookup_last(d, name) is None {
                assert forall|j: int| 0 <= j < pairs.len() implies (#[trigger] pairs[j]).0
                    != name by {
                    if j < last {
                        assert(d[j] == pairs[j]);
                    }
                }
            } else {
                let s = lookup_last(d, name).unwrap();
                let i = choose|i: int|
                    0 <= i < d.len() && d[i] == (name, s) && forall|j: int|
                        i < j < d.len() ==> (#[trigger] d[j]).0 != name;
                assert(pairs[i] == (name, s));
                assert forall|j: int| i < j < pairs.len() implies (#[trigger] pairs[j]).0
                    != name by {
                    if j < last {
                        assert(d[j] == pairs[j]);
                    }
                }
                assert(d[i].0 == name);
            }
        }
    }
}

proof fn lemma_mismatches_empty(
    expected: Seq<(Seq<char>, Seq<usize>)>,
    actual: Seq<(Seq<char>, Seq<usize>)>,
)
    ensures
        mismatches(expected, actual).len() == 0 <==> forall|k: int|
            0 <= k < expected.len() ==> lookup_last(actual, (#[trigger] expected[k]).0) is None
                || lookup_last(actual, expected[k].0) == Some(expected[k].1),
    decreases expected.len(),
{
    if expected.len() > 0 {
        let d = expected.drop_last();
        lemma_mismatches_empty(d, actual);
        let last = expected.len() - 1;
        assert(expected[last] == expected.last());
        assert forall|k: int| 0 <= k < d.len() implies #[trigger] d[k] == expected[k] by {}
        let rest = mismatches(d, actual);
        let e = expected.last();
        if mismatches(expected, actual).len() == 0 {
            match lookup_last(actual, e.0) {
                Some(a) => {
                    if a != e.1 {
                        assert(mismatches(expected, actual) == rest.push((e.0, e.1, a)));
                    }
                },
                None => {},
            }
            assert forall|k: int|
                0 <= k < expected.len() implies lookup_last(actual, (#[trigger] expected[k]).0)
                is None || lookup_last(actual, expected[k].0) == Some(expected[k].1) by {
                if k < last {
                    assert(d[k] == expected[k]);
                }
            }
        } else {
            match lookup_last(actual, e.0) {
                Some(a) => {
                    if a != e.1 {
                        assert(lookup_last(actual, expected[last].0) == Some(a));
                    } else {
                        let k = choose|k: int|
                            0 <= k < d.len() && !(lookup_last(actual, (#[trigger] d[k]).0) is None
                                || lookup_last(actual, d[k].0) == Some(d[k].1));
                        assert(d[k] == expected[k]);
                    }
                },
                None => {
                    let k = choose|k: int|
                        0 <= k < d.len() && !(lookup_last(actual, (#[trigger] d[k]).0) is None
                            || lookup_last(actual, d[k].0) == Some(d[k].1));
                    assert(d[k] == expected[k]);
                },
            }
        }
    }
}

/// What the shape check decides: model types other than llama, mistral,
/// gemma and gpt2 always pass; for those four the check passes exactly when
/// every tensor the architecture prescribes is either absent or recorded
/// last with the prescribed shape.
pub proof fn lemma_validate_passes(actual: Seq<(Seq<char>, Seq<usize>)>, cfg: ModelConfig)
    ensures
        !is_checked_type(model_type_name(cfg)) ==> spec_validate(actual, cfg) is None,
        is_checked_type(model_type_name(cfg)) ==> (spec_validate(actual, cfg) is None <==> forall|
            k: int,
        |
            0 <= k < expected_shapes(model_type_name(cfg), spec_shape_params(cfg)).len() ==> {
                let e = #[trigger] expected_shapes(model_type_name(cfg), spec_shape_params(cfg))[k];
                lookup_last(actual, e.0) is None || lookup_last(actual, e.0) == Some(e.1)
            }),
{
    let ex = expected_shapes(model_type_name(cfg), spec_shape_params(cfg));
    lemma_mismatches_empty(ex, actual);
}

/// Absent configuration fields take the dimensions of a 7B Llama: hidden
/// size 4096, 32 attention heads, as many key/value heads as attention heads,
/// 32 layers, a vocabulary of 32000, a head dimension of hidden size over
/// heads and an intermediate size of four times the hidden size; a field
/// that is given is used as it is.
pub proof fn lemma_shape_param_defaults(cfg: ModelConfig)
    ensures
        ({
            let p = spec_shape_params(cfg);
            &&& p.hidden_size == (match cfg.hidden_size {
                Some(x) => x as usize,
                None => 4096usize,
            })
            &&& p.num_heads == (match cfg.num_attention_heads {
                Some(x) => x as usize,
                None => 32usize,
            })
            &&& p.num_kv_heads == (match cfg.num_key_value_heads {
                Some(x) => x as usize,
                None => p.num_heads,
            })
            &&& p.num_layers == (match cfg.num_hidden_layers {
                Some(x) => x as usize,
                None => 32usize,
            })
            &&& p.vocab_size == (match cfg.vocab_size {
                Some(x) => x as usize,
                None => 32000usize,
            })
            &&& p.num_heads != 0 && cfg.head_dim is None ==> p.head_dim == p.hidden_size
                / p.num_heads
            &&& cfg.head_dim matches Some(x) ==> p.head_dim == x as usize
            &&& 4 * p.hidden_size <= usize::MAX && cfg.intermediate_size is None
                ==> p.intermediate_size == 4 * p.hidden_size
            &&& cfg.intermediate_size matches Some(x) ==> p.intermediate_size == x as usize
        }),
{
}

} // verus!
