use vstd::prelude::*;
use vstd::utf8::{encode_utf8, encode_utf8_valid_utf8, encode_utf8_decode_utf8};
use crate::codec::{zstd_decode_all, zstd_encode_all};
use crate::compile::{
    SourceTensor, CompiledModel, METADATA_ZSTD_LEVEL, source_records, compiled_file,
    sources_consistent, sources_match, compiled_from, name_hash, safetensors_tensors,
};
use crate::metadata::json_parses;
use crate::engine::{IndexEntry, index_map, spec_load, shape_numel, LoadError};
use crate::format::ALIGNMENT_BOUNDARY;
use crate::layout::{TensorRecord, payload_offset};
use crate::roundtrip::{
    expected_entries, shapes_encodable, lemma_load_written_file, lemma_payload_at_offset,
};
use crate::sort::{sorted_by_key, stable_sort_by_key, lemma_stable_sort};
use crate::tensor::{
    SourceDtype, processed_payload, lemma_widen_len, f16_to_f32_bits, normalize_mantissa,
};
use vstd::arithmetic::power2::{
    pow2, lemma_pow2_unfold, lemma2_to64, lemma_pow2_strictly_increases,
};
use crate::validator::{
    ShapeParams, ModelConfig, expected_shapes, lookup_last, mismatches, spec_validate,
    model_type_name, spec_shape_params, is_checked_type,
};

verus! {

/// The lookup table holds exactly the hashes of the entries.
pub proof fn lemma_index_map_keys(es: Seq<IndexEntry>, h: u64)
    ensures
        index_map(es).contains_key(h) <==> exists|j: int| 0 <= j < es.len() && es[j].hash == h,
    decreases es.len(),
{
    if es.len() > 0 {
        lemma_index_map_keys(es.drop_last(), h);
        if index_map(es.drop_last()).contains_key(h) {
            let j = choose|j: int| 0 <= j < es.len() - 1 && es.drop_last()[j].hash == h;
            assert(es[j].hash == h);
        }
        if exists|j: int| 0 <= j < es.len() && es[j].hash == h {
            let j = choose|j: int| 0 <= j < es.len() && es[j].hash == h;
            if j < es.len() - 1 {
                assert(es.drop_last()[j].hash == h);
            }
        }
    }
}

/// For a hash carried by several entries, the lookup table keeps the last one.
pub proof fn lemma_index_map_last(es: Seq<IndexEntry>, i: int)
    requires
        0 <= i < es.len(),
        forall|j: int| i < j < es.len() ==> #[trigger] es[j].hash != es[i].hash,
    ensures
        index_map(es).contains_key(es[i].hash),
        index_map(es)[es[i].hash] == es[i],
    decreases es.len(),
{
    if i < es.len() - 1 {
        let d = es.drop_last();
        assert forall|j: int| i < j < d.len() implies #[trigger] d[j].hash != d[i].hash by {
            assert(d[j] == es[j]);
        }
        lemma_index_map_last(d, i);
        assert(es.last().hash != es[i].hash);
    }
}

/// Every payload starts on a 256-byte boundary.
pub proof fn lemma_payload_aligned(ts: Seq<TensorRecord>, i: int)
    ensures
        payload_offset(ts, i) % (ALIGNMENT_BOUNDARY as int) == 0,
{
}

proof fn lemma_sorted_elements<'a>(srcs: Seq<SourceTensor<'a>>)
    ensures
        ({
            let rs = source_records(srcs);
            let ts = stable_sort_by_key(rs);
            &&& ts.len() == rs.len()
            &&& ts.to_multiset() == rs.to_multiset()
            &&& forall|k: int| 0 <= k < ts.len() ==> rs.contains(#[trigger] ts[k])
            &&& forall|k: int| 0 <= k < rs.len() ==> ts.contains(#[trigger] rs[k])
        }),
{
    broadcast use vstd::seq_lib::group_to_multiset_ensures;

    let rs = source_records(srcs);
    let ts = stable_sort_by_key(rs);
    lemma_stable_sort(rs);
    assert forall|k: int| 0 <= k < ts.len() implies rs.contains(#[trigger] ts[k]) by {
        assert(ts.contains(ts[k]));
        assert(ts.to_multiset().count(ts[k]) > 0);
    }
    assert forall|k: int| 0 <= k < rs.len() implies ts.contains(#[trigger] rs[k]) by {
        assert(rs.contains(rs[k]));
        assert(rs.to_multiset().count(rs[k]) > 0);
    }
}

/// The index of a compiled file lists every source tensor exactly as often as
/// the source does, in non-decreasing hash order (so it can be binary searched).
pub proof fn lemma_compiled_index_sorted<'a>(srcs: Seq<SourceTensor<'a>>)
    ensures
        sorted_by_key(stable_sort_by_key(source_records(srcs))),
        stable_sort_by_key(source_records(srcs)).to_multiset() == source_records(srcs).to_multiset(),
        forall|i: int, j: int|
            0 <= i <= j < srcs.len() ==> #[trigger] expected_entries(
                stable_sort_by_key(source_records(srcs)),
            )[i].hash <= #[trigger] expected_entries(
                stable_sort_by_key(source_records(srcs)),
            )[j].hash,
{
    lemma_stable_sort(source_records(srcs));
}

/// Every source shape fits the index encoding.
pub open spec fn source_shapes_encodable<'a>(srcs: Seq<SourceTensor<'a>>) -> bool {
    forall|i: int|
        0 <= i < srcs.len() ==> {
            &&& (#[trigger] srcs[i]).shape@.len() <= 255
            &&& forall|k: int|
                0 <= k < srcs[i].shape@.len() ==> #[trigger] srcs[i].shape@[k] <= u32::MAX
        }
}

/// Opening a compiled file gives back the metadata JSON that went in and one
/// index entry per source tensor, in hash order, each at the offset its
/// payload was written at.
pub proof fn lemma_compile_then_load<'a>(srcs: Seq<SourceTensor<'a>>, json: Seq<char>)
    requires
        source_shapes_encodable(srcs),
        json_parses(json),
        zstd_decode_all(zstd_encode_all(encode_utf8(json), 3)) == Some(encode_utf8(json)),
        compiled_file(srcs, zstd_encode_all(encode_utf8(json), 3)).len() <= u64::MAX,
    ensures
        spec_load(compiled_file(srcs, zstd_encode_all(encode_utf8(json), 3))) == Ok::<
            (Seq<IndexEntry>, Seq<char>),
            LoadError,
        >((expected_entries(stable_sort_by_key(source_records(srcs))), json)),
{
    let rs = source_records(srcs);
    let ts = stable_sort_by_key(rs);
    lemma_sorted_elements(srcs);
    assert forall|i: int| 0 <= i < ts.len() implies {
        &&& (#[trigger] ts[i]).shape.len() <= 255
        &&& forall|k: int| 0 <= k < ts[i].shape.len() ==> #[trigger] ts[i].shape[k] <= u32::MAX
    } by {
        assert(rs.contains(ts[i]));
        let j = choose|j: int| 0 <= j < rs.len() && rs[j] == ts[i];
        assert(rs[j] == srcs[j].record());
    }
    assert(shapes_encodable(ts));
    encode_utf8_valid_utf8(json);
    encode_utf8_decode_utf8(json);
    lemma_load_written_file(ts, zstd_encode_all(encode_utf8(json), 3), encode_utf8(json));
}

/// A source tensor whose name hash no other source shares is found in the
/// compiled file under that hash, with its shape, and the four bytes per
/// element stored at its offset are its F32 (or widened F16/BF16) payload.
proof fn lemma_position_in_sorted<'a>(srcs: Seq<SourceTensor<'a>>, i: int) -> (k: int)
    requires
        0 <= i < srcs.len(),
    ensures
        0 <= k < stable_sort_by_key(source_records(srcs)).len(),
        stable_sort_by_key(source_records(srcs))[k] == srcs[i].record(),
{
    let rs = source_records(srcs);
    let ts = stable_sort_by_key(rs);
    lemma_sorted_elements(srcs);
    assert(rs[i] == srcs[i].record());
    assert(ts.contains(rs[i]));
    choose|k: int| 0 <= k < ts.len() && ts[k] == rs[i]
}

#[verifier::spinoff_prover]
pub proof fn lemma_compiled_tensor_readable<'a>(srcs: Seq<SourceTensor<'a>>, meta: Seq<u8>, i: int)
    requires
        sources_consistent(srcs),
        0 <= i < srcs.len(),
        srcs[i].dtype != SourceDtype::Other,
        forall|j: int|
            0 <= j < srcs.len() && j != i ==> name_hash(#[trigger] srcs[j].name@) != name_hash(
                srcs[i].name@,
            ),
        compiled_file(srcs, meta).len() <= u64::MAX,
    ensures
        ({
            let es = expected_entries(stable_sort_by_key(source_records(srcs)));
            let h = name_hash(srcs[i].name@);
            let e = index_map(es)[h];
            let d = compiled_file(srcs, meta);
            &&& index_map(es).contains_key(h)
            &&& e.shape == srcs[i].shape@
            &&& e.offset + 4 * shape_numel(e.shape) <= d.len()
            &&& d.subrange(e.offset as int, e.offset + 4 * shape_numel(e.shape)) == processed_payload(
                srcs[i].data@,
                srcs[i].dtype,
            )
        }),
{
    let rs = source_records(srcs);
    let ts = stable_sort_by_key(rs);
    let es = expected_entries(ts);
    let r = srcs[i].record();
    let k = lemma_position_in_sorted(srcs, i);
    lemma_later_hashes_differ(srcs, i, k);
    assert(es[k].hash == name_hash(srcs[i].name@));
    assert(es[k].shape == srcs[i].shape@);
    assert(r.data == processed_payload(srcs[i].data@, srcs[i].dtype));
    lemma_index_map_last(es, k);
    lemma_payload_at_offset(ts, meta, k);
    if srcs[i].dtype == SourceDtype::F16 || srcs[i].dtype == SourceDtype::BF16 {
        lemma_widen_len(srcs[i].data@, srcs[i].dtype == SourceDtype::BF16);
    }
}

/// Every source tensor name is known to the engine after compilation
/// (`contains_tensor` answers `true` for it).
pub proof fn lemma_compiled_names_present<'a>(srcs: Seq<SourceTensor<'a>>, i: int)
    requires
        0 <= i < srcs.len(),
    ensures
        index_map(expected_entries(stable_sort_by_key(source_records(srcs)))).contains_key(
            name_hash(srcs[i].name@),
        ),
{
    let es = expected_entries(stable_sort_by_key(source_records(srcs)));
    let k = lemma_position_in_sorted(srcs, i);
    assert(es[k].hash == name_hash(srcs[i].name@));
    lemma_index_map_keys(es, name_hash(srcs[i].name@));
}

proof fn lemma_later_hashes_differ<'a>(srcs: Seq<SourceTensor<'a>>, i: int, k: int)
    requires
        0 <= i < srcs.len(),
        forall|j: int|
            0 <= j < srcs.len() && j != i ==> name_hash(#[trigger] srcs[j].name@) != name_hash(
                srcs[i].name@,
            ),
        0 <= k < stable_sort_by_key(source_records(srcs)).len(),
        stable_sort_by_key(source_records(srcs))[k] == srcs[i].record(),
    ensures
        forall|j: int|
            k < j < stable_sort_by_key(source_records(srcs)).len() ==> #[trigger] expected_entries(
                stable_sort_by_key(source_records(srcs)),
            )[j].hash != expected_entries(stable_sort_by_key(source_records(srcs)))[k].hash,
{
    let rs = source_records(srcs);
    let ts = stable_sort_by_key(rs);
    let es = expected_entries(ts);
    let r = srcs[i].record();
    lemma_sorted_elements(srcs);
    assert(rs[i] == r);
    lemma_count_one(rs, i, srcs);
    assert forall|j: int| k < j < ts.len() implies #[trigger] es[j].hash != es[k].hash by {
        assert(rs.contains(ts[j]));
        let m = choose|m: int| 0 <= m < rs.len() && rs[m] == ts[j];
        assert(rs[m] == srcs[m].record());
        if m == i {
            lemma_count_two(ts, k, j);
        }
    }
}

proof fn lemma_count_two<T>(s: Seq<T>, a: int, b: int)
    requires
        0 <= a < b < s.len(),
        s[a] == s[b],
    ensures
        s.to_multiset().count(s[a]) >= 2,
    decreases s.len(),
{
    broadcast use vstd::seq_lib::group_to_multiset_ensures;

    let d = s.drop_last();
    assert(s =~= d.push(s.last()));
    if b == s.len() - 1 {
        assert(d.contains(s[a]));
        assert(d.to_multiset().count(s[a]) >= 1);
    } else {
        lemma_count_two(d, a, b);
    }
}

proof fn lemma_count_one<'a>(rs: Seq<TensorRecord>, i: int, srcs: Seq<SourceTensor<'a>>)
    requires
        rs == source_records(srcs),
        0 <= i < rs.len(),
        forall|j: int|
            0 <= j < srcs.len() && j != i ==> name_hash(#[trigger] srcs[j].name@) != name_hash(
                srcs[i].name@,
            ),
    ensures
        rs.to_multiset().count(rs[i]) == 1,
{
    broadcast use vstd::seq_lib::group_to_multiset_ensures;

    let x = rs[i];
    assert forall|j: int| 0 <= j < rs.len() && j != i implies #[trigger] rs[j] != x by {
        assert(rs[j] == srcs[j].record());
        assert(rs[j].hash != x.hash);
    }
    lemma_count_unique(rs, i);
}

proof fn lemma_count_unique<T>(s: Seq<T>, i: int)
    requires
        0 <= i < s.len(),
        forall|j: int| 0 <= j < s.len() && j != i ==> #[trigger] s[j] != s[i],
    ensures
        s.to_multiset().count(s[i]) == 1,
    decreases s.len(),
{
    broadcast use vstd::seq_lib::group_to_multiset_ensures;

    let d = s.drop_last();
    assert(s =~= d.push(s.last()));
    if i == s.len() - 1 {
        assert(!d.contains(s[i])) by {
            if d.contains(s[i]) {
                let j = choose|j: int| 0 <= j < d.len() && d[j] == s[i];
                assert(s[j] == d[j]);
            }
        }
    } else {
        assert forall|j: int| 0 <= j < d.len() && j != i implies #[trigger] d[j] != d[i] by {
            assert(d[j] == s[j]);
        }
        lemma_count_unique(d, i);
        assert(s.last() != s[i]);
    }
}

/// Llama, Mistral, Gemma and Qwen2 prescribe the same tensors with the same
/// shapes for the same dimensions.
pub proof fn lemma_llama_family_shapes(p: ShapeParams)
    ensures
        expected_shapes("mistral"@, p) == expected_shapes("llama"@, p),
        expected_shapes("gemma"@, p) == expected_shapes("llama"@, p),
        expected_shapes("qwen2"@, p) == expected_shapes("llama"@, p),
{
}

proof fn lemma_no_mismatches_kept(
    expected: Seq<(Seq<char>, Seq<usize>)>,
    a1: Seq<(Seq<char>, Seq<usize>)>,
    a2: Seq<(Seq<char>, Seq<usize>)>,
)
    requires
        mismatches(expected, a1).len() == 0,
        forall|k: int|
            0 <= k < expected.len() ==> lookup_last(a2, #[trigger] expected[k].0) is None
                || lookup_last(a2, expected[k].0) == lookup_last(a1, expected[k].0),
    ensures
        mismatches(expected, a2).len() == 0,
    decreases expected.len(),
{
    if expected.len() > 0 {
        let d = expected.drop_last();
        assert forall|k: int|
            0 <= k < d.len() implies lookup_last(a2, #[trigger] d[k].0) is None || lookup_last(
            a2,
            d[k].0,
        ) == lookup_last(a1, d[k].0) by {
            assert(d[k] == expected[k]);
        }
        let rest1 = mismatches(d, a1);
        let e = expected.last();
        assert(expected[expected.len() - 1] == e);
        match lookup_last(a1, e.0) {
            Some(a) => if a != e.1 {
                assert(mismatches(expected, a1) == rest1.push((e.0, e.1, a)));
            },
            None => {},
        }
        lemma_no_mismatches_kept(d, a1, a2);
    }
}

/// A shape check that passes keeps passing when tensors are taken away or
/// tensors the architecture does not prescribe are added: whenever every
/// prescribed name is either absent from `a2` or recorded there last with
/// the shape it has last in `a1`, `a2` passes too.
pub proof fn lemma_validation_ignores_absent_and_extra(
    a1: Seq<(Seq<char>, Seq<usize>)>,
    a2: Seq<(Seq<char>, Seq<usize>)>,
    cfg: ModelConfig,
)
    requires
        spec_validate(a1, cfg) is None,
        forall|k: int|
            0 <= k < expected_shapes(model_type_name(cfg), spec_shape_params(cfg)).len() ==> {
                let n = (#[trigger] expected_shapes(model_type_name(cfg), spec_shape_params(cfg))[k]).0;
                lookup_last(a2, n) is None || lookup_last(a2, n) == lookup_last(a1, n)
            },
    ensures
        spec_validate(a2, cfg) is None,
{
    let ex = expected_shapes(model_type_name(cfg), spec_shape_params(cfg));
    assert forall|k: int|
        0 <= k < ex.len() implies lookup_last(a2, #[trigger] ex[k].0) is None || lookup_last(
        a2,
        ex[k].0,
    ) == lookup_last(a1, ex[k].0) by {
        assert(ex[k] == expected_shapes(model_type_name(cfg), spec_shape_params(cfg))[k]);
    }
    if is_checked_type(model_type_name(cfg)) {
        lemma_no_mismatches_kept(ex, a1, a2);
    }
}

/// Appending tensors whose names differ from `name` leaves the shape recorded
/// last for `name` unchanged.
pub proof fn lemma_lookup_skips_other_names(
    a: Seq<(Seq<char>, Seq<usize>)>,
    extra: Seq<(Seq<char>, Seq<usize>)>,
    name: Seq<char>,
)
    requires
        forall|j: int| 0 <= j < extra.len() ==> (#[trigger] extra[j]).0 != name,
    ensures
        lookup_last(a + extra, name) == lookup_last(a, name),
    decreases extra.len(),
{
    if extra.len() > 0 {
        let d = extra.drop_last();
        assert((a + extra).drop_last() =~= a + d);
        assert((a + extra).last() == extra.last());
        assert(extra[extra.len() - 1] == extra.last());
        assert forall|j: int| 0 <= j < d.len() implies (#[trigger] d[j]).0 != name by {
            assert(d[j] == extra[j]);
        }
        lemma_lookup_skips_other_names(a, d, name);
    } else {
        assert(a + extra =~= a);
    }
}

/// Every tensor shape in `found` fits the index encoding (at most 255
/// dimensions, each below 2^32).
pub open spec fn found_shapes_encodable(found: Map<Seq<char>, (Seq<usize>, SourceDtype, Seq<u8>)>) -> bool {
    forall|k: Seq<char>|
        #[trigger] found.contains_key(k) ==> {
            &&& found[k].0.len() <= 255
            &&& forall|d: int| 0 <= d < found[k].0.len() ==> #[trigger] found[k].0[d] <= u32::MAX
        }
}

/// After `compile_model` succeeds on a safetensors buffer and a JSON metadata
/// text, the file opens: the reader gives back that text, and every tensor
/// name of the buffer is known to the engine (its hash is in the index).
#[verifier::spinoff_prover]
pub proof fn lemma_compiled_model_loads(
    buffer: Seq<u8>,
    json: Seq<char>,
    config: Option<ModelConfig>,
    m: CompiledModel,
)
    requires
        safetensors_tensors(buffer) is Some,
        compiled_from(
            safetensors_tensors(buffer).unwrap(),
            zstd_encode_all(encode_utf8(json), METADATA_ZSTD_LEVEL),
            config,
            m,
        ),
        zstd_decode_all(zstd_encode_all(encode_utf8(json), METADATA_ZSTD_LEVEL)) == Some(
            encode_utf8(json),
        ),
        json_parses(json),
        m.file@.len() <= u64::MAX,
        found_shapes_encodable(safetensors_tensors(buffer).unwrap()),
    ensures
        spec_load(m.file@) is Ok,
        spec_load(m.file@).unwrap().1 == json,
        forall|name: Seq<char>|
            #[trigger] safetensors_tensors(buffer).unwrap().contains_key(name) ==> index_map(
                spec_load(m.file@).unwrap().0,
            ).contains_key(name_hash(name)),
{
    let found = safetensors_tensors(buffer).unwrap();
    let meta = zstd_encode_all(encode_utf8(json), METADATA_ZSTD_LEVEL);
    let srcs = choose|srcs: Seq<SourceTensor<'static>>|
        {
            &&& #[trigger] sources_match(srcs, found)
            &&& sources_consistent(srcs)
            &&& compiled_file(srcs, meta) == m.file@
            &&& m.tensor_count == srcs.len()
            &&& crate::compile::shape_check_view(m.shape_check)
                == crate::compile::spec_shape_check(srcs, config)
        };
    assert forall|j: int| 0 <= j < srcs.len() implies {
        &&& (#[trigger] srcs[j]).shape@.len() <= 255
        &&& forall|k: int|
            0 <= k < srcs[j].shape@.len() ==> #[trigger] srcs[j].shape@[k] <= u32::MAX
    } by {
        assert(found.contains_key(srcs[j].name@));
        assert(found[srcs[j].name@].0 == srcs[j].shape@);
        assert forall|k: int| 0 <= k < srcs[j].shape@.len() implies #[trigger] srcs[j].shape@[k]
            <= u32::MAX by {
            assert(found[srcs[j].name@].0[k] == srcs[j].shape@[k]);
        }
    }
    assert(source_shapes_encodable(srcs));
    lemma_compile_then_load(srcs, json);
    assert forall|name: Seq<char>| #[trigger] found.contains_key(name) implies index_map(
        spec_load(m.file@).unwrap().0,
    ).contains_key(name_hash(name)) by {
        let i = choose|i: int| 0 <= i < srcs.len() && srcs[i].name@ == name;
        lemma_compiled_names_present(srcs, i);
    }
}

/// After `compile_model` succeeds on a safetensors buffer and a JSON metadata
/// text, opening the file gives back that text, and a tensor of the buffer
/// with an F32, F16 or BF16 payload whose name hash no other tensor of the
/// buffer shares is found under that hash with its shape, the four bytes per
/// element at its offset being its F32 (or widened F16/BF16) payload.
#[verifier::spinoff_prover]
pub proof fn lemma_compiled_model_tensor_readable(
    buffer: Seq<u8>,
    json: Seq<char>,
    config: Option<ModelConfig>,
    m: CompiledModel,
    name: Seq<char>,
)
    requires
        safetensors_tensors(buffer) is Some,
        compiled_from(
            safetensors_tensors(buffer).unwrap(),
            zstd_encode_all(encode_utf8(json), METADATA_ZSTD_LEVEL),
            config,
            m,
        ),
        zstd_decode_all(zstd_encode_all(encode_utf8(json), METADATA_ZSTD_LEVEL)) == Some(
            encode_utf8(json),
        ),
        json_parses(json),
        m.file@.len() <= u64::MAX,
        found_shapes_encodable(safetensors_tensors(buffer).unwrap()),
        safetensors_tensors(buffer).unwrap().contains_key(name),
        safetensors_tensors(buffer).unwrap()[name].1 != SourceDtype::Other,
        forall|k: Seq<char>|
            #[trigger] safetensors_tensors(buffer).unwrap().contains_key(k) && k != name
                ==> name_hash(k) != name_hash(name),
    ensures
        ({
            let found = safetensors_tensors(buffer).unwrap();
            let d = m.file@;
            let h = name_hash(name);
            &&& spec_load(d) is Ok
            &&& spec_load(d).unwrap().1 == json
            &&& index_map(spec_load(d).unwrap().0).contains_key(h)
            &&& index_map(spec_load(d).unwrap().0)[h].shape == found[name].0
            &&& index_map(spec_load(d).unwrap().0)[h].offset + 4 * shape_numel(found[name].0)
                <= d.len()
            &&& d.subrange(
                index_map(spec_load(d).unwrap().0)[h].offset as int,
                index_map(spec_load(d).unwrap().0)[h].offset + 4 * shape_numel(found[name].0),
            ) == processed_payload(found[name].2, found[name].1)
        }),
{
    let found = safetensors_tensors(buffer).unwrap();
    let meta = zstd_encode_all(encode_utf8(json), METADATA_ZSTD_LEVEL);
    let srcs = choose|srcs: Seq<SourceTensor<'static>>|
        {
            &&& #[trigger] sources_match(srcs, found)
            &&& sources_consistent(srcs)
            &&& compiled_file(srcs, meta) == m.file@
            &&& m.tensor_count == srcs.len()
            &&& crate::compile::shape_check_view(m.shape_check)
                == crate::compile::spec_shape_check(srcs, config)
        };
    assert(found.contains_key(name));
    let i = choose|i: int| 0 <= i < srcs.len() && srcs[i].name@ == name;
    assert(found[srcs[i].name@] == (srcs[i].shape@, srcs[i].dtype, srcs[i].data@));
    assert forall|j: int|
        0 <= j < srcs.len() && j != i implies name_hash(#[trigger] srcs[j].name@) != name_hash(
        srcs[i].name@,
    ) by {
        assert(srcs[j].name@ != srcs[i].name@);
        assert(found.contains_key(srcs[j].name@));
    }
    assert forall|j: int| 0 <= j < srcs.len() implies {
        &&& (#[trigger] srcs[j]).shape@.len() <= 255
        &&& forall|k: int|
            0 <= k < srcs[j].shape@.len() ==> #[trigger] srcs[j].shape@[k] <= u32::MAX
    } by {
        assert(found.contains_key(srcs[j].name@));
        assert(found[srcs[j].name@].0 == srcs[j].shape@);
        assert forall|k: int| 0 <= k < srcs[j].shape@.len() implies #[trigger] srcs[j].shape@[k]
            <= u32::MAX by {
            assert(found[srcs[j].name@].0[k] == srcs[j].shape@[k]);
        }
    }
    assert(source_shapes_encodable(srcs));
    lemma_compile_then_load(srcs, json);
    lemma_compiled_tensor_readable(srcs, meta, i);
}

proof fn lemma_normalize(m: nat, k: nat)
    requires
        0 < m < 2048,
    ensures
        normalize_mantissa(m, k).1 >= k,
        1024 <= normalize_mantissa(m, k).0 < 2048,
        normalize_mantissa(m, k).0 == m * pow2((normalize_mantissa(m, k).1 - k) as nat),
        normalize_mantissa(m, k).1 > k ==> m * pow2((normalize_mantissa(m, k).1 - k - 1) as nat)
            < 1024,
    decreases (if m >= 1024 { 0 } else { 1024 - m }),
{
    lemma2_to64();
    let r = normalize_mantissa(m, k);
    if m >= 1024 {
        assert(r == (m, k));
        assert(((r.1 - k) as nat) == 0);
        assert(m * pow2(0) == m);
    } else {
        lemma_normalize(2 * m, k + 1);
        assert(r == normalize_mantissa(2 * m, k + 1));
        assert(r.1 >= k + 1);
        let d = (r.1 - k) as nat;
        assert(((r.1 - (k + 1)) as nat) == (d - 1) as nat);
        lemma_pow2_unfold(d);
        let p1 = pow2((d - 1) as nat);
        assert(r.0 == 2 * m * p1);
        assert(r.0 == m * pow2(d)) by (nonlinear_arith)
            requires
                r.0 == 2 * m * p1,
                pow2(d) == 2 * p1,
        ;
        assert(((r.1 - k - 1) as nat) == (d - 1) as nat);
        if d > 1 {
            lemma_pow2_unfold((d - 1) as nat);
            let p2 = pow2((d - 2) as nat);
            assert(((r.1 - (k + 1) - 1) as nat) == (d - 2) as nat);
            assert(2 * m * p2 < 1024);
            assert(m * p1 < 1024) by (nonlinear_arith)
                requires
                    2 * m * p2 < 1024,
                    p1 == 2 * p2,
            ;
        } else {
            assert(p1 == 1);
            assert(m * p1 == m);
        }
    }
}

/// The `f32` bit pattern of a non-negative half, as a number: zero, the
/// renormalised subnormals, the normals shifted into the `f32` exponent range,
/// and infinity.
pub open spec fn nonneg_half_bits(h: u16) -> int {
    if h == 0 {
        0
    } else if h < 0x400 {
        let (m, k) = normalize_mantissa(h as nat, 0);
        (113 - k) * 0x800000 + (m - 1024) * 0x2000
    } else if h < 0x7C00 {
        (h + 0x1C000) * 0x2000
    } else {
        0x7f80_0000
    }
}

proof fn lemma_subnormal_shift(h: u16)
    requires
        0 < h < 0x400,
    ensures
        1 <= normalize_mantissa(h as nat, 0).1 <= 10,
        1024 <= normalize_mantissa(h as nat, 0).0 < 2048,
        normalize_mantissa(h as nat, 0).0 == h * pow2(normalize_mantissa(h as nat, 0).1),
{
    lemma2_to64();
    lemma_normalize(h as nat, 0);
    let (m, k) = normalize_mantissa(h as nat, 0);
    if k == 0 {
        assert(m == h * pow2(0));
    }
    if k > 10 {
        if k > 11 {
            lemma_pow2_strictly_increases(10, (k - 1) as nat);
        }
        assert(h * pow2((k - 1) as nat) >= pow2((k - 1) as nat)) by (nonlinear_arith)
            requires
                h >= 1,
                pow2((k - 1) as nat) >= 0,
        ;
    }
}

proof fn lemma_f16_bits_nonneg(h: u16)
    requires
        h <= 0x7C00,
    ensures
        f16_to_f32_bits(h) == nonneg_half_bits(h),
{
    let sign = ((h >> 15u16) & 1u16) as u32;
    let exp = ((h >> 10u16) & 0x1fu16) as u32;
    let mant = (h & 0x3ffu16) as u32;
    let s32 = sign << 31u32;
    assert(s32 == 0) by (bit_vector)
        requires
            h <= 0x7C00u16,
            sign == ((h >> 15u16) & 1u16) as u32,
            s32 == sign << 31u32,
    ;
    if h == 0 {
        assert(exp == 0 && mant == 0) by (bit_vector)
            requires
                h == 0u16,
                exp == ((h >> 10u16) & 0x1fu16) as u32,
                mant == (h & 0x3ffu16) as u32,
        ;
    } else if h < 0x400 {
        assert(exp == 0 && mant == h) by (bit_vector)
            requires
                h < 0x400u16,
                exp == ((h >> 10u16) & 0x1fu16) as u32,
                mant == (h & 0x3ffu16) as u32,
        ;
        lemma_subnormal_shift(h);
        let (m, k) = normalize_mantissa(mant as nat, 0);
        let a = (113 - k) as u32;
        let b = m as u32;
        assert((s32 | (a << 23u32) | ((b & 0x3ffu32) << 13u32)) == a * 0x800000 + (b - 1024)
            * 0x2000) by (bit_vector)
            requires
                s32 == 0u32,
                103u32 <= a <= 112u32,
                1024u32 <= b < 2048u32,
        ;
    } else if h < 0x7C00 {
        assert(1 <= exp <= 30 && (s32 | (((exp + 112) as u32) << 23u32) | (mant << 13u32)) == (h
            + 0x1C000) * 0x2000) by (bit_vector)
            requires
                0x400u16 <= h < 0x7C00u16,
                s32 == 0u32,
                exp == ((h >> 10u16) & 0x1fu16) as u32,
                mant == (h & 0x3ffu16) as u32,
        ;
    } else {
        assert(exp == 31 && mant == 0 && (s32 | 0x7f80_0000u32) == 0x7f80_0000u32) by (bit_vector)
            requires
                h == 0x7C00u16,
                s32 == 0u32,
                exp == ((h >> 10u16) & 0x1fu16) as u32,
                mant == (h & 0x3ffu16) as u32,
        ;
    }
}

proof fn lemma_f16_bits_signed(h: u16)
    requires
        h % 0x8000 <= 0x7C00,
    ensures
        f16_to_f32_bits(h) == (h / 0x8000) * 0x8000_0000 + nonneg_half_bits((h % 0x8000) as u16),
{
    let a = (h % 0x8000) as u16;
    let sign = ((h >> 15u16) & 1u16) as u32;
    let exp = ((h >> 10u16) & 0x1fu16) as u32;
    let mant = (h & 0x3ffu16) as u32;
    let s32 = sign << 31u32;
    assert(s32 == (h / 0x8000) * 0x8000_0000 && (s32 == 0u32 || s32 == 0x8000_0000u32)) by (
    bit_vector)
        requires
            sign == ((h >> 15u16) & 1u16) as u32,
            s32 == sign << 31u32,
    ;
    if a == 0 {
        assert(exp == 0 && mant == 0) by (bit_vector)
            requires
                a == h % 0x8000,
                a == 0u16,
                exp == ((h >> 10u16) & 0x1fu16) as u32,
                mant == (h & 0x3ffu16) as u32,
        ;
    } else if a < 0x400 {
        assert(exp == 0 && mant == a) by (bit_vector)
            requires
                a == h % 0x8000,
                a < 0x400u16,
                exp == ((h >> 10u16) & 0x1fu16) as u32,
                mant == (h & 0x3ffu16) as u32,
        ;
        lemma_subnormal_shift(a);
        let (m, k) = normalize_mantissa(mant as nat, 0);
        let e = (113 - k) as u32;
        let b = m as u32;
        assert((s32 | (e << 23u32) | ((b & 0x3ffu32) << 13u32)) == s32 + e * 0x800000 + (b - 1024)
            * 0x2000) by (bit_vector)
            requires
                s32 == 0u32 || s32 == 0x8000_0000u32,
                103u32 <= e <= 112u32,
                1024u32 <= b < 2048u32,
        ;
    } else if a < 0x7C00 {
        assert(1 <= exp <= 30 && (s32 | (((exp + 112) as u32) << 23u32) | (mant << 13u32)) == s32
            + (a + 0x1C000) * 0x2000) by (bit_vector)
            requires
                a == h % 0x8000,
                0x400u16 <= a < 0x7C00u16,
                s32 == 0u32 || s32 == 0x8000_0000u32,
                exp == ((h >> 10u16) & 0x1fu16) as u32,
                mant == (h & 0x3ffu16) as u32,
        ;
    } else {
        assert(exp == 31 && mant == 0 && (s32 | 0x7f80_0000u32) == s32 + 0x7f80_0000) by (
        bit_vector)
            requires
                a == h % 0x8000,
                a == 0x7C00u16,
                s32 == 0u32 || s32 == 0x8000_0000u32,
                exp == ((h >> 10u16) & 0x1fu16) as u32,
                mant == (h & 0x3ffu16) as u32,
        ;
    }
}

/// A non-negative binary16 magnitude `a` (below infinity) times 2^24: the
/// subnormal count itself, or `(1024 + fraction) * 2^(exponent - 1)`.
pub open spec fn half_magnitude_scaled(a: int) -> int {
    if a < 0x400 {
        a
    } else {
        (1024 + a % 1024) * pow2((a / 1024 - 1) as nat)
    }
}

/// Widening binary16 to `f32` is exact. For every half `h` that is not a
/// NaN, the sign bit carries over and the magnitude is kept: zero stays zero,
/// infinity stays infinity, and otherwise the `f32` exponent field `E` and
/// fraction `F` of the result satisfy `(2^23 + F) * 2^E == 2^126 * (2^24 *
/// |half|)`, i.e. the `f32` value `(1 + F / 2^23) * 2^(E - 127)` equals the
/// half's value. Every NaN becomes the quiet NaN `0x7fc00000`.
pub proof fn lemma_f16_widening_exact(h: u16)
    ensures
        h % 0x8000 > 0x7C00 ==> f16_to_f32_bits(h) == 0x7fc0_0000,
        h % 0x8000 <= 0x7C00 ==> {
            let b = f16_to_f32_bits(h);
            let a = h % 0x8000;
            let mag = b % 0x8000_0000;
            &&& b / 0x8000_0000 == h / 0x8000
            &&& a == 0 ==> mag == 0
            &&& a == 0x7C00 ==> mag == 0x7f80_0000
            &&& 0 < a < 0x7C00 ==> {
                &&& 1 <= mag / 0x800000 <= 254
                &&& (0x800000 + mag % 0x800000) * pow2((mag / 0x800000) as nat)
                    == half_magnitude_scaled(a as int) * pow2(126)
            }
        },
{
    lemma2_to64();
    let sign = ((h >> 15u16) & 1u16) as u32;
    let exp = ((h >> 10u16) & 0x1fu16) as u32;
    let mant = (h & 0x3ffu16) as u32;
    if h % 0x8000 > 0x7C00 {
        assert(exp == 31 && mant != 0) by (bit_vector)
            requires
                h % 0x8000 > 0x7C00,
                exp == ((h >> 10u16) & 0x1fu16) as u32,
                mant == (h & 0x3ffu16) as u32,
        ;
    } else {
        let a = (h % 0x8000) as u16;
        lemma_f16_bits_signed(h);
        let b = f16_to_f32_bits(h);
        let nb = nonneg_half_bits(a);
        let s = (h / 0x8000) as int;
        assert(0 <= nb < 0x8000_0000) by {
            if 0 < a < 0x400 {
                lemma_subnormal_shift(a);
            }
        }
        vstd::arithmetic::div_mod::lemma_fundamental_div_mod_converse(b as int, 0x8000_0000, s, nb);
        let mag = nb;
        if 0 < a && a < 0x7C00 {
            let e: int;
            let f: int;
            if a < 0x400 {
                lemma_subnormal_shift(a);
                let (m, k) = normalize_mantissa(a as nat, 0);
                e = 113 - k;
                f = (m - 1024) * 0x2000;
                vstd::arithmetic::div_mod::lemma_fundamental_div_mod_converse(mag, 0x800000, e, f);
                vstd::arithmetic::power2::lemma_pow2_adds(k, (113 - k) as nat);
                vstd::arithmetic::power2::lemma_pow2_adds(13, 113);
                assert(pow2(13) == 0x2000);
                let pk = pow2(k);
                let pe = pow2((113 - k) as nat);
                assert((0x800000 + f) * pe == a * pow2(126)) by (nonlinear_arith)
                    requires
                        f == (m - 1024) * 0x2000,
                        m == a * pk,
                        pk * pe == pow2(113),
                        pow2(126) == 0x2000 * pow2(113),
                ;
            } else {
                let x = a / 1024;
                let r = a % 1024;
                assert(a == x * 1024 + r && 1 <= x <= 30);
                e = x + 112;
                f = r * 0x2000;
                assert(mag == e * 0x800000 + f);
                vstd::arithmetic::div_mod::lemma_fundamental_div_mod_converse(mag, 0x800000, e, f);
                vstd::arithmetic::power2::lemma_pow2_adds((x - 1) as nat, 126);
                vstd::arithmetic::power2::lemma_pow2_adds(13, (x + 112) as nat);
                assert(pow2(13) == 0x2000);
                assert((13 + (x + 112)) as nat == ((x - 1) + 126) as nat);
                let pe = pow2((x + 112) as nat);
                let px = pow2((x - 1) as nat);
                assert((0x800000 + f) * pe == (1024 + r) * px * pow2(126)) by (nonlinear_arith)
                    requires
                        f == r * 0x2000,
                        0x2000 * pe == px * pow2(126),
                ;
            }
        }
    }
}

/// Widening IEEE binary16 to `f32` preserves the order of non-negative
/// values: from +0 up to +infinity, a larger half gives a larger `f32` bit
/// pattern (and non-negative `f32` values are ordered as their bit patterns).
pub proof fn lemma_f16_widening_monotone(h1: u16, h2: u16)
    requires
        h1 < h2 <= 0x7C00,
    ensures
        f16_to_f32_bits(h1) < f16_to_f32_bits(h2),
{
    lemma_f16_bits_nonneg(h1);
    lemma_f16_bits_nonneg(h2);
    lemma2_to64();
    if 0 < h1 && h1 < 0x400 {
        lemma_subnormal_shift(h1);
    }
    if 0 < h2 && h2 < 0x400 {
        lemma_subnormal_shift(h2);
        let (m2, k2) = normalize_mantissa(h2 as nat, 0);
        if h1 > 0 {
            let (m1, k1) = normalize_mantissa(h1 as nat, 0);
            if k1 == k2 {
                assert(m1 < m2) by (nonlinear_arith)
                    requires
                        m1 == h1 * pow2(k1),
                        m2 == h2 * pow2(k2),
                        k1 == k2,
                        h1 < h2,
                        pow2(k1) > 0,
                ;
            } else if k1 < k2 {
                lemma_pow2_strictly_increases(k1, k2);
                lemma_pow2_unfold(k2);
                vstd::arithmetic::power2::lemma_pow2_pos(k1);
                if k1 < (k2 - 1) as nat {
                    lemma_pow2_strictly_increases(k1, (k2 - 1) as nat);
                }
                assert(m2 >= 2 * m1) by (nonlinear_arith)
                    requires
                        m1 == h1 * pow2(k1),
                        m2 == h2 * pow2(k2),
                        pow2(k2) == 2 * pow2((k2 - 1) as nat),
                        pow2((k2 - 1) as nat) >= pow2(k1),
                        h1 < h2,
                        h1 >= 1,
                ;
            }
        }
    }
}

} // verus!
