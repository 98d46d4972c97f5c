use vstd::prelude::*;
use vstd::string::StringSliceAdditionalSpecFns;
use vstd::multiset::Multiset;
use vstd::utf8::{encode_utf8, valid_utf8, decode_utf8};
use crate::bytes::{u64_at, read_u64_le};
use crate::codec::{zstd_encode_all, zstd_decode_all, zstd_compress, str_from_utf8};
use crate::engine::shape_numel;
use crate::hash::{fnv1a, mtf_hash_name};
use crate::layout::{TensorRecord, records_of, mtf_file, write_mtf_file};
use crate::sort::{SortKey, insert_by_key, stable_sort_by_key};
use crate::tensor::{
    CompileTensor, SourceDtype, processed_payload, process_tensor_data, sort_by_hash,
};
use crate::validator::{
    ModelConfig, ShapeMismatch, pairs_view, mismatches_view, spec_validate, shape_check_defined,
    validate_tensor_shapes,
};

verus! {

#[verifier::external_type_specification]
#[verifier::external_body]
pub struct ExSafeTensorError(safetensors::SafeTensorError);

/// A tensor of a safetensors file: name, shape, element type and its bytes.
pub struct SourceTensor<'a> {
    pub name: String,
    pub shape: Vec<usize>,
    pub dtype: SourceDtype,
    pub data: &'a [u8],
}

/// Hash under which a tensor name is indexed.
pub open spec fn name_hash(name: Seq<char>) -> u64 {
    fnv1a(encode_utf8(name))
}

impl<'a> SourceTensor<'a> {
    /// What the file stores for this source tensor.
    pub open spec fn record(&self) -> TensorRecord {
        TensorRecord {
            hash: name_hash(self.name@),
            shape: self.shape@,
            dtype: 0,
            data: processed_payload(self.data@, self.dtype),
        }
    }
}

/// What a successful safetensors parse guarantees: distinct names, and F32,
/// F16 and BF16 payloads of exactly the size their shape calls for.
pub open spec fn sources_consistent<'a>(ts: Seq<SourceTensor<'a>>) -> bool {
    &&& forall|i: int, j: int|
        0 <= i < ts.len() && 0 <= j < ts.len() && i != j ==> #[trigger] ts[i].name@
            != #[trigger] ts[j].name@
    &&& forall|i: int|
        0 <= i < ts.len() ==> {
            &&& (#[trigger] ts[i]).dtype == SourceDtype::F32 ==> ts[i].data@.len() == 4
                * shape_numel(ts[i].shape@)
            &&& (ts[i].dtype == SourceDtype::F16 || ts[i].dtype == SourceDtype::BF16)
                ==> ts[i].data@.len() == 2 * shape_numel(ts[i].shape@)
        }
}

/// What `SafeTensors::deserialize` followed by `tensors()` finds in a buffer:
/// each tensor name with its shape, element type (F32, F16 and BF16 kept
/// apart, every other type as `Other`) and payload bytes, or nothing when
/// the crate rejects the buffer.
pub uninterp spec fn safetensors_tensors(buffer: Seq<u8>) -> Option<
    Map<Seq<char>, (Seq<usize>, SourceDtype, Seq<u8>)>,
>;

/// The end offsets of the data ranges that a safetensors JSON header
/// declares, when serde_json accepts it as safetensors metadata.
pub uninterp spec fn safetensors_header_ends(header: Seq<char>) -> Option<Multiset<usize>>;

/// The largest header the safetensors crate accepts.
pub const SAFETENSORS_MAX_HEADER: u64 = 100_000_000;

/// The header length stored in the first eight bytes.
pub open spec fn safetensors_header_len(buffer: Seq<u8>) -> u64 {
    u64_at(buffer, 0)
}

/// The buffer has a complete header of acceptable length.
pub open spec fn safetensors_header_present(buffer: Seq<u8>) -> bool {
    &&& buffer.len() >= 8
    &&& safetensors_header_len(buffer) <= SAFETENSORS_MAX_HEADER
    &&& 8 + safetensors_header_len(buffer) <= buffer.len()
}

/// The header bytes.
pub open spec fn safetensors_header_bytes(buffer: Seq<u8>) -> Seq<u8> {
    buffer.subrange(8, 8 + safetensors_header_len(buffer))
}

/// Every declared data end `e` leaves `e + 8 + header_len` within `usize`.
pub open spec fn ends_fit(ends: Multiset<usize>, header_len: u64) -> bool {
    forall|e: usize| #[trigger] ends.contains(e) ==> e + 8 + header_len <= usize::MAX
}

/// The crate's final length check (declared data end + 8 + header length)
/// stays within `usize` for every data end the header declares.
pub open spec fn safetensors_sizes_fit(buffer: Seq<u8>) -> bool {
    safetensors_header_present(buffer) && valid_utf8(safetensors_header_bytes(buffer)) ==> match
        safetensors_header_ends(decode_utf8(safetensors_header_bytes(buffer))) {
        Some(ends) => ends_fit(ends, safetensors_header_len(buffer)),
        None => true,
    }
}

/// `tensors` lists exactly the entries of `m`, each once.
pub open spec fn sources_match<'a>(
    ts: Seq<SourceTensor<'a>>,
    m: Map<Seq<char>, (Seq<usize>, SourceDtype, Seq<u8>)>,
) -> bool {
    &&& forall|i: int|
        0 <= i < ts.len() ==> m.contains_key((#[trigger] ts[i]).name@) && m[ts[i].name@] == (
            ts[i].shape@,
            ts[i].dtype,
            ts[i].data@,
        )
    &&& forall|k: Seq<char>|
        #[trigger] m.contains_key(k) ==> exists|i: int| 0 <= i < ts.len() && ts[i].name@ == k
}

/// `serde_json::from_str::<safetensors::tensor::Metadata>(header)`, the parse
/// the safetensors crate applies to its header, followed by the data end
/// offset of every declared tensor (in hash map order, stated as a multiset).
#[verifier::external_body]
fn read_header_ends(header: &str) -> (res: Option<Vec<usize>>)
    ensures
        res is Some <==> safetensors_header_ends(header@) is Some,
        res matches Some(v) ==> safetensors_header_ends(header@) == Some(v@.to_multiset()),
{
    let metadata: safetensors::tensor::Metadata = serde_json::from_str(header).ok()?;
    Some(metadata.tensors().values().map(|info| info.data_offsets.1).collect())
}

/// Whether the safetensors crate can check the buffer's length without
/// overflowing `usize`: false exactly when the header declares a data end
/// so large that `end + 8 + header length` exceeds `usize::MAX`.
pub fn safetensors_sizes_ok(buffer: &[u8]) -> (ok: bool)
    ensures
        ok == safetensors_sizes_fit(buffer@),
{
    let len = buffer.len();
    if len < 8 {
        return true;
    }
    let n = read_u64_le(buffer, 0);
    if n > SAFETENSORS_MAX_HEADER || n > (len - 8) as u64 {
        return true;
    }
    let header = vstd::slice::slice_subrange(buffer, 8, 8 + n as usize);
    let text = match str_from_utf8(header) {
        Some(t) => t,
        None => {
            return true;
        },
    };
    let ends = match read_header_ends(text) {
        Some(v) => v,
        None => {
            return true;
        },
    };
    let limit = usize::MAX - 8 - n as usize;
    let mut i: usize = 0;
    assert(header@ == safetensors_header_bytes(buffer@));
    while i < ends.len()
        invariant
            i <= ends@.len(),
            forall|j: int| 0 <= j < i ==> ends@[j] <= limit,
            n == safetensors_header_len(buffer@),
            limit == usize::MAX - 8 - n,
            safetensors_header_present(buffer@),
            valid_utf8(safetensors_header_bytes(buffer@)),
            safetensors_header_ends(decode_utf8(safetensors_header_bytes(buffer@))) == Some(
                ends@.to_multiset(),
            ),
        decreases ends@.len() - i,
    {
        if ends[i] > limit {
            proof {
                let e = ends@[i as int];
                let ms = ends@.to_multiset();
                assert(ms.contains(e)) by {
                    broadcast use vstd::seq_lib::group_to_multiset_ensures;
                    assert(ends@.contains(e));
                }
                assert(e + 8 + n > usize::MAX);
                assert(!ends_fit(ms, n)) by {
                    if ends_fit(ms, n) {
                        assert(ms.contains(e));
                    }
                }
            }
            return false;
        }
        i += 1;
    }
    proof {
        broadcast use vstd::seq_lib::group_to_multiset_ensures;
        assert forall|e: usize| #[trigger] ends@.to_multiset().contains(e) implies e + 8 + n
            <= usize::MAX by {
            assert(ends@.contains(e));
        }
        assert(ends_fit(ends@.to_multiset(), n));
    }
    true
}

/// `SafeTensors::deserialize(buffer)` followed by `tensors()`, each tensor
/// converted to plain values (F32, F16 and BF16 kept apart, every other
/// element type mapped to `Other`). It succeeds exactly when the named parse
/// does, and then lists each named tensor once; their order is that of a
/// hash map walk and is not stated. On success the crate has validated that
/// each payload holds `numel * size` bytes. The buffers on which the crate's
/// final length check overflows are left out.
#[verifier::external_body]
fn read_safetensors<'a>(buffer: &'a [u8]) -> (res: Result<Vec<SourceTensor<'a>>, safetensors::SafeTensorError>)
    requires
        safetensors_sizes_fit(buffer@),
    ensures
        res is Ok <==> safetensors_tensors(buffer@) is Some,
        res matches Ok(ts) ==> sources_consistent(ts@) && sources_match(
            ts@,
            safetensors_tensors(buffer@).unwrap(),
        ),
{
    let st = match safetensors::SafeTensors::deserialize(buffer) {
        Ok(st) => st,
        Err(e) => return Err(e),
    };
    let mut out = Vec::new();
    for (name, view) in st.tensors() {
        let dtype = match view.dtype() {
            safetensors::Dtype::F32 => SourceDtype::F32,
            safetensors::Dtype::F16 => SourceDtype::F16,
            safetensors::Dtype::BF16 => SourceDtype::BF16,
            _ => SourceDtype::Other,
        };
        out.push(SourceTensor { name, shape: view.shape().to_vec(), dtype, data: view.data() });
    }
    Ok(out)
}

/// A compiled model: the file bytes, how many tensors it holds and, when a
/// configuration was given, the outcome of the shape check.
pub struct CompiledModel {
    pub file: Vec<u8>,
    pub tensor_count: usize,
    pub shape_check: Option<Result<(), Vec<ShapeMismatch>>>,
}

/// Why compilation stopped.
pub enum CompileError {
    /// zstd could not compress the metadata.
    MetadataCompression,
    /// The safetensors header declares data ends so large that checking the
    /// buffer's length would overflow.
    SafeTensorsTooLarge,
    /// The safetensors file could not be parsed.
    SafeTensors(safetensors::SafeTensorError),
}

/// The records of source tensors, in source order.
pub open spec fn source_records<'a>(ts: Seq<SourceTensor<'a>>) -> Seq<TensorRecord> {
    ts.map_values(|t: SourceTensor<'a>| t.record())
}

/// `(name, shape)` of each source tensor, in source order.
pub open spec fn source_pairs<'a>(ts: Seq<SourceTensor<'a>>) -> Seq<(Seq<char>, Seq<usize>)> {
    ts.map_values(|t: SourceTensor<'a>| (t.name@, t.shape@))
}

/// The shape check sees every source tensor, whatever its element type: one
/// `(name, shape)` pair per source tensor, in source order.
pub proof fn lemma_source_pairs<'a>(ts: Seq<SourceTensor<'a>>)
    ensures
        source_pairs(ts).len() == ts.len(),
        forall|i: int|
            0 <= i < ts.len() ==> #[trigger] source_pairs(ts)[i] == (ts[i].name@, ts[i].shape@),
{
}

/// Every source tensor, whatever its element type, becomes one record in
/// source order: its name hash, its shape, element code 0 and its payload
/// (F16 and BF16 widened, everything else as it is).
pub proof fn lemma_source_records<'a>(ts: Seq<SourceTensor<'a>>)
    ensures
        source_records(ts).len() == ts.len(),
        forall|i: int|
            0 <= i < ts.len() ==> {
                &&& (#[trigger] source_records(ts)[i]).hash == fnv1a(encode_utf8(ts[i].name@))
                &&& source_records(ts)[i].shape == ts[i].shape@
                &&& source_records(ts)[i].dtype == 0
                &&& source_records(ts)[i].data == processed_payload(ts[i].data@, ts[i].dtype)
            },
{
}

/// The file compiled from source tensors and compressed metadata: tensors in
/// stable hash order.
pub open spec fn compiled_file<'a>(ts: Seq<SourceTensor<'a>>, meta: Seq<u8>) -> Seq<u8> {
    mtf_file(stable_sort_by_key(source_records(ts)), meta)
}

/// The shape-check outcome for source tensors under an optional configuration.
pub open spec fn spec_shape_check<'a>(ts: Seq<SourceTensor<'a>>, cfg: Option<ModelConfig>) -> Option<
    Option<Seq<(Seq<char>, Seq<usize>, Seq<usize>)>>,
> {
    match cfg {
        None => None,
        Some(c) => Some(spec_validate(source_pairs(ts), c)),
    }
}

/// The view of an optional shape-check outcome.
pub open spec fn shape_check_view(r: Option<Result<(), Vec<ShapeMismatch>>>) -> Option<
    Option<Seq<(Seq<char>, Seq<usize>, Seq<usize>)>>,
> {
    match r {
        None => None,
        Some(Ok(())) => Some(None),
        Some(Err(v)) => Some(Some(mismatches_view(v@))),
    }
}

proof fn lemma_records_insert<'a>(s: Seq<CompileTensor<'a>>, x: CompileTensor<'a>)
    ensures
        records_of(insert_by_key(s, x)) == insert_by_key(records_of(s), x.record()),
    decreases s.len(),
{
    let rs = records_of(s);
    if s.len() == 0 {
        assert(records_of(insert_by_key(s, x)) =~= seq![x.record()]);
    } else if s.last().sort_key() <= x.sort_key() {
        assert(rs.last() == s.last().record());
        assert(records_of(s.push(x)) =~= rs.push(x.record()));
    } else {
        lemma_records_insert(s.drop_last(), x);
        assert(rs.last() == s.last().record());
        assert(records_of(s.drop_last()) =~= rs.drop_last());
        assert(records_of(insert_by_key(s.drop_last(), x).push(s.last())) =~= records_of(
            insert_by_key(s.drop_last(), x),
        ).push(s.last().record()));
    }
}

/// Sorting tensors and then taking their records equals sorting the records.
proof fn lemma_records_sort<'a>(s: Seq<CompileTensor<'a>>)
    ensures
        records_of(stable_sort_by_key(s)) == stable_sort_by_key(records_of(s)),
    decreases s.len(),
{
    if s.len() == 0 {
        assert(records_of(stable_sort_by_key(s)) =~= Seq::<TensorRecord>::empty());
        assert(records_of(s) =~= Seq::<TensorRecord>::empty());
    } else {
        lemma_records_sort(s.drop_last());
        lemma_records_insert(stable_sort_by_key(s.drop_last()), s.last());
        assert(records_of(s).drop_last() =~= records_of(s.drop_last()));
        assert(records_of(s).last() == s.last().record());
    }
}

/// Hashes every name, widens half payloads to F32 and collects `(name, shape)`
/// pairs for the shape check; tensors keep their source order.
fn prepare_tensors<'a>(sources: Vec<SourceTensor<'a>>) -> (res: (
    Vec<CompileTensor<'a>>,
    Vec<(String, Vec<usize>)>,
))
    ensures
        records_of(res.0@) == source_records(sources@),
        pairs_view(res.1@) == source_pairs(sources@),
{
    let ghost orig = sources@;
    let n = sources.len();
    let mut rest = sources;
    let mut tensors: Vec<CompileTensor<'a>> = Vec::new();
    let mut names: Vec<(String, Vec<usize>)> = Vec::new();
    let mut i: usize = 0;
    assert(orig.skip(0) =~= orig);
    while i < n
        invariant
            n == orig.len(),
            i <= n,
            rest@ == orig.skip(i as int),
            records_of(tensors@) == source_records(orig.take(i as int)),
            pairs_view(names@) == source_pairs(orig.take(i as int)),
        decreases n - i,
    {
        let s = rest.remove(0);
        assert(s == orig[i as int]);
        let name_str = s.name.as_str();
        let hash = mtf_hash_name(name_str);
        assert(hash == name_hash(s.name@));
        let ghost rec = s.record();
        let ghost pair = (s.name@, s.shape@);
        let raw_data = process_tensor_data(s.data, s.dtype);
        let ghost old_names = names@;
        names.push((s.name.clone(), vstd::slice::slice_to_vec(s.shape.as_slice())));
        let ghost old_tensors = tensors@;
        tensors.push(
            CompileTensor {
                hash,
                name: s.name,
                shape: s.shape,
                data_type: 0,
                raw_data,
                absolute_offset: 0,
            },
        );
        proof {
            assert(tensors@.last().record() == rec);
            assert(names@.last().0@ == pair.0);
            assert(names@.last().1@ == pair.1);
            assert(records_of(tensors@) =~= records_of(old_tensors).push(rec));
            assert(orig.take(i + 1) =~= orig.take(i as int).push(orig[i as int]));
            assert(source_records(orig.take(i + 1)) =~= source_records(orig.take(i as int)).push(rec));
            assert(records_of(tensors@) =~= source_records(orig.take(i + 1)));
            assert(pairs_view(names@) =~= pairs_view(old_names).push(pair));
            assert(source_pairs(orig.take(i + 1)) =~= source_pairs(orig.take(i as int)).push(pair));
            assert(rest@ =~= orig.skip(i + 1));
        }
        i += 1;
    }
    assert(orig.take(n as int) =~= orig);
    (tensors, names)
}

/// Builds the file from parsed source tensors and compressed metadata:
/// converts and hashes the tensors, checks shapes when a configuration is
/// given, sorts by hash and lays the file out.
pub fn compile_sources<'a>(
    sources: Vec<SourceTensor<'a>>,
    compressed_meta: &[u8],
    config: Option<&ModelConfig>,
) -> (res: CompiledModel)
    requires
        config matches Some(c) ==> shape_check_defined(*c),
    ensures
        res.file@ == compiled_file(sources@, compressed_meta@),
        res.tensor_count == sources@.len(),
        shape_check_view(res.shape_check) == spec_shape_check(
            sources@,
            match config {
                Some(c) => Some(*c),
                None => None,
            },
        ),
{
    let ghost srcs = sources@;
    let (tensors, names) = prepare_tensors(sources);
    let shape_check = match config {
        Some(c) => Some(validate_tensor_shapes(names.as_slice(), c)),
        None => None,
    };
    let count = tensors.len();
    let ghost unsorted = tensors@;
    let sorted = sort_by_hash(tensors);
    proof {
        lemma_records_sort(unsorted);
    }
    let (file, _placed) = write_mtf_file(sorted, compressed_meta);
    CompiledModel { file, tensor_count: count, shape_check }
}

/// `m` is what `compile_sources` builds from some listing of the tensors in
/// `found`, each once, with metadata block `meta`.
pub open spec fn compiled_from(
    found: Map<Seq<char>, (Seq<usize>, SourceDtype, Seq<u8>)>,
    meta: Seq<u8>,
    config: Option<ModelConfig>,
    m: CompiledModel,
) -> bool {
    exists|srcs: Seq<SourceTensor<'static>>|
        {
            &&& #[trigger] sources_match(srcs, found)
            &&& sources_consistent(srcs)
            &&& compiled_file(srcs, meta) == m.file@
            &&& m.tensor_count == srcs.len()
            &&& shape_check_view(m.shape_check) == spec_shape_check(srcs, config)
        }
}

/// The outcome of `compile_compressed` once the metadata compression has
/// given `compressed_meta`: which error, if any, and on success the file built
/// from the tensors that the safetensors crate finds in the buffer.
pub open spec fn compile_outcome(
    safetensors_bytes: Seq<u8>,
    compressed_meta: Option<Seq<u8>>,
    config: Option<ModelConfig>,
    res: Result<CompiledModel, CompileError>,
) -> bool {
    match compressed_meta {
        None => res matches Err(CompileError::MetadataCompression),
        Some(meta) => if !safetensors_sizes_fit(safetensors_bytes) {
            res matches Err(CompileError::SafeTensorsTooLarge)
        } else {
            match safetensors_tensors(safetensors_bytes) {
                None => res matches Err(CompileError::SafeTensors(_)),
                Some(found) => res matches Ok(m) && compiled_from(found, meta, config, m),
            }
        },
    }
}

/// The optional configuration as a plain value.
pub open spec fn config_view(config: Option<&ModelConfig>) -> Option<ModelConfig> {
    match config {
        Some(c) => Some(*c),
        None => None,
    }
}

/// Compiles a safetensors buffer given the outcome of compressing the
/// metadata: a failed compression is reported first; then a header whose
/// sizes would overflow the crate's length check; then a buffer the crate
/// rejects; otherwise the file built from the tensors it finds.
pub fn compile_compressed<'a>(
    safetensors_bytes: &'a [u8],
    compressed_meta: Option<Vec<u8>>,
    config: Option<&ModelConfig>,
) -> (res: Result<CompiledModel, CompileError>)
    requires
        config matches Some(c) ==> shape_check_defined(*c),
    ensures
        compile_outcome(
            safetensors_bytes@,
            match compressed_meta {
                Some(v) => Some(v@),
                None => None,
            },
            config_view(config),
            res,
        ),
{
    let compressed = match compressed_meta {
        Some(c) => c,
        None => {
            return Err(CompileError::MetadataCompression);
        },
    };
    if !safetensors_sizes_ok(safetensors_bytes) {
        return Err(CompileError::SafeTensorsTooLarge);
    }
    let sources = match read_safetensors(safetensors_bytes) {
        Ok(s) => s,
        Err(e) => {
            return Err(CompileError::SafeTensors(e));
        },
    };
    let ghost srcs = sources@;
    let m = compile_sources(sources, compressed.as_slice(), config);
    proof {
        let found = safetensors_tensors(safetensors_bytes@).unwrap();
        assert(sources_match(srcs, found));
        assert(compiled_from(found, compressed@, config_view(config), m));
    }
    Ok(m)
}

/// Compression level used for the metadata block.
pub const METADATA_ZSTD_LEVEL: i32 = 3;

/// Compiles a safetensors file and the metadata JSON into MTF bytes:
/// compresses the metadata with zstd and hands the outcome to
/// `compile_compressed`. Whether zstd reports an error is not stated; when it
/// does not, the metadata block is the named zstd encoding of the text.
pub fn compile_model<'a>(
    safetensors_bytes: &'a [u8],
    metadata_json: &str,
    config: Option<&ModelConfig>,
) -> (res: Result<CompiledModel, CompileError>)
    requires
        config matches Some(c) ==> shape_check_defined(*c),
    ensures
        !(res matches Err(CompileError::MetadataCompression)) ==> compile_outcome(
            safetensors_bytes@,
            Some(zstd_encode_all(metadata_json.spec_bytes(), METADATA_ZSTD_LEVEL)),
            config_view(config),
            res,
        ),
        res matches Ok(_) ==> zstd_decode_all(
            zstd_encode_all(metadata_json.spec_bytes(), METADATA_ZSTD_LEVEL),
        ) == Some(metadata_json.spec_bytes()),
{
    let compressed = zstd_compress(metadata_json.as_bytes(), METADATA_ZSTD_LEVEL);
    let res = compile_compressed(safetensors_bytes, compressed, config);
    res
}

} // verus!
