use std::collections::HashMap;
use vstd::prelude::*;
use vstd::string::StringSliceAdditionalSpecFns;
use vstd::utf8::{valid_utf8, decode_utf8};
use crate::bytes::{u32_at, u64_at, read_u32_le, read_u64_le};
use crate::codec::{zstd_decode_all, zstd_decompress, string_from_utf8};
use crate::format::{HEADER_SIZE, FOOTER_SIZE, MAGIC_BYTES, magic_header_seq};
use crate::hash::{fnv1a, mtf_hash_name};
use crate::metadata::{json_parses, json_text_parses};

verus! {

broadcast use vstd::std_specs::hash::group_hash_axioms;

/// One index entry as read from a file.
pub struct IndexEntry {
    pub hash: u64,
    pub shape: Seq<usize>,
    pub dtype: u8,
    pub offset: u64,
}

/// Where a tensor lives in the file, its shape and its element code.
pub struct TensorEntry {
    pub offset: u64,
    pub shape: Vec<usize>,
    pub dtype: u8,
}

impl TensorEntry {
    pub open spec fn model(&self, hash: u64) -> IndexEntry {
        IndexEntry { hash, shape: self.shape@, dtype: self.dtype, offset: self.offset }
    }
}

/// Why a file could not be opened.
#[derive(Debug, Clone, Copy, PartialEq, Eq, Structural)]
pub enum LoadError {
    /// Shorter than header and footer together.
    FileTooShort,
    /// The first eight bytes are not `MZTENSOR`.
    BadMagic,
    /// The footer points the metadata block past the end of the file.
    MetadataOutOfBounds,
    /// The metadata block is not valid zstd data.
    MetadataDecompression,
    /// The decompressed metadata is not UTF-8.
    MetadataNotUtf8,
    /// The metadata text is not JSON.
    MetadataNotJson,
    /// The footer points the index past the end of the file.
    IndexOutOfBounds,
    /// The file ends inside an index entry.
    TruncatedIndex,
}

/// Why a tensor could not be read.
#[derive(Debug, Clone, Copy, PartialEq, Eq, Structural)]
pub enum TensorError {
    /// No index entry carries the hash of the name.
    NotFound,
    /// The entry's F32 payload does not fit inside the file.
    OutOfBounds,
}

/// Dimensions `0..n` of an entry whose dimension list starts at `pos`.
pub open spec fn parse_dims(d: Seq<u8>, pos: int, n: nat) -> Seq<usize>
    decreases n,
{
    if n == 0 {
        seq![]
    } else {
        parse_dims(d, pos, (n - 1) as nat).push(u32_at(d, pos + 4 * (n - 1)) as usize)
    }
}

/// The index entry at `pos` and the position just after it.
pub open spec fn parse_entry(d: Seq<u8>, pos: int) -> Option<(IndexEntry, int)> {
    if pos + 18 > d.len() {
        None
    } else {
        let ndim = d[pos + 8] as nat;
        if pos + 18 + 4 * ndim > d.len() {
            None
        } else {
            Some(
                (
                    IndexEntry {
                        hash: u64_at(d, pos),
                        shape: parse_dims(d, pos + 18, ndim),
                        dtype: d[pos + 9],
                        offset: u64_at(d, pos + 10),
                    },
                    pos + 18 + 4 * ndim,
                ),
            )
        }
    }
}

/// The first `count` index entries starting at `start`, and where they end.
pub open spec fn parse_entries(d: Seq<u8>, start: int, count: nat) -> Option<(Seq<IndexEntry>, int)>
    decreases count,
{
    if count == 0 {
        Some((seq![], start))
    } else {
        match parse_entries(d, start, (count - 1) as nat) {
            None => None,
            Some((es, p)) => match parse_entry(d, p) {
                None => None,
                Some((e, q)) => Some((es.push(e), q)),
            },
        }
    }
}

/// Lookup table built from entries in order: a later entry with the same hash
/// replaces an earlier one.
pub open spec fn index_map(es: Seq<IndexEntry>) -> Map<u64, IndexEntry>
    decreases es.len(),
{
    if es.len() == 0 {
        Map::empty()
    } else {
        index_map(es.drop_last()).insert(es.last().hash, es.last())
    }
}

/// Offset of the footer.
pub open spec fn footer_start(d: Seq<u8>) -> int {
    d.len() - FOOTER_SIZE
}

/// Outcome of opening the bytes `d` of a file: the index entries in file order
/// and the metadata text, or the first check that fails.
pub open spec fn spec_load(d: Seq<u8>) -> Result<(Seq<IndexEntry>, Seq<char>), LoadError> {
    if d.len() < 8 {
        Err(LoadError::FileTooShort)
    } else if d.subrange(0, 8) != magic_header_seq() {
        Err(LoadError::BadMagic)
    } else if d.len() < HEADER_SIZE + FOOTER_SIZE {
        Err(LoadError::FileTooShort)
    } else {
        let f = footer_start(d);
        let index_offset = u64_at(d, f);
        let metadata_offset = u64_at(d, f + 8);
        let metadata_size = u64_at(d, f + 16);
        let count = u64_at(d, 12);
        if metadata_offset + metadata_size > d.len() {
            Err(LoadError::MetadataOutOfBounds)
        } else {
            match zstd_decode_all(
                d.subrange(metadata_offset as int, metadata_offset + metadata_size),
            ) {
                None => Err(LoadError::MetadataDecompression),
                Some(text) => if !valid_utf8(text) {
                    Err(LoadError::MetadataNotUtf8)
                } else if !json_parses(decode_utf8(text)) {
                    Err(LoadError::MetadataNotJson)
                } else if index_offset > d.len() {
                    Err(LoadError::IndexOutOfBounds)
                } else {
                    match parse_entries(d, index_offset as int, count as nat) {
                        None => Err(LoadError::TruncatedIndex),
                        Some((es, _)) => Ok((es, decode_utf8(text))),
                    }
                },
            }
        }
    }
}

/// Number of elements of a tensor of the given shape.
pub open spec fn shape_numel(shape: Seq<usize>) -> int
    decreases shape.len(),
{
    if shape.len() == 0 {
        1
    } else {
        shape_numel(shape.drop_last()) * shape.last()
    }
}

proof fn lemma_numel_zero(shape: Seq<usize>, i: int)
    requires
        0 <= i < shape.len(),
        shape[i] == 0,
    ensures
        shape_numel(shape) == 0,
    decreases shape.len(),
{
    if i < shape.len() - 1 {
        lemma_numel_zero(shape.drop_last(), i);
    }
}

proof fn lemma_numel_prefix(shape: Seq<usize>, i: int)
    requires
        0 <= i <= shape.len(),
        forall|k: int| 0 <= k < shape.len() ==> shape[k] >= 1,
    ensures
        shape_numel(shape.take(i)) <= shape_numel(shape),
        shape_numel(shape.take(i)) >= 1,
    decreases shape.len(),
{
    if shape.len() == 0 {
        assert(shape.take(i) =~= shape);
    } else if i == shape.len() {
        assert(shape.take(i) =~= shape);
        lemma_numel_prefix(shape.drop_last(), i - 1);
        assert(shape.drop_last().take(i - 1) =~= shape.drop_last());
        let a = shape_numel(shape.drop_last());
        let b = shape.last() as int;
        assert(a * b >= 1) by (nonlinear_arith)
            requires
                a >= 1,
                b >= 1,
        ;
    } else {
        lemma_numel_prefix(shape.drop_last(), i);
        assert(shape.drop_last().take(i) =~= shape.take(i));
        let a = shape_numel(shape.drop_last());
        let b = shape.last() as int;
        assert(a * b >= a) by (nonlinear_arith)
            requires
                a >= 1,
                b >= 1,
        ;
    }
}

proof fn lemma_parse_entries_stuck(d: Seq<u8>, start: int, k: nat, count: nat)
    requires
        k <= count,
        parse_entries(d, start, k) is None,
    ensures
        parse_entries(d, start, count) is None,
    decreases count - k,
{
    if k < count {
        lemma_parse_entries_stuck(d, start, k, (count - 1) as nat);
    }
}

/// An opened model file: its bytes, the hash index and the metadata text.
pub struct MtfEngine {
    data: Vec<u8>,
    tensor_index: HashMap<u64, TensorEntry>,
    metadata: String,
}

impl MtfEngine {
    /// The file bytes.
    pub closed spec fn data(&self) -> Seq<u8> {
        self.data@
    }

    /// The lookup table from name hash to index entry.
    pub closed spec fn index(&self) -> Map<u64, IndexEntry> {
        Map::new(
            |h: u64| self.tensor_index@.contains_key(h),
            |h: u64| self.tensor_index@[h].model(h),
        )
    }

    /// The metadata JSON text embedded in the file.
    pub closed spec fn metadata(&self) -> Seq<char> {
        self.metadata@
    }

    /// The metadata JSON text embedded in the file.
    pub fn metadata_json(&self) -> (s: &str)
        ensures
            s@ == self.metadata(),
    {
        self.metadata.as_str()
    }

    /// Whether the index holds an entry for the hash of `name`.
    pub fn contains_tensor(&self, name: &str) -> (b: bool)
        ensures
            b == self.index().contains_key(fnv1a(name.spec_bytes())),
    {
        let hash = mtf_hash_name(name);
        self.tensor_index.contains_key(&hash)
    }

    /// The little-endian F32 payload (four bytes per element of the shape) and
    /// the shape of the tensor called `name`.
    pub fn get_tensor_bytes(&self, name: &str) -> (res: Result<(&[u8], &[usize]), TensorError>)
        ensures
            !self.index().contains_key(fnv1a(name.spec_bytes())) ==> res == Err::<
                (&[u8], &[usize]),
                TensorError,
            >(TensorError::NotFound),
            self.index().contains_key(fnv1a(name.spec_bytes())) ==> {
                let e = self.index()[fnv1a(name.spec_bytes())];
                let byte_len = 4 * shape_numel(e.shape);
                if e.offset + byte_len <= self.data().len() {
                    res matches Ok((bytes, shape)) && bytes@ == self.data().subrange(
                        e.offset as int,
                        e.offset + byte_len,
                    ) && shape@ == e.shape
                } else {
                    res == Err::<(&[u8], &[usize]), TensorError>(TensorError::OutOfBounds)
                }
            },
    {
        let hash = mtf_hash_name(name);
        let entry = match self.tensor_index.get(&hash) {
            Some(e) => e,
            None => {
                return Err(TensorError::NotFound);
            },
        };
        assert(entry.model(hash) == self.index()[hash]);
        assert(self.data().len() == self.data.len());
        let shape = &entry.shape;
        let n = shape.len();
        let mut has_zero = false;
        let mut i: usize = 0;
        while i < n
            invariant
                n == shape@.len(),
                i <= n,
                has_zero == exists|k: int| 0 <= k < i && shape@[k] == 0,
            decreases n - i,
        {
            if shape[i] == 0 {
                has_zero = true;
            }
            i += 1;
        }
        let mut numel: usize = 1;
        if has_zero {
            proof {
                let k = choose|k: int| 0 <= k < n && shape@[k] == 0;
                lemma_numel_zero(shape@, k);
            }
            numel = 0;
        } else {
            let mut i: usize = 0;
            assert(shape@.take(0) =~= Seq::<usize>::empty());
            while i < n
                invariant
                    n == shape@.len(),
                    i <= n,
                    forall|k: int| 0 <= k < n ==> shape@[k] >= 1,
                    numel == shape_numel(shape@.take(i as int)),
                    hash == fnv1a(name.spec_bytes()),
                    self.index().contains_key(hash),
                    self.index()[hash].shape == shape@,
                    self.data().len() <= usize::MAX,
                decreases n - i,
            {
                assert(shape@.take(i + 1).drop_last() =~= shape@.take(i as int));
                match numel.checked_mul(shape[i]) {
                    Some(v) => {
                        numel = v;
                    },
                    None => {
                        proof {
                            lemma_numel_prefix(shape@, i + 1);
                        }
                        return Err(TensorError::OutOfBounds);
                    },
                }
                i += 1;
            }
            assert(shape@.take(n as int) =~= shape@);
        }
        let len = self.data.len();
        let byte_len = match numel.checked_mul(4) {
            Some(v) => v,
            None => {
                return Err(TensorError::OutOfBounds);
            },
        };
        if entry.offset > len as u64 || byte_len as u64 > len as u64 - entry.offset {
            return Err(TensorError::OutOfBounds);
        }
        let start = entry.offset as usize;
        let bytes = vstd::slice::slice_subrange(self.data.as_slice(), start, start + byte_len);
        Ok((bytes, shape.as_slice()))
    }

    /// Opens a model file held in memory: checks the magic, locates footer,
    /// metadata and index, decompresses the metadata and builds the hash index.
    pub fn from_bytes(data: Vec<u8>) -> (res: Result<MtfEngine, LoadError>)
        ensures
            match spec_load(data@) {
                Ok((es, text)) => res matches Ok(e) && e.data() == data@ && e.index() == index_map(
                    es,
                ) && e.metadata() == text,
                Err(err) => res == Err::<MtfEngine, LoadError>(err),
            },
    {
        let len = data.len();
        if len < 8 {
            return Err(LoadError::FileTooShort);
        }
        let mut m: usize = 0;
        while m < 8
            invariant
                m <= 8,
                len == data@.len(),
                len >= 8,
                forall|j: int| 0 <= j < m ==> data@[j] == magic_header_seq()[j],
            decreases 8 - m,
        {
            if data[m] != MAGIC_BYTES[m] {
                proof {
                    assert(MAGIC_BYTES@ =~= magic_header_seq());
                    assert(data@.subrange(0, 8)[m as int] != magic_header_seq()[m as int]);
                }
                return Err(LoadError::BadMagic);
            }
            proof {
                assert(MAGIC_BYTES@ =~= magic_header_seq());
            }
            m += 1;
        }
        assert(data@.subrange(0, 8) =~= magic_header_seq());
        if len < HEADER_SIZE + FOOTER_SIZE {
            return Err(LoadError::FileTooShort);
        }
        let f = len - FOOTER_SIZE;
        let index_offset = read_u64_le(data.as_slice(), f);
        let metadata_offset = read_u64_le(data.as_slice(), f + 8);
        let metadata_size = read_u64_le(data.as_slice(), f + 16);
        let count = read_u64_le(data.as_slice(), 12);
        if metadata_offset > len as u64 || metadata_size > len as u64 - metadata_offset {
            return Err(LoadError::MetadataOutOfBounds);
        }
        let meta_start = metadata_offset as usize;
        let meta_end = meta_start + metadata_size as usize;
        let meta_bytes = vstd::slice::slice_subrange(data.as_slice(), meta_start, meta_end);
        let decompressed = match zstd_decompress(meta_bytes) {
            Some(v) => v,
            None => {
                return Err(LoadError::MetadataDecompression);
            },
        };
        let ghost text = decompressed@;
        let metadata = match string_from_utf8(decompressed) {
            Some(s) => s,
            None => {
                return Err(LoadError::MetadataNotUtf8);
            },
        };
        if !json_text_parses(metadata.as_str()) {
            return Err(LoadError::MetadataNotJson);
        }
        if index_offset > len as u64 {
            return Err(LoadError::IndexOutOfBounds);
        }
        let start = index_offset as usize;
        assert(meta_bytes@ == data@.subrange(metadata_offset as int, metadata_offset + metadata_size));
        let mut tensor_index: HashMap<u64, TensorEntry> = HashMap::new();
        let mut pos: usize = start;
        let mut k: u64 = 0;
        let ghost mut es: Seq<IndexEntry> = seq![];
        while k < count
            invariant
                len == data@.len(),
                start <= len,
                k <= count,
                parse_entries(data@, start as int, k as nat) == Some((es, pos as int)),
                spec_load(data@) == match parse_entries(data@, start as int, count as nat) {
                    None => Err(LoadError::TruncatedIndex),
                    Some((es2, _)) => Ok((es2, metadata@)),
                },
                pos <= len,
                tensor_index@.dom() == index_map(es).dom(),
                forall|h: u64| #[trigger]
                    tensor_index@.contains_key(h) ==> tensor_index@[h].model(h) == index_map(
                        es,
                    )[h],
                forall|h: u64| #[trigger] index_map(es).contains_key(h) ==> index_map(es)[h].hash == h,
            decreases count - k,
        {
            if len - pos < 18 {
                proof {
                    assert(parse_entry(data@, pos as int) is None);
                    assert(parse_entries(data@, start as int, (k + 1) as nat) is None);
                    lemma_parse_entries_stuck(data@, start as int, (k + 1) as nat, count as nat);
                }
                return Err(LoadError::TruncatedIndex);
            }
            let hash = read_u64_le(data.as_slice(), pos);
            let ndim = data[pos + 8];
            let dtype = data[pos + 9];
            let offset = read_u64_le(data.as_slice(), pos + 10);
            if (len - pos - 18) / 4 < ndim as usize {
                proof {
                    assert(parse_entry(data@, pos as int) is None);
                    assert(parse_entries(data@, start as int, (k + 1) as nat) is None);
                    lemma_parse_entries_stuck(data@, start as int, (k + 1) as nat, count as nat);
                }
                return Err(LoadError::TruncatedIndex);
            }
            let dims_start = pos + 18;
            let mut shape: Vec<usize> = Vec::new();
            let mut j: usize = 0;
            while j < ndim as usize
                invariant
                    j <= ndim,
                    len == data@.len(),
                    dims_start + 4 * (ndim as int) <= len,
                    shape@ == parse_dims(data@, dims_start as int, j as nat),
                decreases ndim - j,
            {
                let dim = read_u32_le(data.as_slice(), dims_start + 4 * j);
                shape.push(dim as usize);
                j += 1;
            }
            let ghost entry = IndexEntry { hash, shape: shape@, dtype, offset };
            proof {
                assert(parse_entry(data@, pos as int) == Some((entry, dims_start + 4 * ndim)));
                let prev = es;
                es = es.push(entry);
                assert(es.drop_last() =~= prev);
            }
            tensor_index.insert(hash, TensorEntry { offset, shape, dtype });
            pos = dims_start + 4 * (ndim as usize);
            k += 1;
            proof {
                assert(tensor_index@.dom() =~= index_map(es).dom());
            }
        }
        let e = MtfEngine { data, tensor_index, metadata };
        assert(e.index() =~= index_map(es));
        Ok(e)
    }
}

} // verus!
