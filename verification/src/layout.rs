use vstd::prelude::*;
use crate::bytes::{le_u32, le_u64, zeros, push_u32_le, push_u64_le, push_zeros, push_all};
use crate::format::{
    FORMAT_VERSION, HEADER_SIZE, MAGIC_BYTES, MAGIC_FOOTER, magic_header_seq, magic_footer_seq,
    spec_padding, align_up, padding_needed,
};
use crate::tensor::CompileTensor;
use crate::sort::SortKey;

verus! {

/// What the file stores of one tensor.
pub struct TensorRecord {
    pub hash: u64,
    pub shape: Seq<usize>,
    pub dtype: u8,
    pub data: Seq<u8>,
}

impl SortKey for TensorRecord {
    open spec fn sort_key(&self) -> u64 {
        self.hash
    }
}

/// The records of a sequence of tensors.
pub open spec fn records_of<'a>(ts: Seq<CompileTensor<'a>>) -> Seq<TensorRecord> {
    ts.map_values(|t: CompileTensor<'a>| t.record())
}

/// Header: magic, format version, tensor count, 44 reserved zero bytes.
pub open spec fn header_bytes(count: u64) -> Seq<u8> {
    magic_header_seq() + le_u32(FORMAT_VERSION) + le_u64(count) + zeros(44)
}

/// The payloads following the header, each preceded by the zero padding that
/// puts it on a 256-byte boundary of the file.
pub open spec fn payload_region(ts: Seq<TensorRecord>) -> Seq<u8>
    decreases ts.len(),
{
    if ts.len() == 0 {
        seq![]
    } else {
        let prev = payload_region(ts.drop_last());
        let pos = HEADER_SIZE + prev.len();
        prev + zeros(spec_padding(pos) as nat) + ts.last().data
    }
}

/// Absolute file offset of the payload of `ts[i]`.
pub open spec fn payload_offset(ts: Seq<TensorRecord>, i: int) -> int {
    align_up(HEADER_SIZE + payload_region(ts.take(i)).len())
}

/// Each dimension as a little-endian `u32` (truncated to 32 bits).
pub open spec fn dims_bytes(shape: Seq<usize>) -> Seq<u8>
    decreases shape.len(),
{
    if shape.len() == 0 {
        seq![]
    } else {
        dims_bytes(shape.drop_last()) + le_u32(shape.last() as u32)
    }
}

/// One index entry: hash, rank (truncated to a byte), element code, payload
/// offset, dimensions.
pub open spec fn index_entry_bytes(r: TensorRecord, offset: u64) -> Seq<u8> {
    le_u64(r.hash) + seq![r.shape.len() as u8, r.dtype] + le_u64(offset) + dims_bytes(r.shape)
}

/// The index: one entry per tensor, in file order.
pub open spec fn index_region(ts: Seq<TensorRecord>) -> Seq<u8>
    decreases ts.len(),
{
    if ts.len() == 0 {
        seq![]
    } else {
        index_region(ts.drop_last()) + index_entry_bytes(
            ts.last(),
            payload_offset(ts, ts.len() - 1) as u64,
        )
    }
}

/// Footer: index offset, metadata offset, metadata size, format version,
/// 28 reserved zero bytes, footer magic.
pub open spec fn footer_bytes(index_offset: u64, metadata_offset: u64, metadata_size: u64) -> Seq<
    u8,
> {
    le_u64(index_offset) + le_u64(metadata_offset) + le_u64(metadata_size) + le_u32(FORMAT_VERSION)
        + zeros(28) + magic_footer_seq()
}

/// Header and payloads.
pub open spec fn body_bytes(ts: Seq<TensorRecord>) -> Seq<u8> {
    header_bytes(ts.len() as u64) + payload_region(ts)
}

/// The whole file for tensors `ts` (in file order) and compressed metadata `meta`.
pub open spec fn mtf_file(ts: Seq<TensorRecord>, meta: Seq<u8>) -> Seq<u8> {
    let body = body_bytes(ts);
    let with_index = body + index_region(ts);
    with_index + meta + footer_bytes(body.len() as u64, with_index.len() as u64, meta.len() as u64)
}

fn push_magic(out: &mut Vec<u8>, magic: &[u8; 8])
    ensures
        final(out)@ == old(out)@ + magic@,
{
    let mut i: usize = 0;
    while i < 8
        invariant
            i <= 8,
            out@ == old(out)@ + magic@.take(i as int),
        decreases 8 - i,
    {
        out.push(magic[i]);
        i += 1;
        assert(out@ =~= old(out)@ + magic@.take(i as int));
    }
    assert(magic@.take(8) =~= magic@);
}

proof fn lemma_magic_values()
    ensures
        MAGIC_BYTES@ == magic_header_seq(),
        MAGIC_FOOTER@ == magic_footer_seq(),
{
    assert(MAGIC_BYTES@ =~= magic_header_seq());
    assert(MAGIC_FOOTER@ =~= magic_footer_seq());
}

fn push_dims(out: &mut Vec<u8>, shape: &Vec<usize>)
    ensures
        final(out)@ == old(out)@ + dims_bytes(shape@),
{
    let mut j: usize = 0;
    while j < shape.len()
        invariant
            j <= shape@.len(),
            out@ == old(out)@ + dims_bytes(shape@.take(j as int)),
        decreases shape@.len() - j,
    {
        assert(shape@.take(j + 1).drop_last() =~= shape@.take(j as int));
        push_u32_le(out, shape[j] as u32);
        j += 1;
        assert(out@ =~= old(out)@ + dims_bytes(shape@.take(j as int)));
    }
    assert(shape@.take(shape@.len() as int) =~= shape@);
}

/// Lays the tensors out in the given order and returns the complete file:
/// header, aligned payloads, index, metadata, footer. Each returned tensor
/// carries the offset its payload was written at.
pub fn write_mtf_file<'a>(tensors: Vec<CompileTensor<'a>>, compressed_meta: &[u8]) -> (res: (
    Vec<u8>,
    Vec<CompileTensor<'a>>,
))
    ensures
        res.0@ == mtf_file(records_of(tensors@), compressed_meta@),
        res.1@.len() == tensors@.len(),
        forall|i: int|
            0 <= i < tensors@.len() ==> {
                &&& (#[trigger] res.1@[i]).record() == tensors@[i].record()
                &&& res.1@[i].name == tensors@[i].name
                &&& res.1@[i].absolute_offset == payload_offset(records_of(tensors@), i) as u64
            },
{
    let ghost recs = records_of(tensors@);
    let ghost orig = tensors@;
    let n = tensors.len();
    let mut out: Vec<u8> = Vec::new();
    proof {
        lemma_magic_values();
    }
    push_magic(&mut out, &MAGIC_BYTES);
    push_u32_le(&mut out, FORMAT_VERSION);
    push_u64_le(&mut out, n as u64);
    push_zeros(&mut out, 44);
    assert(out@ =~= header_bytes(recs.len() as u64));
    let ghost header = out@;

    let mut rest = tensors;
    let mut placed: Vec<CompileTensor<'a>> = Vec::new();
    let mut i: usize = 0;
    assert(orig.skip(0) =~= orig);
    assert(recs.take(0) =~= Seq::<TensorRecord>::empty());
    assert(out@ =~= header + payload_region(recs.take(0)));
    while i < n
        invariant
            n == orig.len(),
            recs == records_of(orig),
            header.len() == HEADER_SIZE,
            header == header_bytes(recs.len() as u64),
            i <= n,
            rest@ == orig.skip(i as int),
            out@ == header + payload_region(recs.take(i as int)),
            placed@.len() == i,
            forall|k: int|
                0 <= k < i ==> {
                    &&& (#[trigger] placed@[k]).record() == orig[k].record()
                    &&& placed@[k].name == orig[k].name
                    &&& placed@[k].absolute_offset == payload_offset(recs, k) as u64
                },
        decreases n - i,
    {
        let mut t = rest.remove(0);
        assert(t == orig[i as int]);
        let ghost prev = out@;
        let pad = padding_needed(out.len() as u64);
        push_zeros(&mut out, pad as usize);
        let offset = out.len() as u64;
        push_all(&mut out, t.raw_data.as_slice());
        t.absolute_offset = offset;
        proof {
            let ri = recs.take(i + 1);
            assert(ri.drop_last() =~= recs.take(i as int));
            assert(ri.last() == orig[i as int].record());
            assert(out@ =~= header + payload_region(ri));
            assert(offset == payload_offset(recs, i as int));
            assert(rest@ =~= orig.skip(i + 1));
        }
        placed.push(t);
        i += 1;
    }
    assert(recs.take(n as int) =~= recs);
    assert(out@ =~= body_bytes(recs));
    let ghost body = out@;
    let index_offset = out.len() as u64;

    let mut i: usize = 0;
    assert(recs.take(0) =~= Seq::<TensorRecord>::empty());
    assert(out@ =~= body + index_region(recs.take(0)));
    while i < n
        invariant
            n == orig.len(),
            recs == records_of(orig),
            body == body_bytes(recs),
            index_offset == body.len(),
            i <= n,
            placed@.len() == n,
            forall|k: int|
                0 <= k < n ==> {
                    &&& (#[trigger] placed@[k]).record() == orig[k].record()
                    &&& placed@[k].name == orig[k].name
                    &&& placed@[k].absolute_offset == payload_offset(recs, k) as u64
                },
            out@ == body + index_region(recs.take(i as int)),
        decreases n - i,
    {
        let t = &placed[i];
        let ghost before = out@;
        push_u64_le(&mut out, t.hash);
        out.push(t.shape.len() as u8);
        out.push(t.data_type);
        push_u64_le(&mut out, t.absolute_offset);
        push_dims(&mut out, &t.shape);
        proof {
            let ri = recs.take(i + 1);
            assert(ri.drop_last() =~= recs.take(i as int));
            assert(ri.last() == orig[i as int].record());
            assert(ri.take(i as int) =~= recs.take(i as int));
            assert(payload_offset(ri, i as int) == payload_offset(recs, i as int));
            assert(out@ =~= before + index_entry_bytes(recs[i as int], t.absolute_offset));
            assert(out@ =~= body + index_region(ri));
        }
        i += 1;
    }
    assert(recs.take(n as int) =~= recs);
    let metadata_offset = out.len() as u64;
    push_all(&mut out, compressed_meta);
    push_u64_le(&mut out, index_offset);
    push_u64_le(&mut out, metadata_offset);
    push_u64_le(&mut out, compressed_meta.len() as u64);
    push_u32_le(&mut out, FORMAT_VERSION);
    push_zeros(&mut out, 28);
    push_magic(&mut out, &MAGIC_FOOTER);
    assert(out@ =~= mtf_file(recs, compressed_meta@));
    (out, placed)
}

} // verus!
