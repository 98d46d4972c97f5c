use vstd::prelude::*;
use vstd::utf8::{valid_utf8, decode_utf8};
use crate::bytes::{le_u32, le_u64, zeros, u64_at, lemma_u32_roundtrip, lemma_u64_roundtrip};
use crate::codec::zstd_decode_all;
use crate::metadata::json_parses;
use crate::engine::{IndexEntry, parse_dims, parse_entry, parse_entries, spec_load, footer_start};
use crate::format::{HEADER_SIZE, FOOTER_SIZE, magic_header_seq, spec_padding};
use crate::layout::{
    TensorRecord, header_bytes, payload_region, payload_offset, dims_bytes, index_entry_bytes,
    index_region, footer_bytes, body_bytes, mtf_file,
};

verus! {

/// The index entries a reader finds for tensors laid out in the order `ts`.
pub open spec fn expected_entries(ts: Seq<TensorRecord>) -> Seq<IndexEntry> {
    Seq::new(
        ts.len(),
        |i: int|
            IndexEntry {
                hash: ts[i].hash,
                shape: ts[i].shape,
                dtype: ts[i].dtype,
                offset: payload_offset(ts, i) as u64,
            },
    )
}

/// Every shape fits the index encoding: at most 255 dimensions, each below 2^32.
pub open spec fn shapes_encodable(ts: Seq<TensorRecord>) -> bool {
    forall|i: int|
        0 <= i < ts.len() ==> {
            &&& (#[trigger] ts[i]).shape.len() <= 255
            &&& forall|k: int| 0 <= k < ts[i].shape.len() ==> #[trigger] ts[i].shape[k] <= u32::MAX
        }
}

proof fn lemma_window(d: Seq<u8>, p: int, x: Seq<u8>, i: int, j: int)
    requires
        0 <= p,
        p + x.len() <= d.len(),
        d.subrange(p, p + x.len()) == x,
        0 <= i <= j <= x.len(),
    ensures
        d.subrange(p + i, p + j) == x.subrange(i, j),
{
    assert(d.subrange(p + i, p + j) =~= x.subrange(i, j)) by {
        assert forall|k: int| 0 <= k < j - i implies d.subrange(p + i, p + j)[k] == x.subrange(
            i,
            j,
        )[k] by {
            assert(d.subrange(p, p + x.len())[i + k] == x[i + k]);
        }
    }
}

proof fn lemma_dims_len(shape: Seq<usize>)
    ensures
        dims_bytes(shape).len() == 4 * shape.len(),
    decreases shape.len(),
{
    if shape.len() > 0 {
        lemma_dims_len(shape.drop_last());
    }
}

proof fn lemma_parse_dims(d: Seq<u8>, p: int, shape: Seq<usize>)
    requires
        0 <= p,
        p + 4 * shape.len() <= d.len(),
        d.subrange(p, p + 4 * shape.len()) == dims_bytes(shape),
        forall|k: int| 0 <= k < shape.len() ==> #[trigger] shape[k] <= u32::MAX,
    ensures
        parse_dims(d, p, shape.len()) == shape,
    decreases shape.len(),
{
    lemma_dims_len(shape);
    if shape.len() > 0 {
        let n = shape.len() as int;
        let init = shape.drop_last();
        lemma_dims_len(init);
        let x = dims_bytes(shape);
        assert(x == dims_bytes(init) + le_u32(shape.last() as u32));
        lemma_window(d, p, x, 0, 4 * (n - 1));
        assert(x.subrange(0, 4 * (n - 1)) =~= dims_bytes(init));
        assert forall|k: int| 0 <= k < init.len() implies #[trigger] init[k] <= u32::MAX by {
            assert(init[k] == shape[k]);
        }
        lemma_parse_dims(d, p, init);
        lemma_window(d, p, x, 4 * (n - 1), 4 * n);
        assert(x.subrange(4 * (n - 1), 4 * n) =~= le_u32(shape.last() as u32));
        lemma_u32_roundtrip(d, p + 4 * (n - 1), shape.last() as u32);
        assert(parse_dims(d, p, shape.len()) =~= shape);
    }
}

proof fn lemma_entry_len(r: TensorRecord, o: u64)
    ensures
        index_entry_bytes(r, o).len() == 18 + 4 * r.shape.len(),
{
    lemma_dims_len(r.shape);
}

proof fn lemma_parse_entry(d: Seq<u8>, pos: int, r: TensorRecord, o: u64)
    requires
        0 <= pos,
        pos + index_entry_bytes(r, o).len() <= d.len(),
        d.subrange(pos, pos + index_entry_bytes(r, o).len()) == index_entry_bytes(r, o),
        r.shape.len() <= 255,
        forall|k: int| 0 <= k < r.shape.len() ==> #[trigger] r.shape[k] <= u32::MAX,
    ensures
        parse_entry(d, pos) == Some(
            (
                IndexEntry { hash: r.hash, shape: r.shape, dtype: r.dtype, offset: o },
                pos + index_entry_bytes(r, o).len(),
            ),
        ),
{
    let x = index_entry_bytes(r, o);
    let n = r.shape.len() as int;
    lemma_entry_len(r, o);
    lemma_dims_len(r.shape);
    lemma_window(d, pos, x, 0, 8);
    assert(x.subrange(0, 8) =~= le_u64(r.hash));
    lemma_u64_roundtrip(d, pos, r.hash);
    lemma_window(d, pos, x, 8, 10);
    assert(x.subrange(8, 10) =~= seq![n as u8, r.dtype]);
    assert(d[pos + 8] == d.subrange(pos + 8, pos + 10)[0]);
    assert(d[pos + 9] == d.subrange(pos + 8, pos + 10)[1]);
    assert((n as u8) as nat == n);
    lemma_window(d, pos, x, 10, 18);
    assert(x.subrange(10, 18) =~= le_u64(o));
    lemma_u64_roundtrip(d, pos + 10, o);
    lemma_window(d, pos, x, 18, 18 + 4 * n);
    assert(x.subrange(18, 18 + 4 * n) =~= dims_bytes(r.shape));
    lemma_parse_dims(d, pos + 18, r.shape);
}

proof fn lemma_index_prefix(ts: Seq<TensorRecord>, j: int)
    requires
        0 <= j <= ts.len(),
    ensures
        index_region(ts.take(j)).len() <= index_region(ts).len(),
        index_region(ts).subrange(0, index_region(ts.take(j)).len() as int) == index_region(
            ts.take(j),
        ),
    decreases ts.len(),
{
    if j == ts.len() {
        assert(ts.take(j) =~= ts);
        assert(index_region(ts).subrange(0, index_region(ts).len() as int) =~= index_region(ts));
    } else {
        let init = ts.drop_last();
        lemma_index_prefix(init, j);
        assert(init.take(j) =~= ts.take(j));
        let a = index_region(init);
        let b = index_region(ts.take(j));
        assert(index_region(ts).subrange(0, b.len() as int) =~= a.subrange(0, b.len() as int));
    }
}

proof fn lemma_payload_prefix(ts: Seq<TensorRecord>, j: int)
    requires
        0 <= j <= ts.len(),
    ensures
        payload_region(ts.take(j)).len() <= payload_region(ts).len(),
        payload_region(ts).subrange(0, payload_region(ts.take(j)).len() as int) == payload_region(
            ts.take(j),
        ),
    decreases ts.len(),
{
    if j == ts.len() {
        assert(ts.take(j) =~= ts);
        assert(payload_region(ts).subrange(0, payload_region(ts).len() as int) =~= payload_region(
            ts,
        ));
    } else {
        let init = ts.drop_last();
        lemma_payload_prefix(init, j);
        assert(init.take(j) =~= ts.take(j));
        let a = payload_region(init);
        let b = payload_region(ts.take(j));
        assert(payload_region(ts).subrange(0, b.len() as int) =~= a.subrange(0, b.len() as int));
    }
}

proof fn lemma_parse_index(d: Seq<u8>, io: int, ts: Seq<TensorRecord>, k: int)
    requires
        0 <= io,
        io + index_region(ts).len() <= d.len(),
        d.subrange(io, io + index_region(ts).len()) == index_region(ts),
        0 <= k <= ts.len(),
        shapes_encodable(ts),
    ensures
        parse_entries(d, io, k as nat) == Some(
            (expected_entries(ts).take(k), io + index_region(ts.take(k)).len()),
        ),
    decreases k,
{
    if k == 0 {
        assert(expected_entries(ts).take(0) =~= Seq::<IndexEntry>::empty());
        assert(ts.take(0) =~= Seq::<TensorRecord>::empty());
    } else {
        lemma_parse_index(d, io, ts, k - 1);
        let tk = ts.take(k);
        assert(tk.drop_last() =~= ts.take(k - 1));
        assert(tk.last() == ts[k - 1]);
        assert(tk.take(k - 1) =~= ts.take(k - 1));
        assert(payload_offset(tk, k - 1) == payload_offset(ts, k - 1));
        let o = payload_offset(ts, k - 1) as u64;
        let e = index_entry_bytes(ts[k - 1], o);
        let prev = index_region(ts.take(k - 1));
        assert(index_region(tk) == prev + e);
        lemma_index_prefix(ts, k);
        let whole = index_region(ts);
        lemma_window(d, io, whole, prev.len() as int, (prev.len() + e.len()) as int);
        assert(whole.subrange(prev.len() as int, (prev.len() + e.len()) as int) =~= e) by {
            assert(whole.subrange(0, (prev.len() + e.len()) as int) == prev + e);
            assert forall|m: int| 0 <= m < e.len() implies whole.subrange(
                prev.len() as int,
                (prev.len() + e.len()) as int,
            )[m] == e[m] by {
                assert(whole.subrange(0, (prev.len() + e.len()) as int)[prev.len() + m] == (prev
                    + e)[prev.len() + m]);
            }
        }
        assert(ts[k - 1].shape.len() <= 255);
        lemma_parse_entry(d, io + prev.len(), ts[k - 1], o);
        assert(expected_entries(ts).take(k) =~= expected_entries(ts).take(k - 1).push(
            expected_entries(ts)[k - 1],
        ));
    }
}


proof fn lemma_header_len(c: u64)
    ensures
        header_bytes(c).len() == HEADER_SIZE,
{
}

proof fn lemma_footer_len(a: u64, b: u64, c: u64)
    ensures
        footer_bytes(a, b, c).len() == FOOTER_SIZE,
{
}

proof fn lemma_index_len(ts: Seq<TensorRecord>)
    ensures
        index_region(ts).len() >= 18 * ts.len(),
    decreases ts.len(),
{
    if ts.len() > 0 {
        lemma_index_len(ts.drop_last());
        lemma_entry_len(ts.last(), payload_offset(ts, ts.len() - 1) as u64);
    }
}

/// Offsets and sizes the footer of a written file records.
proof fn lemma_written_fields(ts: Seq<TensorRecord>, meta: Seq<u8>)
    requires
        mtf_file(ts, meta).len() <= u64::MAX,
    ensures
        ({
            let d = mtf_file(ts, meta);
            let body = body_bytes(ts);
            let idx = index_region(ts);
            let f = footer_start(d);
            &&& d.len() >= HEADER_SIZE + FOOTER_SIZE
            &&& d.subrange(0, 8) == magic_header_seq()
            &&& u64_at(d, 12) == ts.len()
            &&& f == body.len() + idx.len() + meta.len()
            &&& u64_at(d, f) == body.len()
            &&& u64_at(d, f + 8) == body.len() + idx.len()
            &&& u64_at(d, f + 16) == meta.len()
            &&& d.subrange((body.len() + idx.len()) as int, (body.len() + idx.len() + meta.len()) as int)
                == meta
            &&& d.subrange(body.len() as int, (body.len() + idx.len()) as int) == idx
        }),
{
    let d = mtf_file(ts, meta);
    let header = header_bytes(ts.len() as u64);
    let body = body_bytes(ts);
    let idx = index_region(ts);
    let with_index = body + idx;
    let foot = footer_bytes(body.len() as u64, with_index.len() as u64, meta.len() as u64);
    lemma_header_len(ts.len() as u64);
    lemma_footer_len(body.len() as u64, with_index.len() as u64, meta.len() as u64);
    assert(d == with_index + meta + foot);
    assert(body == header + payload_region(ts));
    assert(body.len() >= HEADER_SIZE);
    assert forall|m: int| 0 <= m < 20 implies d[m] == header[m] by {
        assert(d[m] == with_index[m]);
        assert(with_index[m] == body[m]);
        assert(body[m] == header[m]);
    }
    assert(d.subrange(0, 8) =~= magic_header_seq()) by {
        assert forall|m: int| 0 <= m < 8 implies d.subrange(0, 8)[m] == magic_header_seq()[m] by {
            assert(d[m] == header[m]);
        }
    }
    assert(d.subrange(12, 20) =~= le_u64(ts.len() as u64)) by {
        assert forall|m: int| 0 <= m < 8 implies d.subrange(12, 20)[m] == le_u64(
            ts.len() as u64,
        )[m] by {
            assert(d[12 + m] == header[12 + m]);
        }
    }
    lemma_u64_roundtrip(d, 12, ts.len() as u64);
    let f = footer_start(d);
    assert(d.subrange(f, d.len() as int) =~= foot);
    lemma_window(d, f, foot, 0, 8);
    assert(foot.subrange(0, 8) =~= le_u64(body.len() as u64));
    lemma_u64_roundtrip(d, f, body.len() as u64);
    lemma_window(d, f, foot, 8, 16);
    assert(foot.subrange(8, 16) =~= le_u64(with_index.len() as u64));
    lemma_u64_roundtrip(d, f + 8, with_index.len() as u64);
    lemma_window(d, f, foot, 16, 24);
    assert(foot.subrange(16, 24) =~= le_u64(meta.len() as u64));
    lemma_u64_roundtrip(d, f + 16, meta.len() as u64);
    assert(d.subrange(with_index.len() as int, (with_index.len() + meta.len()) as int) =~= meta);
    assert(d.subrange(body.len() as int, (body.len() + idx.len()) as int) =~= idx);
    lemma_index_len(ts);
    assert(ts.len() <= d.len());
    assert(u64_at(d, 12) == ts.len());
    assert(u64_at(d, f) == body.len());
    assert(u64_at(d, f + 8) == body.len() + idx.len());
    assert(u64_at(d, f + 16) == meta.len());
}

/// Reading back a written file: the reader finds the header magic, the index
/// entries of the tensors in the order they were written (with the offsets
/// their payloads were written at) and the metadata text whose UTF-8 bytes
/// were compressed into the file, when that text is JSON.
pub proof fn lemma_load_written_file(ts: Seq<TensorRecord>, meta: Seq<u8>, text: Seq<u8>)
    requires
        zstd_decode_all(meta) == Some(text),
        valid_utf8(text),
        json_parses(decode_utf8(text)),
        shapes_encodable(ts),
        mtf_file(ts, meta).len() <= u64::MAX,
    ensures
        spec_load(mtf_file(ts, meta)) == Ok::<(Seq<IndexEntry>, Seq<char>), crate::engine::LoadError>(
            (expected_entries(ts), decode_utf8(text)),
        ),
{
    let d = mtf_file(ts, meta);
    let body = body_bytes(ts);
    let idx = index_region(ts);
    lemma_written_fields(ts, meta);
    lemma_parse_index(d, body.len() as int, ts, ts.len() as int);
    assert(expected_entries(ts).take(ts.len() as int) =~= expected_entries(ts));
    assert(ts.take(ts.len() as int) =~= ts);
}

/// A payload written for `ts[i]` is found at the offset recorded for it.
pub proof fn lemma_payload_at_offset(ts: Seq<TensorRecord>, meta: Seq<u8>, i: int)
    requires
        0 <= i < ts.len(),
    ensures
        payload_offset(ts, i) + ts[i].data.len() <= mtf_file(ts, meta).len(),
        mtf_file(ts, meta).subrange(payload_offset(ts, i), payload_offset(ts, i) + ts[i].data.len())
            == ts[i].data,
{
    let d = mtf_file(ts, meta);
    let header = header_bytes(ts.len() as u64);
    lemma_header_len(ts.len() as u64);
    let pay = payload_region(ts);
    let ti = ts.take(i + 1);
    assert(ti.drop_last() =~= ts.take(i));
    assert(ti.last() == ts[i]);
    let prev = payload_region(ts.take(i));
    let pos = HEADER_SIZE + prev.len();
    let pad = zeros(spec_padding(pos) as nat);
    assert(payload_region(ti) == prev + pad + ts[i].data);
    lemma_payload_prefix(ts, i + 1);
    let start = payload_offset(ts, i);
    assert(start == HEADER_SIZE + prev.len() + pad.len());
    let len = ts[i].data.len();
    assert(d.subrange(start, start + len) =~= ts[i].data) by {
        assert forall|m: int| 0 <= m < len implies d.subrange(start, start + len)[m]
            == ts[i].data[m] by {
            let q = prev.len() + pad.len() + m;
            assert(pay.subrange(0, payload_region(ti).len() as int)[q] == payload_region(ti)[q]);
            assert(d[start + m] == pay[q]);
        }
    }
}

} // verus!
