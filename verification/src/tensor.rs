use vstd::prelude::*;
use vstd::arithmetic::power2::{pow2, lemma_pow2_unfold, lemma2_to64};
use crate::bytes::{le_u32, push_u32_le};
use crate::sort::{SortKey, stable_sort_by_key, lemma_insert_at};
use crate::layout::TensorRecord;

verus! {

/// Element types of source tensors that the conversion tells apart.
#[derive(Debug, Clone, Copy, PartialEq, Eq, Structural)]
pub enum SourceDtype {
    F32,
    F16,
    BF16,
    /// Any other element type; its bytes are carried over unchanged.
    Other,
}

/// Payload bytes of a tensor: borrowed from the source file or freshly converted.
pub enum TensorData<'a> {
    Borrowed(&'a [u8]),
    Owned(Vec<u8>),
}

impl<'a> TensorData<'a> {
    /// The payload bytes.
    pub open spec fn bytes(&self) -> Seq<u8> {
        match self {
            TensorData::Borrowed(s) => s@,
            TensorData::Owned(v) => v@,
        }
    }

    /// The payload bytes as a slice.
    pub fn as_slice(&self) -> (s: &[u8])
        ensures
            s@ == self.bytes(),
    {
        match self {
            TensorData::Borrowed(s) => s,
            TensorData::Owned(v) => v.as_slice(),
        }
    }
}

/// Brings a non-zero subnormal half mantissa into `[1024, 2048)`, counting the shifts.
pub open spec fn normalize_mantissa(m: nat, k: nat) -> (nat, nat)
    decreases (if m >= 1024 { 0 } else { 1024 - m }),
{
    if m >= 1024 || m == 0 {
        (m, k)
    } else {
        normalize_mantissa(2 * m, k + 1)
    }
}

/// Bit pattern of the `f32` equal to the IEEE binary16 value `h`
/// (every NaN becomes the canonical quiet NaN `0x7fc00000`).
pub open spec fn f16_to_f32_bits(h: u16) -> u32 {
    let sign = ((h >> 15u16) & 1u16) as u32;
    let exp = ((h >> 10u16) & 0x1fu16) as u32;
    let mant = (h & 0x3ffu16) as u32;
    let s32 = sign << 31u32;
    if exp == 0 {
        if mant == 0 {
            s32
        } else {
            let (m, k) = normalize_mantissa(mant as nat, 0);
            s32 | (((113 - k) as u32) << 23u32) | (((m as u32) & 0x3ffu32) << 13u32)
        }
    } else if exp == 31 {
        if mant == 0 {
            s32 | 0x7f80_0000u32
        } else {
            0x7fc0_0000u32
        }
    } else {
        s32 | (((exp + 112) as u32) << 23u32) | (mant << 13u32)
    }
}

/// Bit pattern of the `f32` equal to the bfloat16 value `b`.
pub open spec fn bf16_to_f32_bits(b: u16) -> u32 {
    (b as u32) << 16u32
}

/// The `u16` stored little-endian in two bytes.
pub open spec fn u16_le(lo: u8, hi: u8) -> u16 {
    (lo as u16) | ((hi as u16) << 8u16)
}

/// Bit pattern of the `f32` decoded from a little-endian half (binary16 or bfloat16).
pub open spec fn spec_decode_half_bits(lo: u8, hi: u8, is_bf16: bool) -> u32 {
    if is_bf16 {
        bf16_to_f32_bits(u16_le(lo, hi))
    } else {
        f16_to_f32_bits(u16_le(lo, hi))
    }
}

/// The `f32` bit pattern of a little-endian half-precision value; `is_bf16`
/// selects bfloat16 instead of IEEE binary16.
pub fn decode_half_bits(bytes: [u8; 2], is_bf16: bool) -> (bits: u32)
    ensures
        bits == spec_decode_half_bits(bytes[0], bytes[1], is_bf16),
{
    let u: u16 = (bytes[0] as u16) | ((bytes[1] as u16) << 8u16);
    if is_bf16 {
        (u as u32) << 16u32
    } else {
        let sign = ((u >> 15u16) & 1u16) as u32;
        let exp = ((u >> 10u16) & 0x1fu16) as u32;
        let mant = (u & 0x3ffu16) as u32;
        let s32 = sign << 31u32;
        assert(u & 0x3ffu16 <= 0x3ff) by (bit_vector);
        if exp == 0 {
            if mant == 0 {
                s32
            } else {
                let mut m: u32 = mant;
                let mut k: u32 = 0;
                proof {
                    lemma2_to64();
                }
                while m < 1024
                    invariant
                        0 < m < 2048,
                        k <= 10,
                        m >= pow2(k as nat),
                        normalize_mantissa(m as nat, k as nat) == normalize_mantissa(
                            mant as nat,
                            0,
                        ),
                    decreases 2048 - m,
                {
                    proof {
                        lemma2_to64();
                        lemma_pow2_unfold((k + 1) as nat);
                        if k >= 10 {
                            vstd::arithmetic::power2::lemma_pow2_strictly_increases(10, k as nat);
                        }
                    }
                    m = m * 2;
                    k = k + 1;
                }
                s32 | ((113 - k) << 23u32) | ((m & 0x3ffu32) << 13u32)
            }
        } else if exp == 31 {
            if mant == 0 {
                s32 | 0x7f80_0000u32
            } else {
                0x7fc0_0000u32
            }
        } else {
            s32 | ((exp + 112) << 23u32) | (mant << 13u32)
        }
    }
}


/// Converted bytes of the first `n` two-byte elements of `raw`: each half
/// becomes the four little-endian bytes of the equal `f32`.
pub open spec fn converted_prefix(raw: Seq<u8>, n: nat, is_bf16: bool) -> Seq<u8>
    decreases n,
{
    if n == 0 {
        seq![]
    } else {
        let j = 2 * (n - 1);
        converted_prefix(raw, (n - 1) as nat, is_bf16) + le_u32(
            spec_decode_half_bits(raw[j], raw[j + 1], is_bf16),
        )
    }
}

/// Half-precision payload widened to `f32`; a trailing odd byte is dropped.
pub open spec fn widen_half_payload(raw: Seq<u8>, is_bf16: bool) -> Seq<u8> {
    converted_prefix(raw, raw.len() / 2, is_bf16)
}

/// Payload written to the file for a source tensor of type `dtype`: halves are
/// widened to `f32`, everything else is kept as it is.
pub open spec fn processed_payload(raw: Seq<u8>, dtype: SourceDtype) -> Seq<u8> {
    match dtype {
        SourceDtype::F16 => widen_half_payload(raw, false),
        SourceDtype::BF16 => widen_half_payload(raw, true),
        _ => raw,
    }
}

proof fn lemma_converted_prefix_len(raw: Seq<u8>, n: nat, is_bf16: bool)
    ensures
        converted_prefix(raw, n, is_bf16).len() == 4 * n,
    decreases n,
{
    if n > 0 {
        lemma_converted_prefix_len(raw, (n - 1) as nat, is_bf16);
    }
}

/// Every widened payload holds four bytes per complete two-byte element.
pub proof fn lemma_widen_len(raw: Seq<u8>, is_bf16: bool)
    ensures
        widen_half_payload(raw, is_bf16).len() == 4 * (raw.len() / 2),
{
    lemma_converted_prefix_len(raw, raw.len() / 2, is_bf16);
}

/// The `u32` stored little-endian in the four bytes of `b` from `at` on.
pub open spec fn word_at(b: Seq<u8>, at: int) -> int {
    b[at] + 256 * b[at + 1] + 65536 * b[at + 2] + 16777216 * b[at + 3]
}

proof fn lemma_converted_prefix_element(raw: Seq<u8>, n: nat, is_bf16: bool, k: int)
    requires
        0 <= k < n,
        2 * n <= raw.len(),
    ensures
        converted_prefix(raw, n, is_bf16).subrange(4 * k, 4 * k + 4) == le_u32(
            spec_decode_half_bits(raw[2 * k], raw[2 * k + 1], is_bf16),
        ),
    decreases n,
{
    let prev = converted_prefix(raw, (n - 1) as nat, is_bf16);
    lemma_converted_prefix_len(raw, (n - 1) as nat, is_bf16);
    let j = 2 * (n - 1);
    let last = le_u32(spec_decode_half_bits(raw[j], raw[j + 1], is_bf16));
    assert(converted_prefix(raw, n, is_bf16) == prev + last);
    if k < n - 1 {
        lemma_converted_prefix_element(raw, (n - 1) as nat, is_bf16, k);
        assert((prev + last).subrange(4 * k, 4 * k + 4) =~= prev.subrange(4 * k, 4 * k + 4));
    } else {
        assert((prev + last).subrange(4 * k, 4 * k + 4) =~= last);
    }
}

proof fn lemma_le_u32_word(x: u32)
    ensures
        word_at(le_u32(x), 0) == x,
{
    let b0 = x as u8;
    let b1 = (x >> 8u32) as u8;
    let b2 = (x >> 16u32) as u8;
    let b3 = (x >> 24u32) as u8;
    assert(b0 + 256 * b1 + 65536 * b2 + 16777216 * b3 == x) by (bit_vector)
        requires
            b0 == x as u8,
            b1 == (x >> 8u32) as u8,
            b2 == (x >> 16u32) as u8,
            b3 == (x >> 24u32) as u8,
    ;
}

proof fn lemma_bf16_bytes(lo: u8, hi: u8)
    ensures
        le_u32(bf16_to_f32_bits(u16_le(lo, hi))) == seq![0u8, 0u8, lo, hi],
{
    let x = ((((lo as u16) | ((hi as u16) << 8u16)) as u32) << 16u32);
    assert(x as u8 == 0u8 && (x >> 8u32) as u8 == 0u8 && (x >> 16u32) as u8 == lo && (x
        >> 24u32) as u8 == hi) by (bit_vector)
        requires
            x == ((((lo as u16) | ((hi as u16) << 8u16)) as u32) << 16u32),
    ;
    assert(le_u32(bf16_to_f32_bits(u16_le(lo, hi))) =~= seq![0u8, 0u8, lo, hi]);
}

proof fn lemma_u16_le_value(lo: u8, hi: u8)
    ensures
        u16_le(lo, hi) == lo + 256 * hi,
{
    assert(((lo as u16) | ((hi as u16) << 8u16)) == lo + 256 * hi) by (bit_vector);
}

/// Widening converts every complete two-byte half on its own, in place: the
/// result holds four bytes per half, and the four bytes of element `k`,
/// read little-endian, are the `f32` bit pattern of half `k` (bytes `2k` and
/// `2k + 1`). For bfloat16 those bytes are two zeros followed by the half's
/// own two bytes; for binary16 they encode the `f32` equal to the half
/// `raw[2k] + 256 * raw[2k + 1]`.
pub proof fn lemma_widen_elements(raw: Seq<u8>, is_bf16: bool, k: int)
    requires
        0 <= k < raw.len() / 2,
    ensures
        widen_half_payload(raw, is_bf16).len() == 4 * (raw.len() / 2),
        word_at(widen_half_payload(raw, is_bf16), 4 * k) == spec_decode_half_bits(
            raw[2 * k],
            raw[2 * k + 1],
            is_bf16,
        ),
        is_bf16 ==> widen_half_payload(raw, is_bf16).subrange(4 * k, 4 * k + 4) == seq![
            0u8,
            0u8,
            raw[2 * k],
            raw[2 * k + 1],
        ],
        !is_bf16 ==> word_at(widen_half_payload(raw, is_bf16), 4 * k) == f16_to_f32_bits(
            (raw[2 * k] + 256 * raw[2 * k + 1]) as u16,
        ),
{
    let n = raw.len() / 2;
    lemma_widen_len(raw, is_bf16);
    lemma_converted_prefix_element(raw, n, is_bf16, k);
    let w = widen_half_payload(raw, is_bf16);
    let bits = spec_decode_half_bits(raw[2 * k], raw[2 * k + 1], is_bf16);
    let e = w.subrange(4 * k, 4 * k + 4);
    assert(e == le_u32(bits));
    lemma_le_u32_word(bits);
    assert(word_at(w, 4 * k) == word_at(e, 0));
    lemma_u16_le_value(raw[2 * k], raw[2 * k + 1]);
    if is_bf16 {
        lemma_bf16_bytes(raw[2 * k], raw[2 * k + 1]);
    }
}

/// Converts F16 and BF16 payloads to little-endian F32; F32 and every other
/// element type are passed through without copying.
pub fn process_tensor_data<'a>(raw_data: &'a [u8], dtype: SourceDtype) -> (out: TensorData<'a>)
    ensures
        out.bytes() == processed_payload(raw_data@, dtype),
        (dtype == SourceDtype::F32 || dtype == SourceDtype::Other) ==> out
            == TensorData::Borrowed(raw_data),
        (dtype == SourceDtype::F16 || dtype == SourceDtype::BF16) ==> out is Owned,
        (dtype == SourceDtype::F16 || dtype == SourceDtype::BF16) ==> {
            &&& out.bytes().len() == 4 * (raw_data@.len() / 2)
            &&& forall|k: int|
                0 <= k < raw_data@.len() / 2 ==> #[trigger] word_at(out.bytes(), 4 * k)
                    == spec_decode_half_bits(
                    raw_data@[2 * k],
                    raw_data@[2 * k + 1],
                    dtype == SourceDtype::BF16,
                )
        },
{
    proof {
        if dtype == SourceDtype::F16 || dtype == SourceDtype::BF16 {
            let b = dtype == SourceDtype::BF16;
            let w = widen_half_payload(raw_data@, b);
            assert forall|k: int| 0 <= k < raw_data@.len() / 2 implies #[trigger] word_at(w, 4 * k)
                == spec_decode_half_bits(raw_data@[2 * k], raw_data@[2 * k + 1], b) by {
                lemma_widen_elements(raw_data@, b, k);
            }
            lemma_widen_len(raw_data@, b);
        }
    }
    match dtype {
        SourceDtype::F16 | SourceDtype::BF16 => {
            let is_bf16 = dtype == SourceDtype::BF16;
            let n = raw_data.len() / 2;
            let mut converted: Vec<u8> = Vec::new();
            let mut i: usize = 0;
            while i < n
                invariant
                    i <= n,
                    n == raw_data@.len() / 2,
                    converted@ == converted_prefix(raw_data@, i as nat, is_bf16),
                decreases n - i,
            {
                assert(2 * i + 1 < raw_data@.len()) by (nonlinear_arith)
                    requires
                        i < n,
                        n == raw_data@.len() / 2,
                ;
                assert(raw_data@.len() == raw_data.len());
                let j: usize = 2 * i;
                let bits = decode_half_bits([raw_data[j], raw_data[j + 1]], is_bf16);
                push_u32_le(&mut converted, bits);
                i += 1;
            }
            TensorData::Owned(converted)
        },
        _ => TensorData::Borrowed(raw_data),
    }
}


/// A tensor on its way into the file: its name hash, shape, on-disk element
/// code, payload and (once laid out) the absolute offset of the payload.
pub struct CompileTensor<'a> {
    pub hash: u64,
    pub name: String,
    pub shape: Vec<usize>,
    pub data_type: u8,
    pub raw_data: TensorData<'a>,
    pub absolute_offset: u64,
}

impl<'a> CompileTensor<'a> {
    /// What the file layout reads of this tensor.
    pub open spec fn record(&self) -> TensorRecord {
        TensorRecord {
            hash: self.hash,
            shape: self.shape@,
            dtype: self.data_type,
            data: self.raw_data.bytes(),
        }
    }
}

impl<'a> SortKey for CompileTensor<'a> {
    open spec fn sort_key(&self) -> u64 {
        self.hash
    }
}

/// Stable sort of the tensors by name hash (ties keep their input order).
pub fn sort_by_hash<'a>(tensors: Vec<CompileTensor<'a>>) -> (sorted: Vec<CompileTensor<'a>>)
    ensures
        sorted@ == stable_sort_by_key(tensors@),
{
    let ghost orig = tensors@;
    let mut rest = tensors;
    let mut out: Vec<CompileTensor<'a>> = Vec::new();
    let n = rest.len();
    let mut i: usize = 0;
    assert(orig.take(0) =~= Seq::<CompileTensor<'a>>::empty());
    assert(orig.skip(0) =~= orig);
    while i < n
        invariant
            n == orig.len(),
            i <= n,
            rest@ == orig.skip(i as int),
            out@ == stable_sort_by_key(orig.take(i as int)),
        decreases n - i,
    {
        let x = rest.remove(0);
        assert(x == orig[i as int]);
        let mut j = out.len();
        while j > 0 && out[j - 1].hash > x.hash
            invariant
                j <= out@.len(),
                forall|k: int| j <= k < out@.len() ==> #[trigger] out@[k].sort_key() > x.sort_key(),
            decreases j,
        {
            j -= 1;
        }
        proof {
            lemma_insert_at(out@, x, j as int);
            assert(orig.take(i + 1).drop_last() =~= orig.take(i as int));
            assert(orig.take(i + 1).last() == x);
            assert(rest@ =~= orig.skip(i + 1));
        }
        out.insert(j, x);
        i += 1;
    }
    assert(orig.take(n as int) =~= orig);
    out
}

} // verus!
