use vstd::prelude::*;

verus! {

/// Element encodings a tensor payload can carry; `code` is the byte stored in
/// the index.
#[derive(Debug, Clone, Copy, PartialEq, Eq, Structural)]
pub enum QuantType {
    F32,
    F16,
    Q4_0,
    Q4_1,
    Q8_0,
}

impl QuantType {
    /// The on-disk code of the encoding.
    pub open spec fn spec_code(self) -> u8 {
        match self {
            QuantType::F32 => 0,
            QuantType::F16 => 1,
            QuantType::Q4_0 => 2,
            QuantType::Q4_1 => 3,
            QuantType::Q8_0 => 4,
        }
    }

    /// The on-disk code of the encoding.
    pub fn code(self) -> (c: u8)
        ensures
            c == self.spec_code(),
    {
        match self {
            QuantType::F32 => 0,
            QuantType::F16 => 1,
            QuantType::Q4_0 => 2,
            QuantType::Q4_1 => 3,
            QuantType::Q8_0 => 4,
        }
    }
}

/// First eight bytes of every file: `MZTENSOR`.
pub const MAGIC_BYTES: [u8; 8] = [0x4Du8, 0x5Au8, 0x54u8, 0x45u8, 0x4Eu8, 0x53u8, 0x4Fu8, 0x52u8];

/// Last eight bytes of every file: `MZTFOOTR`.
pub const MAGIC_FOOTER: [u8; 8] = [0x4Du8, 0x5Au8, 0x54u8, 0x46u8, 0x4Fu8, 0x4Fu8, 0x54u8, 0x52u8];

/// Format version written into header and footer.
pub const FORMAT_VERSION: u32 = 2;

/// Oldest format version an engine is expected to read.
pub const MIN_ENGINE_VERSION: u32 = 2;

/// Every tensor payload starts at a multiple of this many bytes.
pub const ALIGNMENT_BOUNDARY: u64 = 256;

/// Size of the fixed header.
pub const HEADER_SIZE: usize = 64;

/// Size of the fixed footer.
pub const FOOTER_SIZE: usize = 64;

/// `MZTENSOR` as a sequence.
pub open spec fn magic_header_seq() -> Seq<u8> {
    seq![0x4Du8, 0x5Au8, 0x54u8, 0x45u8, 0x4Eu8, 0x53u8, 0x4Fu8, 0x52u8]
}

/// `MZTFOOTR` as a sequence.
pub open spec fn magic_footer_seq() -> Seq<u8> {
    seq![0x4Du8, 0x5Au8, 0x54u8, 0x46u8, 0x4Fu8, 0x4Fu8, 0x54u8, 0x52u8]
}

/// Zero bytes needed after position `pos` to reach the next alignment boundary.
pub open spec fn spec_padding(pos: int) -> int {
    if pos % (ALIGNMENT_BOUNDARY as int) == 0 {
        0
    } else {
        ALIGNMENT_BOUNDARY - pos % (ALIGNMENT_BOUNDARY as int)
    }
}

/// The first alignment boundary at or after `pos`.
pub open spec fn align_up(pos: int) -> int {
    pos + spec_padding(pos)
}

/// Zero bytes to write at stream position `current_pos` so that the next byte
/// lands on a 256-byte boundary.
pub fn padding_needed(current_pos: u64) -> (pad: u64)
    ensures
        pad == spec_padding(current_pos as int),
        pad < ALIGNMENT_BOUNDARY,
        (current_pos + pad) % (ALIGNMENT_BOUNDARY as int) == 0,
{
    let modulo = current_pos % ALIGNMENT_BOUNDARY;
    if modulo != 0 {
        ALIGNMENT_BOUNDARY - modulo
    } else {
        0
    }
}

} // verus!
