use vstd::prelude::*;
use vstd::utf8::{valid_utf8, decode_utf8};

verus! {

/// What `zstd::decode_all` yields for a byte sequence: the concatenated
/// decompressed frames, or nothing when the input is not valid zstd data.
pub uninterp spec fn zstd_decode_all(compressed: Seq<u8>) -> Option<Seq<u8>>;

/// What `zstd::encode_all` produces for `data` at compression `level`.
pub uninterp spec fn zstd_encode_all(data: Seq<u8>, level: i32) -> Seq<u8>;

/// `zstd::encode_all(data, level)`. When it succeeds its output is the named
/// encoding of `data`, and zstd decompression of that output gives `data`
/// back (zstd is lossless). A failure (the crate reports I/O errors) is
/// `None`; nothing is claimed about when it happens.
#[verifier::external_body]
pub(crate) fn zstd_compress(data: &[u8], level: i32) -> (res: Option<Vec<u8>>)
    ensures
        res matches Some(v) ==> v@ == zstd_encode_all(data@, level),
        res matches Some(v) ==> zstd_decode_all(v@) == Some(data@),
{
    zstd::encode_all(data, level).ok()
}

/// `zstd::decode_all(data)`: the decompressed bytes exactly when the named
/// decoding succeeds.
#[verifier::external_body]
pub(crate) fn zstd_decompress(data: &[u8]) -> (res: Option<Vec<u8>>)
    ensures
        res is Some <==> zstd_decode_all(data@) is Some,
        res matches Some(v) ==> zstd_decode_all(data@) == Some(v@),
{
    zstd::decode_all(data).ok()
}

/// `String::from_utf8(bytes)`: a string exactly when the bytes are valid
/// UTF-8, and then the string of the decoded characters.
#[verifier::external_body]
pub(crate) fn string_from_utf8(bytes: Vec<u8>) -> (res: Option<String>)
    ensures
        res is Some <==> valid_utf8(bytes@),
        res matches Some(s) ==> s@ == decode_utf8(bytes@),
{
    String::from_utf8(bytes).ok()
}

/// `std::str::from_utf8(bytes)`: a string slice exactly when the bytes are
/// valid UTF-8, and then the slice of the decoded characters.
#[verifier::external_body]
pub(crate) fn str_from_utf8(bytes: &[u8]) -> (res: Option<&str>)
    ensures
        res is Some <==> valid_utf8(bytes@),
        res matches Some(s) ==> s@ == decode_utf8(bytes@),
{
    std::str::from_utf8(bytes).ok()
}

} // verus!
