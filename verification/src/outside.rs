//! What the codec takes from outside this library, on trust: base64 text
//! and zlib compression. Each function here calls one of them; its contract
//! is believed, not proved.

use vstd::prelude::*;
use base64::Engine;

verus! {

/// The error of base64's `decode`, carried through and never looked into.
#[verifier::external_type_specification]
#[verifier::external_body]
pub struct ExDecodeError(base64::DecodeError);

/// The error of libdeflater's `zlib_decompress`, carried through and never
/// looked into.
#[verifier::external_type_specification]
#[verifier::external_body]
pub struct ExDecompressionError(libdeflater::DecompressionError);

/// The text that base64's standard engine, with padding, writes for the
/// given bytes.
pub uninterp spec fn base64_text(data: Seq<u8>) -> Seq<char>;

/// The bytes that base64's standard engine reads from the given text;
/// `None` where it rejects the text.
pub uninterp spec fn base64_bytes(text: Seq<char>) -> Option<Seq<u8>>;

/// The zlib stream that libdeflate writes for the given bytes at the
/// given compression level.
pub uninterp spec fn zlib_deflated(data: Seq<u8>, level: int) -> Seq<u8>;

/// The bytes that libdeflate unpacks from the given zlib stream; `None`
/// where the stream is not valid.
pub uninterp spec fn zlib_inflated(data: Seq<u8>) -> Option<Seq<u8>>;

/// Whether a character is one that base64 text is made of: a letter, a
/// digit, `+`, `/`, or the padding `=`.
pub open spec fn is_base64_char(c: char) -> bool {
    ('A' <= c <= 'Z') || ('a' <= c <= 'z') || ('0' <= c <= '9') || c == '+' || c == '/' || c
        == '='
}

/// Calls `encode` of base64's engine `STANDARD`. Believed of it: the result
/// is the base64 text of the bytes; it is made of letters, digits, `+`, `/`
/// and `=` only; and the same engine reads the bytes back from it. The
/// `requires` keeps out the lengths for which `encode` panics, because the
/// length of the text does not fit a `usize`.
#[verifier::external_body]
pub(crate) fn base64_encode(data: &[u8]) -> (text: String)
    requires
        (data@.len() / 3 + 1) * 4 <= usize::MAX,
    ensures
        text@ == base64_text(data@),
        forall|i: int| 0 <= i < text@.len() ==> is_base64_char(#[trigger] text@[i]),
        base64_bytes(text@) == Some(data@),
{
    base64::engine::general_purpose::STANDARD.encode(data)
}

/// Calls `decode` of base64's engine `STANDARD`. Believed of it: it returns
/// the bytes that the text stands for, and an error exactly where the text
/// is no base64 text.
#[verifier::external_body]
pub(crate) fn base64_decode(text: &str) -> (r: Result<Vec<u8>, base64::DecodeError>)
    ensures
        match r {
            Ok(data) => base64_bytes(text@) == Some(data@),
            Err(_) => base64_bytes(text@) is None,
        },
{
    base64::engine::general_purpose::STANDARD.decode(text)
}

/// Calls `zlib_compress` of a libdeflater `Compressor` of the given level,
/// on a buffer of the size that `zlib_compress_bound` gives. Believed of it:
/// the result is the zlib stream of the bytes, and unpacking that stream
/// gives the bytes back. The `requires` keeps out the levels that
/// `CompressionLvl::new` rejects.
#[verifier::external_body]
pub(crate) fn zlib_compress(data: &[u8], level: i32) -> (packed: Vec<u8>)
    requires
        0 <= level <= 12,
    ensures
        packed@ == zlib_deflated(data@, level as int),
        zlib_inflated(packed@) == Some(data@),
{
    let mut compressor = libdeflater::Compressor::new(
        libdeflater::CompressionLvl::new(level).unwrap(),
    );
    let mut packed = vec![0u8; compressor.zlib_compress_bound(data.len())];
    let len = compressor.zlib_compress(data, &mut packed).unwrap();
    packed.truncate(len);
    packed
}

/// Calls `zlib_decompress` of a libdeflater `Decompressor`, on a buffer of
/// `capacity` bytes. Believed of it: it returns the unpacked bytes where the
/// stream is valid and they fit the buffer, and an error in every other
/// case.
#[verifier::external_body]
pub(crate) fn zlib_decompress(data: &[u8], capacity: usize) -> (r: Result<
    Vec<u8>,
    libdeflater::DecompressionError,
>)
    requires
        capacity <= isize::MAX,
    ensures
        match r {
            Ok(raw) => zlib_inflated(data@) == Some(raw@) && raw@.len() <= capacity,
            Err(_) => match zlib_inflated(data@) {
                Some(raw) => raw.len() > capacity,
                None => true,
            },
        },
{
    let mut raw = vec![0u8; capacity];
    let len = libdeflater::Decompressor::new().zlib_decompress(data, &mut raw)?;
    raw.truncate(len);
    Ok(raw)
}

} // verus!
