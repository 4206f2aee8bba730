use vstd::prelude::*;
use byteorder::{ByteOrder, LittleEndian};

verus! {

/// The little-endian 16-bit number stored at `b[i..i + 2]`.
pub open spec fn le16(b: Seq<u8>, i: int) -> int {
    b[i] as int + 256 * (b[i + 1] as int)
}

/// The little-endian 32-bit number stored at `b[i..i + 4]`.
pub open spec fn le32(b: Seq<u8>, i: int) -> int {
    b[i] as int + 256 * (b[i + 1] as int) + 65536 * (b[i + 2] as int) + 16777216 * (
    b[i + 3] as int)
}

/// The text that UTF-8 decoding of `b` gives, or `None` where `b` is not
/// valid UTF-8.
pub uninterp spec fn utf8_text(b: Seq<u8>) -> Option<Seq<char>>;

/// Relies on byteorder's `LittleEndian::read_u16`: the number made of the
/// first two bytes of the slice, low byte first.
#[verifier::external_body]
pub(crate) fn read_le16(b: &[u8], at: usize) -> (r: u16)
    requires
        at + 2 <= b@.len(),
    ensures
        r as int == le16(b@, at as int),
{
    LittleEndian::read_u16(&b[at..])
}

/// Relies on byteorder's `LittleEndian::read_u32`: the number made of the
/// first four bytes of the slice, low byte first.
#[verifier::external_body]
pub(crate) fn read_le32(b: &[u8], at: usize) -> (r: u32)
    requires
        at + 4 <= b@.len(),
    ensures
        r as int == le32(b@, at as int),
{
    LittleEndian::read_u32(&b[at..])
}

/// Relies on `String::from_utf8`: the bytes `b[start..end]` decoded as
/// UTF-8, or `None` where they are not valid UTF-8. The outcome depends on
/// the bytes alone.
#[verifier::external_body]
pub(crate) fn decode_text(b: &[u8], start: usize, end: usize) -> (r: Option<String>)
    requires
        start <= end <= b@.len(),
    ensures
        utf8_text(b@.subrange(start as int, end as int)) == match r {
            Some(s) => Some(s@),
            None => None::<Seq<char>>,
        },
{
    String::from_utf8(b[start..end].to_vec()).ok()
}

/// `explode::Error` is carried out of the decompressor and mapped to
/// [`ArchiveError::Decode`].
#[verifier::external_type_specification]
#[verifier::external_body]
pub struct ExExplodeError(explode::Error);

/// What decompressing `data` gives, or `None` where the decompressor
/// rejects it.
pub uninterp spec fn exploded(data: Seq<u8>) -> Option<Seq<u8>>;

/// Relies on `explode::explode`: decompresses a PKWARE DCL "implode"
/// stream. The outcome depends on the input bytes alone.
#[verifier::external_body]
pub(crate) fn explode_bytes(data: &[u8]) -> (r: Result<Vec<u8>, explode::Error>)
    ensures
        match r {
            Ok(v) => exploded(data@) == Some(v@),
            Err(_) => exploded(data@) is None,
        },
{
    explode::explode(data)
}

} // verus!
