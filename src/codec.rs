use vstd::prelude::*;

use crate::lznt1::lznt1_framed;

verus! {

/// The CRC-32/ISO-HDLC checksum of a byte sequence.
pub uninterp spec fn crc32_of(b: Seq<u8>) -> u32;

/// The result of LZNT1-decompressing a byte sequence: the expanded bytes,
/// or `None` where the stream is malformed.
pub uninterp spec fn lznt1_expand(b: Seq<u8>) -> Option<Seq<u8>>;

/// Relies on crc 3's `Crc::<u32>::checksum` with the `CRC_32_ISO_HDLC`
/// algorithm: the checksum is a function of the bytes alone.
#[verifier::external_body]
pub(crate) fn crc32(b: &[u8]) -> (r: u32)
    ensures
        r == crc32_of(b@),
{
    crc::Crc::<u32>::new(&crc::CRC_32_ISO_HDLC).checksum(b)
}

/// Relies on rust-lzxpress's `lznt1::decompress2`, started on an empty
/// buffer: `Ok` leaves the whole expansion in the buffer, which depends on
/// the input alone; an error (`MemLimit`, `CorruptedData`) is reported as
/// `None`, whatever part of an expansion the buffer holds by then.
///
/// The crate reads two-byte fields without a bounds check, and shifts by a
/// count that a far back-reference drives below zero; `lznt1_framed` leaves
/// out every stream on which either happens, or on which a back-reference
/// opens a chunk, where the crate subtracts below zero.
#[verifier::external_body]
pub(crate) fn lznt1_decompress(b: &[u8]) -> (r: Option<Vec<u8>>)
    requires
        lznt1_framed(b@),
    ensures
        match r {
            Some(v) => lznt1_expand(b@) == Some(v@),
            None => lznt1_expand(b@) is None,
        },
{
    let mut out: Vec<u8> = Vec::new();
    match lzxpress::lznt1::decompress2(b, &mut out) {
        Ok(()) => Some(out),
        Err(_) => None,
    }
}

} // verus!
