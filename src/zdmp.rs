use vstd::prelude::*;

use crate::codec::{crc32, crc32_of};
use crate::lznt1::{lznt1_framed, lznt1_result, lznt1_run};
use crate::result::{lift, Error, FormatError, Result};

verus! {

/// "ZDMP" read as a little-endian u32.
pub const ZDMP_FILE_SIGNATURE: u32 = 0x504d_445a;

/// "KLBZ" read as a little-endian u32.
pub const ZDMP_BLOCK_SIGNATURE: u32 = 0x4b4c_425a;

pub const ZDMP_FILE_VERSION_10: u32 = 0x0100;

pub const PAGE_SIZE: usize = 0x1000;

/// Where the first block header starts, whatever the file header's size.
pub const ZDMP_BLOCK_START_OFFSET: u64 = 0x1000;

pub const BLOCK_DATA_TYPE_NONE: u16 = 0x00;

pub const BLOCK_DATA_TYPE_COMPRESSION: u16 = 0x01;

pub const BLOCK_DATA_TYPE_ENCRYPTION: u16 = 0x02;

pub const COMPRESSION_FORMAT_LZNT1: u16 = 0x02;

/// Bytes in an encoded file header.
pub const FILE_HDR_SIZE: usize = 24;

/// Bytes in an encoded block header.
pub const BLOCK_HDR_SIZE: usize = 12;

/// ZDMP file header.
#[derive(Clone, Copy, Debug, PartialEq, Eq, Structural)]
pub struct ZdmpFileHdr {
    pub signature: u32,
    pub version: u32,
    pub file_size: u64,
    pub block_size: u32,
    pub data_type: u16,
    pub compression_format: u16,
}

/// ZDMP block header.
#[derive(Clone, Copy, Debug, PartialEq, Eq, Structural)]
pub struct ZdmpBlockHdr {
    pub signature: u32,
    pub data_size: u32,
    pub crc32: u32,
}

/// The little-endian u16 at `i`.
pub open spec fn le16(s: Seq<u8>, i: int) -> u16 {
    (s[i] as int + s[i + 1] as int * 0x100) as u16
}

/// The little-endian u32 at `i`.
pub open spec fn le32(s: Seq<u8>, i: int) -> u32 {
    (le16(s, i) as int + le16(s, i + 2) as int * 0x1_0000) as u32
}

/// The little-endian u64 at `i`.
pub open spec fn le64(s: Seq<u8>, i: int) -> u64 {
    (le32(s, i) as int + le32(s, i + 4) as int * 0x1_0000_0000) as u64
}

/// The file header that the first 24 bytes of `s` encode.
pub open spec fn file_hdr_fields(s: Seq<u8>) -> ZdmpFileHdr {
    ZdmpFileHdr {
        signature: le32(s, 0),
        version: le32(s, 4),
        file_size: le64(s, 8),
        block_size: le32(s, 16),
        data_type: le16(s, 20),
        compression_format: le16(s, 22),
    }
}

/// The block header that the first 12 bytes of `s` encode.
pub open spec fn block_hdr_fields(s: Seq<u8>) -> ZdmpBlockHdr {
    ZdmpBlockHdr { signature: le32(s, 0), data_size: le32(s, 4), crc32: le32(s, 8) }
}

/// Decoding a file header from the start of `s`.
pub open spec fn parse_file_hdr(s: Seq<u8>) -> core::result::Result<ZdmpFileHdr, FormatError> {
    if s.len() < FILE_HDR_SIZE {
        Err(FormatError::Truncated)
    } else if le32(s, 0) != ZDMP_FILE_SIGNATURE {
        Err(FormatError::BadSignature)
    } else {
        Ok(file_hdr_fields(s))
    }
}

/// Decoding a block header from the start of `s`.
pub open spec fn parse_block_hdr(s: Seq<u8>) -> core::result::Result<ZdmpBlockHdr, FormatError> {
    if s.len() < BLOCK_HDR_SIZE {
        Err(FormatError::Truncated)
    } else if le32(s, 0) != ZDMP_BLOCK_SIGNATURE {
        Err(FormatError::BadSignature)
    } else {
        Ok(block_hdr_fields(s))
    }
}

fn read_le16(s: &[u8], i: usize) -> (r: u16)
    requires
        i + 2 <= s@.len(),
    ensures
        r == le16(s@, i as int),
{
    s[i] as u16 + (s[i + 1] as u16) * 0x100
}

fn read_le32(s: &[u8], i: usize) -> (r: u32)
    requires
        i + 4 <= s@.len(),
    ensures
        r == le32(s@, i as int),
{
    let _n = s.len();
    read_le16(s, i) as u32 + (read_le16(s, i + 2) as u32) * 0x1_0000
}

fn read_le64(s: &[u8], i: usize) -> (r: u64)
    requires
        i + 8 <= s@.len(),
    ensures
        r == le64(s@, i as int),
{
    let _n = s.len();
    read_le32(s, i) as u64 + (read_le32(s, i + 4) as u64) * 0x1_0000_0000
}

impl ZdmpFileHdr {
    /// Decodes the file header at the start of `bytes`, checking its magic.
    pub fn new(bytes: &[u8]) -> (r: Result<Self>)
        ensures
            r == lift(parse_file_hdr(bytes@)),
    {
        if bytes.len() < FILE_HDR_SIZE {
            return Err(Error::DumpParseError(FormatError::Truncated));
        }
        let signature = read_le32(bytes, 0);
        if signature != ZDMP_FILE_SIGNATURE {
            return Err(Error::DumpParseError(FormatError::BadSignature));
        }
        Ok(ZdmpFileHdr {
            signature,
            version: read_le32(bytes, 4),
            file_size: read_le64(bytes, 8),
            block_size: read_le32(bytes, 16),
            data_type: read_le16(bytes, 20),
            compression_format: read_le16(bytes, 22),
        })
    }
}

impl ZdmpBlockHdr {
    /// Decodes the block header at the start of `bytes`, checking its magic.
    pub fn new(bytes: &[u8]) -> (r: Result<Self>)
        ensures
            r == lift(parse_block_hdr(bytes@)),
    {
        if bytes.len() < BLOCK_HDR_SIZE {
            return Err(Error::DumpParseError(FormatError::Truncated));
        }
        let signature = read_le32(bytes, 0);
        if signature != ZDMP_BLOCK_SIGNATURE {
            return Err(Error::DumpParseError(FormatError::BadSignature));
        }
        Ok(ZdmpBlockHdr { signature, data_size: read_le32(bytes, 4), crc32: read_le32(bytes, 8) })
    }
}

/// `n` zero bytes.
pub open spec fn zeros(n: nat) -> Seq<u8> {
    Seq::new(n, |i: int| 0u8)
}

/// What the Decompression Adapter makes of a payload, given what the codec
/// made of it (`expanded`, `None` for a malformed stream).
pub open spec fn reconcile_spec(
    payload: Seq<u8>,
    block_size: u32,
    stored: bool,
    expanded: Option<Seq<u8>>,
) -> core::result::Result<Seq<u8>, FormatError> {
    if stored {
        Ok(payload)
    } else {
        match expanded {
            None => Ok(zeros(block_size as nat)),
            Some(d) => if d.len() > block_size {
                Err(FormatError::DecompressedTooLarge { size: d.len() as u64, block_size })
            } else {
                Ok(d + zeros((block_size - d.len()) as nat))
            },
        }
    }
}

/// The bytes that an optional buffer holds.
pub open spec fn opt_view(v: &Option<Vec<u8>>) -> Option<Seq<u8>> {
    match v {
        Some(x) => Some(x@),
        None => None,
    }
}

/// Checks a payload against the CRC-32 stored in its block header.
pub fn verify(payload: &[u8], expected_crc32: u32) -> (r: core::result::Result<(), FormatError>)
    ensures
        r is Ok <==> crc32_of(payload@) == expected_crc32,
        r is Err ==> r == Err::<(), FormatError>(
            FormatError::ChecksumMismatch { computed: crc32_of(payload@), expected: expected_crc32 },
        ),
{
    let computed = crc32(payload);
    if computed == expected_crc32 {
        Ok(())
    } else {
        Err(FormatError::ChecksumMismatch { computed, expected: expected_crc32 })
    }
}

fn copy_bytes(s: &[u8]) -> (r: Vec<u8>)
    ensures
        r@ == s@,
{
    let mut v: Vec<u8> = Vec::new();
    v.extend_from_slice(s);
    proof {
        assert(v@ =~= s@);
    }
    v
}

/// Reconciles a payload with the codec's result on it: a stored payload is
/// kept, a short expansion is padded with zeros up to `block_size`, a
/// malformed stream becomes `block_size` zeros, and a long one is refused.
pub fn reconcile_expanded(
    payload: &[u8],
    block_size: u32,
    stored: bool,
    expanded: Option<Vec<u8>>,
) -> (r: core::result::Result<Vec<u8>, FormatError>)
    ensures
        match r {
            Ok(v) => reconcile_spec(payload@, block_size, stored, opt_view(&expanded)) == Ok::<
                Seq<u8>,
                FormatError,
            >(v@),
            Err(e) => reconcile_spec(payload@, block_size, stored, opt_view(&expanded)) == Err::<
                Seq<u8>,
                FormatError,
            >(e),
        },
        stored ==> r is Ok && r->Ok_0@ == payload@,
        !stored && expanded is None ==> r is Ok && r->Ok_0@ == zeros(block_size as nat),
        !stored && expanded is Some ==> ({
            let d = expanded->Some_0@;
            &&& d.len() == block_size ==> r is Ok && r->Ok_0@ == d
            &&& d.len() < block_size ==> r is Ok && r->Ok_0@ == d + zeros(
                (block_size - d.len()) as nat,
            ) && r->Ok_0@.len() == block_size
            &&& d.len() > block_size ==> r == Err::<Vec<u8>, FormatError>(
                FormatError::DecompressedTooLarge { size: d.len() as u64, block_size },
            )
        }),
{
    if stored {
        return Ok(copy_bytes(payload));
    }
    let mut out = match expanded {
        Some(d) => d,
        None => Vec::new(),
    };
    let ghost start = out@;
    let bs = block_size as usize;
    if out.len() > bs {
        return Err(FormatError::DecompressedTooLarge { size: out.len() as u64, block_size });
    }
    while out.len() < bs
        invariant
            start.len() <= out@.len() <= bs,
            bs == block_size,
            out@ =~= start + zeros((out@.len() - start.len()) as nat),
        decreases bs - out@.len(),
    {
        out.push(0u8);
    }
    Ok(out)
}

/// Runs the Decompression Adapter on a payload: stored payloads pass
/// through, others go through LZNT1 and are reconciled with `block_size`;
/// a stream that the codec cannot read to its end gives zeros.
pub fn reconcile(payload: &[u8], block_size: u32, stored: bool) -> (r: core::result::Result<
    Vec<u8>,
    FormatError,
>)
    ensures
        match r {
            Ok(v) => reconcile_spec(payload@, block_size, stored, lznt1_result(payload@)) == Ok::<
                Seq<u8>,
                FormatError,
            >(v@),
            Err(e) => reconcile_spec(payload@, block_size, stored, lznt1_result(payload@)) == Err::<
                Seq<u8>,
                FormatError,
            >(e),
        },
        r is Ok ==> r->Ok_0@.len() == if stored { payload@.len() as int } else { block_size as int },
        stored ==> r is Ok && r->Ok_0@ == payload@,
        !stored && !lznt1_framed(payload@) ==> r is Ok && r->Ok_0@ == zeros(block_size as nat),
        !stored && lznt1_result(payload@) is Some ==> ({
            let d = lznt1_result(payload@)->Some_0;
            &&& d.len() == block_size ==> r is Ok && r->Ok_0@ == d
            &&& d.len() < block_size ==> r is Ok && r->Ok_0@ == d + zeros(
                (block_size - d.len()) as nat,
            )
            &&& d.len() > block_size ==> r == Err::<Vec<u8>, FormatError>(
                FormatError::DecompressedTooLarge { size: d.len() as u64, block_size },
            )
        }),
{
    if stored {
        reconcile_expanded(payload, block_size, true, None)
    } else {
        let expanded = lznt1_run(payload);
        reconcile_expanded(payload, block_size, false, expanded)
    }
}

/// A recoverable fault met while scanning; the scan goes on past it.
#[derive(Clone, Copy, Debug, PartialEq, Eq, Structural)]
pub enum SoftFailure {
    /// Fewer bytes than a block header were left; the scan ends there.
    TruncatedHeader,
    /// A payload was cut short by the end of input; its bytes are kept.
    TruncatedPayload,
    /// The codec refused a compressed payload; the block became zeros.
    MalformedStream,
}

/// Where the Block Iterator stands: the offset of the next block header,
/// the blocks and bytes accounted so far, the bytes emitted so far, and the
/// soft failures met, each with the offset of its block header.
pub struct ScanState {
    pub offset: nat,
    pub count: nat,
    pub size: nat,
    pub out: Seq<u8>,
    pub events: Seq<(u64, SoftFailure)>,
}

/// The state in which the scan starts.
pub open spec fn scan_start() -> ScanState {
    ScanState {
        offset: ZDMP_BLOCK_START_OFFSET as nat,
        count: 0,
        size: 0,
        out: Seq::empty(),
        events: Seq::empty(),
    }
}

/// Appends a block's bytes to what was emitted, unless the run is silent.
pub open spec fn emit(out: Seq<u8>, bytes: Seq<u8>, silent: bool) -> Seq<u8> {
    if silent {
        out
    } else {
        out + bytes
    }
}

/// Records the soft failure, if any, of the block at `offset`.
pub open spec fn note(
    events: Seq<(u64, SoftFailure)>,
    offset: nat,
    event: Option<SoftFailure>,
) -> Seq<(u64, SoftFailure)> {
    match event {
        Some(k) => events.push((offset as u64, k)),
        None => events,
    }
}

/// Accounts for one block that produced `bytes`, and moves on to `next`.
pub open spec fn account(
    st: ScanState,
    bytes: Seq<u8>,
    silent: bool,
    next: nat,
    event: Option<SoftFailure>,
) -> core::result::Result<ScanState, FormatError> {
    if st.size + bytes.len() > u64::MAX {
        Err(FormatError::SizeOverflow)
    } else {
        Ok(
            ScanState {
                offset: next,
                count: st.count + 1,
                size: st.size + bytes.len(),
                out: emit(st.out, bytes, silent),
                events: note(st.events, st.offset, event),
            },
        )
    }
}

/// The block whose header starts at `offset`, with at least a header's
/// worth of bytes left in `input`: the bytes it produces, the offset of the
/// next header, and the soft failure met, if any. A payload cut short by the
/// end of input yields the bytes that are there and ends the scan; a
/// complete one is checked against its CRC-32 and reconciled.
#[verifier::opaque]
pub open spec fn block_at(input: Seq<u8>, block_size: u32, offset: nat) -> core::result::Result<
    (Seq<u8>, nat, Option<SoftFailure>),
    FormatError,
> {
    let rest = input.subrange(offset as int, input.len() as int);
    match parse_block_hdr(rest) {
        Err(e) => Err(e),
        Ok(h) => if h.data_size > block_size {
            Err(FormatError::BlockSizeExceeded { data_size: h.data_size, block_size })
        } else if rest.len() < BLOCK_HDR_SIZE + h.data_size {
            Ok(
                (
                    rest.subrange(BLOCK_HDR_SIZE as int, rest.len() as int),
                    input.len(),
                    Some(SoftFailure::TruncatedPayload),
                ),
            )
        } else {
            let payload = rest.subrange(BLOCK_HDR_SIZE as int, BLOCK_HDR_SIZE + h.data_size);
            if crc32_of(payload) != h.crc32 {
                Err(FormatError::ChecksumMismatch { computed: crc32_of(payload), expected: h.crc32 })
            } else {
                let stored = h.data_size == block_size;
                let event = if !stored && lznt1_result(payload) is None {
                    Some(SoftFailure::MalformedStream)
                } else {
                    None
                };
                match reconcile_spec(payload, block_size, stored, lznt1_result(payload)) {
                    Err(e) => Err(e),
                    Ok(bytes) => Ok((bytes, (offset + BLOCK_HDR_SIZE + h.data_size) as nat, event)),
                }
            }
        },
    }
}

/// One round of the Block Iterator at `st.offset`, which lies inside
/// `input`. A header cut short by the end of input ends the scan.
pub open spec fn scan_step(
    input: Seq<u8>,
    block_size: u32,
    silent: bool,
    st: ScanState,
) -> core::result::Result<ScanState, FormatError> {
    if input.len() - st.offset < BLOCK_HDR_SIZE {
        Ok(
            ScanState {
                offset: input.len(),
                events: st.events.push((st.offset as u64, SoftFailure::TruncatedHeader)),
                ..st
            },
        )
    } else {
        match block_at(input, block_size, st.offset) {
            Err(e) => Err(e),
            Ok((bytes, next, event)) => account(st, bytes, silent, next, event),
        }
    }
}

/// The Block Iterator run from `st` until the offset reaches the end of
/// `input`, or a fatal error.
pub open spec fn scan(
    input: Seq<u8>,
    block_size: u32,
    silent: bool,
    st: ScanState,
) -> core::result::Result<ScanState, FormatError>
    decreases input.len() - st.offset,
    via scan_decreases
{
    if st.offset >= input.len() {
        Ok(st)
    } else {
        match scan_step(input, block_size, silent, st) {
            Err(e) => Err(e),
            Ok(next) => scan(input, block_size, silent, next),
        }
    }
}

/// Each round of the Block Iterator moves the offset forward.
pub proof fn lemma_step_advances(input: Seq<u8>, block_size: u32, silent: bool, st: ScanState)
    requires
        st.offset < input.len(),
    ensures
        scan_step(input, block_size, silent, st) is Ok ==> st.offset < scan_step(
            input,
            block_size,
            silent,
            st,
        )->Ok_0.offset <= input.len(),
{
    reveal(block_at);
}

#[via_fn]
proof fn scan_decreases(input: Seq<u8>, block_size: u32, silent: bool, st: ScanState) {
    if st.offset < input.len() {
        lemma_step_advances(input, block_size, silent, st);
    }
}

/// Where the scan of blocks stops.
#[derive(Clone, Copy, Debug, PartialEq, Eq, Structural)]
pub enum ScanEnd {
    /// At the end of the bytes at hand.
    InputLength,
    /// At the container size that the file header declares, or at the end
    /// of the bytes at hand where that comes first.
    DeclaredFileSize,
}

/// The offset at which the scan stops, for `len` bytes at hand.
pub open spec fn scan_limit(len: nat, h: ZdmpFileHdr, end: ScanEnd) -> nat {
    match end {
        ScanEnd::InputLength => len,
        ScanEnd::DeclaredFileSize => if h.file_size < len {
            h.file_size as nat
        } else {
            len
        },
    }
}

/// Decoding a whole container: its header, which must declare
/// LZNT1-compressed data, then the blocks up to the limit that `end` sets.
pub open spec fn decode_until_spec(input: Seq<u8>, silent: bool, end: ScanEnd) -> core::result::Result<
    (ZdmpFileHdr, ScanState),
    FormatError,
> {
    match parse_file_hdr(input) {
        Err(e) => Err(e),
        Ok(h) => if h.data_type != BLOCK_DATA_TYPE_COMPRESSION {
            Err(FormatError::UnsupportedDataType)
        } else if h.compression_format != COMPRESSION_FORMAT_LZNT1 {
            Err(FormatError::UnsupportedCompression)
        } else {
            let body = input.subrange(0, scan_limit(input.len(), h, end) as int);
            match scan(body, h.block_size, silent, scan_start()) {
                Err(e) => Err(e),
                Ok(st) => Ok((h, st)),
            }
        },
    }
}

/// Decoding a whole container, scanning to the end of the bytes at hand.
pub open spec fn decode_spec(input: Seq<u8>, silent: bool) -> core::result::Result<
    (ZdmpFileHdr, ScanState),
    FormatError,
> {
    decode_until_spec(input, silent, ScanEnd::InputLength)
}

/// The bytes that the scan from `st` has emitted when it ends, whether it
/// ends well or at a fatal error.
pub open spec fn scan_emitted(input: Seq<u8>, block_size: u32, silent: bool, st: ScanState) -> Seq<
    u8,
>
    decreases input.len() - st.offset,
    via scan_emitted_decreases
{
    if st.offset >= input.len() {
        st.out
    } else {
        match scan_step(input, block_size, silent, st) {
            Err(_) => st.out,
            Ok(next) => scan_emitted(input, block_size, silent, next),
        }
    }
}

#[via_fn]
proof fn scan_emitted_decreases(input: Seq<u8>, block_size: u32, silent: bool, st: ScanState) {
    if st.offset < input.len() {
        lemma_step_advances(input, block_size, silent, st);
    }
}

/// The bytes that decoding a container emits before it ends; where it
/// fails, those of the blocks before the failing one.
pub open spec fn emitted_until(input: Seq<u8>, silent: bool, end: ScanEnd) -> Seq<u8> {
    match parse_file_hdr(input) {
        Err(_) => Seq::empty(),
        Ok(h) => if h.data_type != BLOCK_DATA_TYPE_COMPRESSION || h.compression_format
            != COMPRESSION_FORMAT_LZNT1 {
            Seq::empty()
        } else {
            let body = input.subrange(0, scan_limit(input.len(), h, end) as int);
            scan_emitted(body, h.block_size, silent, scan_start())
        },
    }
}

/// Reads the block whose header starts at `offset`; see `block_at`.
pub fn read_block(input: &[u8], offset: usize, block_size: u32) -> (r: core::result::Result<
    (Vec<u8>, usize, Option<SoftFailure>),
    FormatError,
>)
    requires
        offset + BLOCK_HDR_SIZE <= input@.len(),
    ensures
        match block_at(input@, block_size, offset as nat) {
            Ok((bytes, next, event)) => r is Ok && r->Ok_0.0@ == bytes && r->Ok_0.1 == next
                && r->Ok_0.2 == event,
            Err(e) => r == Err::<(Vec<u8>, usize, Option<SoftFailure>), FormatError>(e),
        },
        r is Ok ==> offset < r->Ok_0.1 <= input@.len(),
{
    reveal(block_at);
    let len = input.len();
    let rest = &input[offset..len];
    assert(rest@ == input@.subrange(offset as int, len as int));
    let bh = match ZdmpBlockHdr::new(rest) {
        Ok(b) => b,
        Err(Error::DumpParseError(e)) => return Err(e),
        Err(_) => return Err(FormatError::Truncated),
    };
    if bh.data_size > block_size {
        return Err(FormatError::BlockSizeExceeded { data_size: bh.data_size, block_size });
    }
    let data_size = bh.data_size as usize;
    if len - offset - BLOCK_HDR_SIZE < data_size {
        let bytes = copy_bytes(&input[offset + BLOCK_HDR_SIZE..len]);
        assert(bytes@ =~= rest@.subrange(BLOCK_HDR_SIZE as int, rest@.len() as int));
        Ok((bytes, len, Some(SoftFailure::TruncatedPayload)))
    } else {
        let end = offset + BLOCK_HDR_SIZE + data_size;
        let payload = &input[offset + BLOCK_HDR_SIZE..end];
        assert(payload@ =~= rest@.subrange(BLOCK_HDR_SIZE as int, BLOCK_HDR_SIZE + bh.data_size));
        if let Err(e) = verify(payload, bh.crc32) {
            return Err(e);
        }
        if bh.data_size == block_size {
            return Ok((copy_bytes(payload), end, None));
        }
        let expanded = lznt1_run(payload);
        let event = match &expanded {
            Some(_) => None,
            None => Some(SoftFailure::MalformedStream),
        };
        match reconcile_expanded(payload, block_size, false, expanded) {
            Ok(b) => Ok((b, end, event)),
            Err(e) => Err(e),
        }
    }
}

/// The summary of a decode run, with the bytes it reconstructed.
#[derive(Debug)]
pub struct ZdmpFile {
    pub hdr: ZdmpFileHdr,
    pub block_count: u64,
    /// The container size that the header declares.
    pub file_size: u64,
    pub uncompressed_size: u64,
    /// The soft failures met, each with the offset of its block header.
    pub events: Vec<(u64, SoftFailure)>,
    /// The reconstructed bytes; empty in silent mode.
    pub output: Vec<u8>,
}

impl ZdmpFile {
    /// The run summary agrees with header `h` and final scan state `st`.
    pub open spec fn describes(&self, h: ZdmpFileHdr, st: ScanState) -> bool {
        &&& self.hdr == h
        &&& self.file_size == h.file_size
        &&& self.block_count == st.count
        &&& self.uncompressed_size == st.size
        &&& self.events@ == st.events
        &&& self.output@ == st.out
    }

    /// The scan state that the running values stand for.
    spec fn state_of(
        offset: usize,
        count: u64,
        size: u64,
        out: Seq<u8>,
        events: Seq<(u64, SoftFailure)>,
    ) -> ScanState {
        ScanState { offset: offset as nat, count: count as nat, size: size as nat, out, events }
    }

    /// Decodes a whole container held in `input`. In silent mode nothing is
    /// emitted but every block is accounted for all the same. The scan ends
    /// where the offset reaches the end of `input`.
    pub fn new(input: &[u8], silent_mode: bool) -> (r: Result<Self>)
        ensures
            match decode_spec(input@, silent_mode) {
                Ok((h, st)) => r is Ok && r->Ok_0.describes(h, st),
                Err(e) => r is Err && r->Err_0 == Error::DumpParseError(e),
            },
    {
        Self::new_until(input, silent_mode, ScanEnd::InputLength)
    }

    /// Decodes a whole container held in `input`, scanning blocks up to the
    /// limit that `end` sets.
    pub fn new_until(input: &[u8], silent_mode: bool, end: ScanEnd) -> (r: Result<Self>)
        ensures
            match decode_until_spec(input@, silent_mode, end) {
                Ok((h, st)) => r is Ok && r->Ok_0.describes(h, st),
                Err(e) => r is Err && r->Err_0 == Error::DumpParseError(e),
            },
    {
        match Self::decode(input, silent_mode, end) {
            Ok(f) => Ok(f),
            Err((e, _)) => Err(e),
        }
    }

    /// Decodes a whole container as `new_until` does; a fatal error comes
    /// with the bytes that the blocks before it emitted, so that a caller
    /// writing them as they come keeps what a streaming run would have left.
    pub fn decode(input: &[u8], silent_mode: bool, end: ScanEnd) -> (r: core::result::Result<
        Self,
        (Error, Vec<u8>),
    >)
        ensures
            match decode_until_spec(input@, silent_mode, end) {
                Ok((h, st)) => r is Ok && r->Ok_0.describes(h, st),
                Err(e) => r is Err && r->Err_0.0 == Error::DumpParseError(e) && r->Err_0.1@
                    == emitted_until(input@, silent_mode, end),
            },
    {
        let hdr = match ZdmpFileHdr::new(input) {
            Ok(h) => h,
            Err(e) => return Err((e, Vec::new())),
        };
        if hdr.data_type != BLOCK_DATA_TYPE_COMPRESSION {
            return Err((Error::DumpParseError(FormatError::UnsupportedDataType), Vec::new()));
        }
        if hdr.compression_format != COMPRESSION_FORMAT_LZNT1 {
            return Err((Error::DumpParseError(FormatError::UnsupportedCompression), Vec::new()));
        }
        assert(parse_file_hdr(input@) == Ok::<ZdmpFileHdr, FormatError>(hdr));
        let block_size = hdr.block_size;
        let len = match end {
            ScanEnd::InputLength => input.len(),
            ScanEnd::DeclaredFileSize => if hdr.file_size < input.len() as u64 {
                hdr.file_size as usize
            } else {
                input.len()
            },
        };
        let body = &input[0..len];
        let mut offset: usize = ZDMP_BLOCK_START_OFFSET as usize;
        let mut count: u64 = 0;
        let mut size: u64 = 0;
        let mut output: Vec<u8> = Vec::new();
        let mut events: Vec<(u64, SoftFailure)> = Vec::new();
        let ghost target = scan(body@, block_size, silent_mode, scan_start());
        let ghost emitted = scan_emitted(body@, block_size, silent_mode, scan_start());
        proof {
            assert(Self::state_of(offset, count, size, output@, events@) == scan_start());
        }
        while offset < len
            invariant
                len == body@.len(),
                body@ == input@.subrange(0, scan_limit(input@.len(), hdr, end) as int),
                parse_file_hdr(input@) == Ok::<ZdmpFileHdr, FormatError>(hdr),
                hdr.data_type == BLOCK_DATA_TYPE_COMPRESSION,
                hdr.compression_format == COMPRESSION_FORMAT_LZNT1,
                block_size == hdr.block_size,
                target == scan(body@, block_size, silent_mode, scan_start()),
                emitted == scan_emitted(body@, block_size, silent_mode, scan_start()),
                scan_emitted(
                    body@,
                    block_size,
                    silent_mode,
                    Self::state_of(offset, count, size, output@, events@),
                ) == emitted,
                count <= offset,
                scan(
                    body@,
                    block_size,
                    silent_mode,
                    Self::state_of(offset, count, size, output@, events@),
                ) == target,
            decreases len - offset,
        {
            let ghost cur = Self::state_of(offset, count, size, output@, events@);
            if len - offset < BLOCK_HDR_SIZE {
                events.push((offset as u64, SoftFailure::TruncatedHeader));
                offset = len;
                assert(scan_step(body@, block_size, silent_mode, cur) == Ok::<ScanState, FormatError>(
                    Self::state_of(offset, count, size, output@, events@)));
            } else {
                let (bytes, next, event) = match read_block(body, offset, block_size) {
                    Ok(b) => b,
                    Err(e) => {
                        assert(scan_step(body@, block_size, silent_mode, cur) == Err::<
                            ScanState,
                            FormatError,
                        >(e));
                        return Err((Error::DumpParseError(e), output));
                    },
                };
                if bytes.len() as u64 > u64::MAX - size {
                    assert(scan_step(body@, block_size, silent_mode, cur) == Err::<ScanState, FormatError>(
                        FormatError::SizeOverflow));
                    return Err((Error::DumpParseError(FormatError::SizeOverflow), output));
                }
                size = size + bytes.len() as u64;
                count = count + 1;
                if !silent_mode {
                    output.extend_from_slice(&bytes);
                    assert(output@ =~= cur.out + bytes@);
                }
                if let Some(k) = event {
                    events.push((offset as u64, k));
                }
                offset = next;
                assert(scan_step(body@, block_size, silent_mode, cur) == Ok::<ScanState, FormatError>(
                    Self::state_of(offset, count, size, output@, events@)));
            }
        }
        Ok(ZdmpFile {
            hdr,
            block_count: count,
            file_size: hdr.file_size,
            uncompressed_size: size,
            events,
            output,
        })
    }
}

/// The state that `k` rounds of the Block Iterator reach from `st`, or the
/// fatal error met on the way; it stays put once the end is reached.
pub open spec fn scan_steps(
    input: Seq<u8>,
    block_size: u32,
    silent: bool,
    st: ScanState,
    k: nat,
) -> core::result::Result<ScanState, FormatError>
    decreases k,
{
    if k == 0 || st.offset >= input.len() {
        Ok(st)
    } else {
        match scan_step(input, block_size, silent, st) {
            Err(e) => Err(e),
            Ok(next) => scan_steps(input, block_size, silent, next, (k - 1) as nat),
        }
    }
}

proof fn lemma_steps_then_scan(
    input: Seq<u8>,
    block_size: u32,
    silent: bool,
    st: ScanState,
    k: nat,
)
    ensures
        scan_steps(input, block_size, silent, st, k) is Ok ==> scan(input, block_size, silent, st)
            == scan(input, block_size, silent, scan_steps(input, block_size, silent, st, k)->Ok_0),
    decreases k,
{
    if k > 0 && st.offset < input.len() {
        if let Ok(next) = scan_step(input, block_size, silent, st) {
            lemma_steps_then_scan(input, block_size, silent, next, (k - 1) as nat);
        }
    }
}

proof fn lemma_steps_last(input: Seq<u8>, block_size: u32, silent: bool, st: ScanState, k: nat)
    requires
        scan_steps(input, block_size, silent, st, k) is Ok,
        scan_steps(input, block_size, silent, st, k)->Ok_0.offset < input.len(),
    ensures
        scan_steps(input, block_size, silent, st, k + 1) == scan_step(
            input,
            block_size,
            silent,
            scan_steps(input, block_size, silent, st, k)->Ok_0,
        ),
    decreases k,
{
    if k > 0 {
        let next = scan_step(input, block_size, silent, st)->Ok_0;
        assert(scan_steps(input, block_size, silent, st, k) == scan_steps(
            input,
            block_size,
            silent,
            next,
            (k - 1) as nat,
        ));
        lemma_steps_last(input, block_size, silent, next, (k - 1) as nat);
        assert(((k - 1) as nat + 1) as nat == k);
    } else {
        reveal_with_fuel(scan_steps, 2);
    }
}

/// The file header of `input` is one that the decoder accepts.
pub open spec fn accepted_header(input: Seq<u8>) -> bool {
    &&& parse_file_hdr(input) is Ok
    &&& parse_file_hdr(input)->Ok_0.data_type == BLOCK_DATA_TYPE_COMPRESSION
    &&& parse_file_hdr(input)->Ok_0.compression_format == COMPRESSION_FORMAT_LZNT1
}

/// The state that the decoder of `input` reaches after `k` blocks.
pub open spec fn reached(input: Seq<u8>, silent: bool, k: nat) -> core::result::Result<
    ScanState,
    FormatError,
> {
    scan_steps(input, parse_file_hdr(input)->Ok_0.block_size, silent, scan_start(), k)
}

/// The bytes after the block header at `offset`.
pub open spec fn after_header(input: Seq<u8>, offset: nat) -> Seq<u8> {
    input.subrange(offset + BLOCK_HDR_SIZE, input.len() as int)
}

/// The payload of the block at `offset`, as its header declares it.
pub open spec fn payload_at(input: Seq<u8>, offset: nat) -> Seq<u8> {
    let rest = input.subrange(offset as int, input.len() as int);
    rest.subrange(BLOCK_HDR_SIZE as int, BLOCK_HDR_SIZE + le32(rest, 4))
}

/// The block at `offset` has a header with the block magic and a
/// `data_size` within `block_size`.
pub open spec fn sound_header(input: Seq<u8>, block_size: u32, offset: nat) -> bool {
    let rest = input.subrange(offset as int, input.len() as int);
    &&& offset + BLOCK_HDR_SIZE <= input.len()
    &&& parse_block_hdr(rest) is Ok
    &&& le32(rest, 4) <= block_size
}

/// The block at `offset` is whole: a sound header, and a payload inside
/// `input` whose CRC-32 is `crc_ok` to the stored one or not.
pub open spec fn whole_block(input: Seq<u8>, block_size: u32, offset: nat, crc_ok: bool) -> bool {
    let rest = input.subrange(offset as int, input.len() as int);
    &&& sound_header(input, block_size, offset)
    &&& offset + BLOCK_HDR_SIZE + le32(rest, 4) <= input.len()
    &&& (crc32_of(payload_at(input, offset)) == le32(rest, 8)) == crc_ok
}

/// What a whole block with a good checksum adds to the output: a stored
/// payload as it is; an expansion of at most `block_size` bytes followed by
/// zeros up to `block_size` (none when it is exactly that long); and
/// `block_size` zeros for a malformed stream.
pub open spec fn block_output(p: Seq<u8>, block_size: u32) -> Seq<u8> {
    if p.len() == block_size {
        p
    } else {
        match lznt1_result(p) {
            None => zeros(block_size as nat),
            Some(d) => d + zeros((block_size - d.len()) as nat),
        }
    }
}

/// Where the decoder reaches a whole block with a good checksum whose
/// expansion is not too long, the block adds its `block_output` to the
/// output (none in silent mode) and exactly `block_size` bytes to the size,
/// and the run goes on at the next header; the run's outcome is then that
/// of the scan from there.
pub proof fn lemma_decode_emits_block(input: Seq<u8>, silent: bool, k: nat)
    requires
        accepted_header(input),
        reached(input, silent, k) is Ok,
        ({
            let h = parse_file_hdr(input)->Ok_0;
            let st = reached(input, silent, k)->Ok_0;
            let p = payload_at(input, st.offset);
            &&& st.offset < input.len()
            &&& whole_block(input, h.block_size, st.offset, true)
            &&& p.len() != h.block_size && lznt1_result(p) is Some ==> lznt1_result(p)->Some_0.len()
                <= h.block_size
            &&& st.size + h.block_size <= u64::MAX
        }),
    ensures
        ({
            let h = parse_file_hdr(input)->Ok_0;
            let st = reached(input, silent, k)->Ok_0;
            let p = payload_at(input, st.offset);
            let next = reached(input, silent, k + 1)->Ok_0;
            &&& reached(input, silent, k + 1) is Ok
            &&& next.offset == st.offset + BLOCK_HDR_SIZE + p.len()
            &&& next.count == st.count + 1
            &&& next.size == st.size + h.block_size
            &&& next.out == emit(st.out, block_output(p, h.block_size), silent)
            &&& block_output(p, h.block_size).len() == h.block_size
            &&& decode_spec(input, silent) == match scan(input, h.block_size, silent, next) {
                Err(e) => Err(e),
                Ok(fin) => Ok::<(ZdmpFileHdr, ScanState), FormatError>((h, fin)),
            }
        }),
{
    reveal(block_at);
    let h = parse_file_hdr(input)->Ok_0;
    let st = reached(input, silent, k)->Ok_0;
    let p = payload_at(input, st.offset);
    lemma_steps_last(input, h.block_size, silent, scan_start(), k);
    lemma_steps_then_scan(input, h.block_size, silent, scan_start(), k + 1);
    assert(input.subrange(0, input.len() as int) =~= input);
    if p.len() != h.block_size {
        if let Some(d) = lznt1_result(p) {
            assert(d + zeros(0) =~= d);
        }
    }
}

/// Each of the first `k` blocks that a normal run of the decoder reaches is
/// whole, has a good checksum and an expansion that is not too long, and
/// leaves the size within 64 bits.
pub open spec fn clean_blocks(input: Seq<u8>, k: nat) -> bool
    decreases k,
{
    if k == 0 {
        true
    } else {
        let h = parse_file_hdr(input)->Ok_0;
        let st = reached(input, false, (k - 1) as nat)->Ok_0;
        let p = payload_at(input, st.offset);
        &&& clean_blocks(input, (k - 1) as nat)
        &&& reached(input, false, (k - 1) as nat) is Ok
        &&& st.offset < input.len()
        &&& whole_block(input, h.block_size, st.offset, true)
        &&& p.len() != h.block_size && lznt1_result(p) is Some ==> lznt1_result(p)->Some_0.len()
            <= h.block_size
        &&& st.size + h.block_size <= u64::MAX
    }
}

/// The outputs of the first `k` blocks, in file order.
pub open spec fn block_outputs(input: Seq<u8>, k: nat) -> Seq<u8>
    decreases k,
{
    if k == 0 {
        Seq::empty()
    } else {
        let st = reached(input, false, (k - 1) as nat)->Ok_0;
        block_outputs(input, (k - 1) as nat) + block_output(
            payload_at(input, st.offset),
            parse_file_hdr(input)->Ok_0.block_size,
        )
    }
}

/// After `k` clean blocks a normal run has counted `k` blocks and emitted
/// exactly the blocks' outputs one after the other, in file order, each
/// `block_size` bytes long: stored payloads byte for byte, and expansions
/// unchanged or padded with zeros.
pub proof fn lemma_decode_concatenates(input: Seq<u8>, k: nat)
    requires
        accepted_header(input),
        clean_blocks(input, k),
    ensures
        reached(input, false, k) is Ok,
        reached(input, false, k)->Ok_0.count == k,
        reached(input, false, k)->Ok_0.out == block_outputs(input, k),
        reached(input, false, k)->Ok_0.size == block_outputs(input, k).len(),
    decreases k,
{
    if k > 0 {
        lemma_decode_concatenates(input, (k - 1) as nat);
        lemma_decode_emits_block(input, false, (k - 1) as nat);
        assert(((k - 1) as nat + 1) as nat == k);
    }
}

/// Where the decoder reaches a whole block whose payload does not match its
/// stored CRC-32, the run fails with `ChecksumMismatch`, and nothing of the
/// block or after it is decoded.
pub proof fn lemma_decode_fails_on_checksum(input: Seq<u8>, silent: bool, k: nat)
    requires
        accepted_header(input),
        reached(input, silent, k) is Ok,
        reached(input, silent, k)->Ok_0.offset < input.len(),
        whole_block(
            input,
            parse_file_hdr(input)->Ok_0.block_size,
            reached(input, silent, k)->Ok_0.offset,
            false,
        ),
    ensures
        decode_spec(input, silent) is Err,
        decode_spec(input, silent)->Err_0 is ChecksumMismatch,
{
    reveal(block_at);
    let h = parse_file_hdr(input)->Ok_0;
    lemma_steps_then_scan(input, h.block_size, silent, scan_start(), k);
    assert(input.subrange(0, input.len() as int) =~= input);
}

/// Where the decoder reaches a whole compressed block with a good checksum
/// whose expansion is longer than `block_size`, the run fails with
/// `DecompressedTooLarge`: the expansion is never cut short.
pub proof fn lemma_decode_fails_on_long_expansion(input: Seq<u8>, silent: bool, k: nat)
    requires
        accepted_header(input),
        reached(input, silent, k) is Ok,
        ({
            let h = parse_file_hdr(input)->Ok_0;
            let st = reached(input, silent, k)->Ok_0;
            let p = payload_at(input, st.offset);
            &&& st.offset < input.len()
            &&& whole_block(input, h.block_size, st.offset, true)
            &&& p.len() != h.block_size
            &&& lznt1_result(p) is Some
            &&& lznt1_result(p)->Some_0.len() > h.block_size
        }),
    ensures
        decode_spec(input, silent) is Err,
        decode_spec(input, silent)->Err_0 is DecompressedTooLarge,
{
    reveal(block_at);
    let h = parse_file_hdr(input)->Ok_0;
    lemma_steps_then_scan(input, h.block_size, silent, scan_start(), k);
    assert(input.subrange(0, input.len() as int) =~= input);
}

/// Where the decoder reaches a block whose header is sound but whose
/// payload the input cuts short, the run does not fail: it counts the
/// block, adds the bytes that are there to the size and the output, notes
/// a `TruncatedPayload`, and ends.
pub proof fn lemma_decode_keeps_cut_payload(input: Seq<u8>, silent: bool, k: nat)
    requires
        accepted_header(input),
        reached(input, silent, k) is Ok,
        ({
            let h = parse_file_hdr(input)->Ok_0;
            let st = reached(input, silent, k)->Ok_0;
            let rest = input.subrange(st.offset as int, input.len() as int);
            &&& st.offset < input.len()
            &&& sound_header(input, h.block_size, st.offset)
            &&& st.offset + BLOCK_HDR_SIZE + le32(rest, 4) > input.len()
            &&& st.size + after_header(input, st.offset).len() <= u64::MAX
        }),
    ensures
        ({
            let h = parse_file_hdr(input)->Ok_0;
            let st = reached(input, silent, k)->Ok_0;
            let cut = after_header(input, st.offset);
            decode_spec(input, silent) == Ok::<(ZdmpFileHdr, ScanState), FormatError>(
                (
                    h,
                    ScanState {
                        offset: input.len(),
                        count: st.count + 1,
                        size: st.size + cut.len(),
                        out: emit(st.out, cut, silent),
                        events: st.events.push((st.offset as u64, SoftFailure::TruncatedPayload)),
                    },
                ),
            )
        }),
{
    reveal(block_at);
    let h = parse_file_hdr(input)->Ok_0;
    let st = reached(input, silent, k)->Ok_0;
    let rest = input.subrange(st.offset as int, input.len() as int);
    let cut = after_header(input, st.offset);
    lemma_steps_then_scan(input, h.block_size, silent, scan_start(), k);
    assert(input.subrange(0, input.len() as int) =~= input);
    assert(rest.subrange(BLOCK_HDR_SIZE as int, rest.len() as int) =~= cut);
    assert(block_at(input, h.block_size, st.offset) == Ok::<
        (Seq<u8>, nat, Option<SoftFailure>),
        FormatError,
    >((cut, input.len(), Some(SoftFailure::TruncatedPayload))));
    let fin = ScanState {
        offset: input.len(),
        count: st.count + 1,
        size: st.size + cut.len(),
        out: emit(st.out, cut, silent),
        events: st.events.push((st.offset as u64, SoftFailure::TruncatedPayload)),
    };
    assert(scan_step(input, h.block_size, silent, st) == Ok::<ScanState, FormatError>(fin));
    assert(scan(input, h.block_size, silent, fin) == Ok::<ScanState, FormatError>(fin));
    assert(scan(input, h.block_size, silent, st) == Ok::<ScanState, FormatError>(fin));
}

/// Two scan states that agree on everything but the emitted bytes.
pub open spec fn same_accounting(a: ScanState, b: ScanState) -> bool {
    &&& a.offset == b.offset
    &&& a.count == b.count
    &&& a.size == b.size
    &&& a.events == b.events
}

proof fn lemma_scan_silent(input: Seq<u8>, block_size: u32, quiet: ScanState, loud: ScanState)
    requires
        same_accounting(quiet, loud),
        quiet.out.len() == 0,
    ensures
        match (scan(input, block_size, true, quiet), scan(input, block_size, false, loud)) {
            (Ok(a), Ok(b)) => same_accounting(a, b) && a.out.len() == 0,
            (Err(x), Err(y)) => x == y,
            _ => false,
        },
    decreases input.len() - quiet.offset,
{
    if quiet.offset < input.len() {
        lemma_step_advances(input, block_size, true, quiet);
        match (scan_step(input, block_size, true, quiet), scan_step(input, block_size, false, loud)) {
            (Ok(a), Ok(b)) => {
                lemma_scan_silent(input, block_size, a, b);
            },
            _ => {},
        }
    }
}

/// Silent mode fails exactly where a normal run fails, with the same error;
/// where they succeed, both count the same blocks and the same
/// reconstructed size, and the silent run emits no bytes.
pub proof fn lemma_silent_same_accounting(input: Seq<u8>, end: ScanEnd)
    ensures
        match (decode_until_spec(input, true, end), decode_until_spec(input, false, end)) {
            (Ok((h1, a)), Ok((h2, b))) => h1 == h2 && a.count == b.count && a.size == b.size
                && a.out.len() == 0,
            (Err(x), Err(y)) => x == y,
            _ => false,
        },
{
    if let Ok(h) = parse_file_hdr(input) {
        let body = input.subrange(0, scan_limit(input.len(), h, end) as int);
        lemma_scan_silent(body, h.block_size, scan_start(), scan_start());
    }
}

/// Decoding is a function of the input bytes: two runs on equal inputs, in
/// the same mode, fail alike or produce the same summary and output.
pub proof fn lemma_decode_deterministic(a: Seq<u8>, b: Seq<u8>, silent: bool, end: ScanEnd)
    requires
        a == b,
    ensures
        decode_until_spec(a, silent, end) == decode_until_spec(b, silent, end),
{
}

} // verus!
