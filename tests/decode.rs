use z2dmp::lznt1::lznt1_framed_check;
use z2dmp::result::{Error, FormatError};
use z2dmp::zdmp::{
    read_block, reconcile, reconcile_expanded, verify, ScanEnd, SoftFailure, ZdmpBlockHdr, ZdmpFile,
    ZdmpFileHdr,
    BLOCK_DATA_TYPE_COMPRESSION, BLOCK_DATA_TYPE_ENCRYPTION, COMPRESSION_FORMAT_LZNT1,
    ZDMP_BLOCK_SIGNATURE, ZDMP_FILE_SIGNATURE,
};

fn crc32(b: &[u8]) -> u32 {
    crc::Crc::<u32>::new(&crc::CRC_32_ISO_HDLC).checksum(b)
}

fn file_header(file_size: u64, block_size: u32, data_type: u16, format: u16) -> Vec<u8> {
    let mut v = Vec::new();
    v.extend_from_slice(&ZDMP_FILE_SIGNATURE.to_le_bytes());
    v.extend_from_slice(&0x0100u32.to_le_bytes());
    v.extend_from_slice(&file_size.to_le_bytes());
    v.extend_from_slice(&block_size.to_le_bytes());
    v.extend_from_slice(&data_type.to_le_bytes());
    v.extend_from_slice(&format.to_le_bytes());
    v
}

/// A container header padded up to the first block offset.
fn container(file_size: u64) -> Vec<u8> {
    let mut v = file_header(file_size, 0x1000, BLOCK_DATA_TYPE_COMPRESSION, COMPRESSION_FORMAT_LZNT1);
    v.resize(0x1000, 0);
    v
}

fn push_block(v: &mut Vec<u8>, payload: &[u8]) {
    v.extend_from_slice(&ZDMP_BLOCK_SIGNATURE.to_le_bytes());
    v.extend_from_slice(&(payload.len() as u32).to_le_bytes());
    v.extend_from_slice(&crc32(payload).to_le_bytes());
    v.extend_from_slice(payload);
}

/// A 512-byte LZNT1 stream: one literal 0xAA, a back-reference repeating
/// it `fill` times, then 450 literals counting up modulo 251.
fn lznt1_stream(fill: u16) -> Vec<u8> {
    let f = fill - 3;
    let mut s = vec![0xFD, 0xB1, 0x02, 0xAA, (f & 0xff) as u8, (f >> 8) as u8];
    let mut k: u32 = 0;
    for _ in 0..6 {
        s.push((k % 251) as u8);
        k += 1;
    }
    for _ in 0..55 {
        s.push(0);
        for _ in 0..8 {
            s.push((k % 251) as u8);
            k += 1;
        }
    }
    s.push(0);
    for _ in 0..4 {
        s.push((k % 251) as u8);
        k += 1;
    }
    s
}

fn lznt1_expansion(fill: usize) -> Vec<u8> {
    let mut v = vec![0xAAu8; fill + 1];
    for k in 0..450u32 {
        v.push((k % 251) as u8);
    }
    v
}

#[test]
fn stored_block_is_copied() {
    let mut input = container(0x2000);
    push_block(&mut input, &[0xAA; 0x1000]);
    let f = ZdmpFile::new(&input, false).unwrap();
    assert_eq!(f.block_count, 1);
    assert_eq!(f.uncompressed_size, 0x1000);
    assert_eq!(f.output, vec![0xAA; 0x1000]);
    assert!(f.events.is_empty());
    assert_eq!(f.file_size, 0x2000);
}

#[test]
fn compressed_block_expands() {
    let stream = lznt1_stream(3645);
    assert_eq!(stream.len(), 0x200);
    let mut input = container(0x2000);
    push_block(&mut input, &stream);
    let f = ZdmpFile::new(&input, false).unwrap();
    assert_eq!(f.uncompressed_size, 0x1000);
    assert_eq!(f.block_count, 1);
    assert_eq!(f.output, lznt1_expansion(3645));
}

#[test]
fn flipped_payload_byte_fails_checksum() {
    let stream = lznt1_stream(3645);
    let mut input = container(0x3000);
    push_block(&mut input, &stream);
    input[0x1000 + 12 + 100] ^= 0x01;
    push_block(&mut input, &[0xAA; 0x1000]);
    let r = ZdmpFile::new(&input, false);
    assert!(matches!(r, Err(Error::DumpParseError(FormatError::ChecksumMismatch { .. }))));
}

#[test]
fn short_expansion_is_zero_padded() {
    let stream = lznt1_stream(3629);
    let mut input = container(0x2000);
    push_block(&mut input, &stream);
    let f = ZdmpFile::new(&input, false).unwrap();
    let mut expected = lznt1_expansion(3629);
    assert_eq!(expected.len(), 4080);
    expected.extend_from_slice(&[0u8; 16]);
    assert_eq!(f.output, expected);
    assert_eq!(f.uncompressed_size, 0x1000);
}

#[test]
fn long_expansion_fails() {
    let stream = lznt1_stream(3661);
    let mut input = container(0x2000);
    push_block(&mut input, &stream);
    let r = ZdmpFile::new(&input, false);
    assert!(matches!(
        r,
        Err(Error::DumpParseError(FormatError::DecompressedTooLarge { size: 0x1010, block_size: 0x1000 }))
    ));
}

#[test]
fn truncated_second_block_is_soft() {
    let mut input = container(0x3000);
    push_block(&mut input, &[0xAA; 0x1000]);
    push_block(&mut input, &[0x55; 0x1000]);
    let cut = 0x1000 + 12 + 0x1000 + 12 + 100;
    input.truncate(cut);
    let f = ZdmpFile::new(&input, false).unwrap();
    assert_eq!(f.block_count, 2);
    assert_eq!(f.uncompressed_size, 0x1000 + 100);
    assert!(f.uncompressed_size < f.file_size);
    assert_eq!(f.events, vec![(0x2000 + 12, SoftFailure::TruncatedPayload)]);
    let mut expected = vec![0xAAu8; 0x1000];
    expected.extend_from_slice(&[0x55; 100]);
    assert_eq!(f.output, expected);
}

#[test]
fn truncated_trailing_header_ends_scan() {
    let mut input = container(0x2000);
    push_block(&mut input, &[0xAA; 0x1000]);
    input.extend_from_slice(&[0x5A, 0x42, 0x4C]);
    let f = ZdmpFile::new(&input, false).unwrap();
    assert_eq!(f.block_count, 1);
    assert_eq!(f.uncompressed_size, 0x1000);
    assert_eq!(f.events, vec![(0x2000 + 12, SoftFailure::TruncatedHeader)]);
}

#[test]
fn silent_mode_same_accounting() {
    let mut input = container(0x3000);
    push_block(&mut input, &[0xAA; 0x1000]);
    push_block(&mut input, &lznt1_stream(3629));
    let loud = ZdmpFile::new(&input, false).unwrap();
    let quiet = ZdmpFile::new(&input, true).unwrap();
    assert_eq!(loud.block_count, 2);
    assert_eq!(quiet.block_count, loud.block_count);
    assert_eq!(quiet.uncompressed_size, loud.uncompressed_size);
    assert_eq!(loud.output.len(), 0x2000);
    assert!(quiet.output.is_empty());
}

#[test]
fn decoding_twice_gives_same_output() {
    let mut input = container(0x3000);
    push_block(&mut input, &lznt1_stream(3645));
    push_block(&mut input, &[0x11; 0x1000]);
    let a = ZdmpFile::new(&input, false).unwrap();
    let b = ZdmpFile::new(&input, false).unwrap();
    assert_eq!(a.output, b.output);
    assert_eq!(a.block_count, b.block_count);
    assert_eq!(a.uncompressed_size, b.uncompressed_size);
}

#[test]
fn malformed_stream_becomes_zeros() {
    // The chunk header claims 0x1000 bytes that the stream does not hold.
    let stream = [0xFF, 0xBF, 0x01, 0x02];
    let r = reconcile(&stream, 0x1000, false).unwrap();
    assert_eq!(r, vec![0u8; 0x1000]);
    let mut input = container(0x2000);
    push_block(&mut input, &stream);
    let f = ZdmpFile::new(&input, false).unwrap();
    assert_eq!(f.output, vec![0u8; 0x1000]);
    assert_eq!(f.events, vec![(0x1000, SoftFailure::MalformedStream)]);
}

#[test]
fn empty_container_has_no_blocks() {
    let input = container(0x1000);
    let f = ZdmpFile::new(&input, false).unwrap();
    assert_eq!(f.block_count, 0);
    assert_eq!(f.uncompressed_size, 0);
    assert!(f.output.is_empty());
    let short = file_header(0, 0x1000, BLOCK_DATA_TYPE_COMPRESSION, COMPRESSION_FORMAT_LZNT1);
    let g = ZdmpFile::new(&short, false).unwrap();
    assert_eq!(g.block_count, 0);
}

#[test]
fn unsupported_modes_are_refused() {
    let mut a = file_header(0, 0x1000, BLOCK_DATA_TYPE_ENCRYPTION, COMPRESSION_FORMAT_LZNT1);
    a.resize(0x1000, 0);
    assert!(matches!(
        ZdmpFile::new(&a, false),
        Err(Error::DumpParseError(FormatError::UnsupportedDataType))
    ));
    let mut b = file_header(0, 0x1000, BLOCK_DATA_TYPE_COMPRESSION, 3);
    b.resize(0x1000, 0);
    assert!(matches!(
        ZdmpFile::new(&b, false),
        Err(Error::DumpParseError(FormatError::UnsupportedCompression))
    ));
}

#[test]
fn oversized_block_is_refused() {
    let mut input = container(0x3000);
    push_block(&mut input, &[0xAA; 0x1001]);
    assert!(matches!(
        ZdmpFile::new(&input, false),
        Err(Error::DumpParseError(FormatError::BlockSizeExceeded { data_size: 0x1001, block_size: 0x1000 }))
    ));
}

#[test]
fn bad_block_signature_is_refused() {
    let mut input = container(0x2000);
    push_block(&mut input, &[0xAA; 0x1000]);
    input[0x1000] = 0;
    assert!(matches!(
        ZdmpFile::new(&input, false),
        Err(Error::DumpParseError(FormatError::BadSignature))
    ));
}

#[test]
fn file_header_fields_are_little_endian() {
    let bytes = file_header(0x1122_3344_5566_7788, 0x1000, 1, 2);
    let h = ZdmpFileHdr::new(&bytes).unwrap();
    assert_eq!(h.signature, ZDMP_FILE_SIGNATURE);
    assert_eq!(h.version, 0x0100);
    assert_eq!(h.file_size, 0x1122_3344_5566_7788);
    assert_eq!(h.block_size, 0x1000);
    assert_eq!(h.data_type, 1);
    assert_eq!(h.compression_format, 2);
    assert_eq!(&bytes[0..4], b"ZDMP");
}

#[test]
fn file_header_errors() {
    let bytes = file_header(0, 0x1000, 1, 2);
    assert!(matches!(
        ZdmpFileHdr::new(&bytes[..23]),
        Err(Error::DumpParseError(FormatError::Truncated))
    ));
    let mut bad = bytes.clone();
    bad[3] = b'X';
    assert!(matches!(
        ZdmpFileHdr::new(&bad),
        Err(Error::DumpParseError(FormatError::BadSignature))
    ));
    let mut input = bad;
    input.resize(0x1000, 0);
    assert!(matches!(
        ZdmpFile::new(&input, false),
        Err(Error::DumpParseError(FormatError::BadSignature))
    ));
}

#[test]
fn block_header_parses() {
    let mut v = Vec::new();
    push_block(&mut v, &[1, 2, 3]);
    let h = ZdmpBlockHdr::new(&v).unwrap();
    assert_eq!(h.signature, ZDMP_BLOCK_SIGNATURE);
    assert_eq!(&v[0..4], &[0x5A, 0x42, 0x4C, 0x4B]);
    assert_eq!(h.data_size, 3);
    assert_eq!(h.crc32, crc32(&[1, 2, 3]));
    assert!(matches!(
        ZdmpBlockHdr::new(&v[..11]),
        Err(Error::DumpParseError(FormatError::Truncated))
    ));
}

#[test]
fn verify_checks_crc32() {
    assert_eq!(verify(b"123456789", 0xCBF4_3926), Ok(()));
    assert_eq!(
        verify(b"123456789", 0xCBF4_3927),
        Err(FormatError::ChecksumMismatch { computed: 0xCBF4_3926, expected: 0xCBF4_3927 })
    );
    assert_eq!(verify(b"", 0), Ok(()));
}

#[test]
fn single_bit_flips_fail_verification() {
    let payload = lznt1_stream(3645);
    let crc = crc32(&payload);
    assert_eq!(verify(&payload, crc), Ok(()));
    for i in [0usize, 7, 100, 511] {
        for bit in 0..8 {
            let mut p = payload.clone();
            p[i] ^= 1 << bit;
            assert!(matches!(
                verify(&p, crc),
                Err(FormatError::ChecksumMismatch { computed, expected })
                    if computed != crc && expected == crc
            ));
        }
    }
}

#[test]
fn reconcile_policies() {
    let payload = [7u8; 16];
    assert_eq!(reconcile(&payload, 16, true).unwrap(), payload.to_vec());
    assert_eq!(reconcile_expanded(&payload, 16, true, None).unwrap(), payload.to_vec());
    assert_eq!(reconcile_expanded(&[1], 4, false, Some(vec![1, 2, 3, 4])).unwrap(), vec![1, 2, 3, 4]);
    assert_eq!(reconcile_expanded(&[1], 4, false, Some(vec![9])).unwrap(), vec![9, 0, 0, 0]);
    assert_eq!(reconcile_expanded(&[1], 3, false, None).unwrap(), vec![0, 0, 0]);
    assert_eq!(
        reconcile_expanded(&[1], 2, false, Some(vec![1, 2, 3])),
        Err(FormatError::DecompressedTooLarge { size: 3, block_size: 2 })
    );
}

#[test]
fn reconcile_runs_the_codec() {
    let stream = [0x03, 0xB0, 0x02, 0xAA, 0xFC, 0x0F];
    assert_eq!(reconcile(&stream, 0x1000, false).unwrap(), vec![0xAA; 0x1000]);
    assert_eq!(
        reconcile(&stream, 0x0800, false),
        Err(FormatError::DecompressedTooLarge { size: 0x1000, block_size: 0x0800 })
    );
}

#[test]
fn read_block_reports_next_offset() {
    let mut input = vec![0u8; 8];
    push_block(&mut input, &[0xAA; 16]);
    let (bytes, next, event) = read_block(&input, 8, 16).unwrap();
    assert_eq!(bytes, vec![0xAA; 16]);
    assert_eq!(next, 8 + 12 + 16);
    assert_eq!(event, None);
}

#[test]
fn declared_file_size_bounds_the_scan() {
    let mut input = container(0x1000 + 12 + 0x1000);
    push_block(&mut input, &[0xAA; 0x1000]);
    push_block(&mut input, &[0xBB; 0x1000]);
    let whole = ZdmpFile::new_until(&input, false, ScanEnd::InputLength).unwrap();
    assert_eq!(whole.block_count, 2);
    let declared = ZdmpFile::new_until(&input, false, ScanEnd::DeclaredFileSize).unwrap();
    assert_eq!(declared.block_count, 1);
    assert_eq!(declared.output, vec![0xAA; 0x1000]);
    assert!(declared.events.is_empty());
}

#[test]
fn declared_file_size_inside_a_payload_cuts_it() {
    let mut input = container(0x1000 + 12 + 10);
    push_block(&mut input, &[0xAA; 0x1000]);
    let f = ZdmpFile::new_until(&input, false, ScanEnd::DeclaredFileSize).unwrap();
    assert_eq!(f.block_count, 1);
    assert_eq!(f.output, vec![0xAA; 10]);
    assert_eq!(f.events, vec![(0x1000, SoftFailure::TruncatedPayload)]);
    let g = ZdmpFile::new_until(&input, false, ScanEnd::InputLength).unwrap();
    assert_eq!(g.output, vec![0xAA; 0x1000]);
}

#[test]
fn one_byte_compressed_block_becomes_zeros() {
    let mut input = container(0x2000);
    push_block(&mut input, &[0x42]);
    let f = ZdmpFile::new(&input, false).unwrap();
    assert_eq!(f.block_count, 1);
    assert_eq!(f.output, vec![0u8; 0x1000]);
    assert_eq!(f.events, vec![(0x1000, SoftFailure::MalformedStream)]);
}

#[test]
fn framing_check_accepts_whole_streams() {
    assert!(lznt1_framed_check(&lznt1_stream(3645)));
    assert!(lznt1_framed_check(&[0x03, 0xB0, 0x02, 0xAA, 0xFC, 0x0F]));
    assert!(lznt1_framed_check(&[]));
    // A chunk that claims more bytes than remain: the codec refuses it.
    assert!(lznt1_framed_check(&[0xFF, 0xBF, 0x01, 0x02]));
}

#[test]
fn framing_check_refuses_cut_fields() {
    // A chunk header cut after one byte.
    assert!(!lznt1_framed_check(&[0x42]));
    assert!(!lznt1_framed_check(&[0x03, 0xB0, 0x02, 0xAA, 0xFC, 0x0F, 0x00]));
    // A back-reference token cut by the end of input.
    assert!(!lznt1_framed_check(&[0x02, 0xB0, 0x02, 0xAA, 0xFC]));
    // A back-reference before any byte of its chunk.
    assert!(!lznt1_framed_check(&[0x02, 0xB0, 0x01, 0x00, 0x00]));
}

#[test]
fn unframed_streams_reconcile_to_zeros() {
    assert_eq!(reconcile(&[0x02, 0xB0, 0x01, 0x00, 0x00], 8, false).unwrap(), vec![0u8; 8]);
    assert_eq!(reconcile(&[0x02, 0xB0, 0x02, 0xAA, 0xFC], 8, false).unwrap(), vec![0u8; 8]);
    assert_eq!(reconcile(&[0x42], 4, false).unwrap(), vec![0u8; 4]);
}

#[test]
fn fatal_error_hands_back_earlier_blocks() {
    let mut input = container(0x4000);
    push_block(&mut input, &[0xAA; 0x1000]);
    push_block(&mut input, &lznt1_stream(3629));
    let bad = input.len() + 12 + 5;
    push_block(&mut input, &lznt1_stream(3645));
    input[bad] ^= 0x80;
    match ZdmpFile::decode(&input, false, ScanEnd::InputLength) {
        Err((Error::DumpParseError(FormatError::ChecksumMismatch { .. }), emitted)) => {
            let mut expected = vec![0xAAu8; 0x1000];
            expected.extend_from_slice(&lznt1_expansion(3629));
            expected.extend_from_slice(&[0u8; 16]);
            assert_eq!(emitted, expected);
        },
        _ => panic!("expected a checksum mismatch"),
    }
    match ZdmpFile::decode(&input, true, ScanEnd::InputLength) {
        Err((Error::DumpParseError(FormatError::ChecksumMismatch { .. }), emitted)) => {
            assert!(emitted.is_empty())
        },
        _ => panic!("expected a checksum mismatch"),
    }
}
