use git_delta::command::DeltaOp;
use git_delta::header::DeltaHeader;
use git_delta::patcher::{patch, DeltaPatcher};
use git_delta::DeltaError;

fn hello_delta(target_len: u8) -> Vec<u8> {
    let mut d = vec![11u8, target_len];
    d.push(0x06);
    d.extend_from_slice(b"HELLO ");
    d.push(0x90);
    d.push(0x05);
    d.push(0x05);
    d.extend_from_slice(b"!!!!!");
    d
}

#[test]
fn varint_boundaries() {
    assert_eq!(DeltaHeader::decode_size(&[0x00], 0), Ok((0, 1)));
    assert_eq!(DeltaHeader::decode_size(&[0x7f], 0), Ok((127, 1)));
    assert_eq!(DeltaHeader::decode_size(&[0x80, 0x01], 0), Ok((128, 2)));
    assert_eq!(DeltaHeader::decode_size(&[0xff, 0x7f], 0), Ok((16383, 2)));
    assert_eq!(DeltaHeader::decode_size(&[0x80, 0x80, 0x01], 0), Ok((16384, 3)));
}

#[test]
fn varint_reads_from_offset_and_stops_at_terminator() {
    let bytes = [0x42, 0xac, 0x02, 0x99];
    assert_eq!(DeltaHeader::decode_size(&bytes, 1), Ok((300, 2)));
    assert_eq!(DeltaHeader::decode_size(&[0x80, 0x80, 0x00], 0), Ok((0, 3)));
}

#[test]
fn varint_truncated() {
    assert_eq!(DeltaHeader::decode_size(&[], 0), Err(DeltaError::TruncatedStream));
    assert_eq!(DeltaHeader::decode_size(&[0x80], 0), Err(DeltaError::TruncatedStream));
    assert_eq!(DeltaHeader::decode_size(&[0x05], 1), Err(DeltaError::TruncatedStream));
}

#[test]
fn varint_overflow() {
    let mut bytes = vec![0xffu8; 9];
    bytes.push(0x02);
    assert_eq!(DeltaHeader::decode_size(&bytes, 0), Err(DeltaError::SizeOverflow));
    let mut cut = vec![0xffu8; 12];
    cut.push(0x80);
    assert_eq!(DeltaHeader::decode_size(&cut, 0), Err(DeltaError::SizeOverflow));
}

#[test]
fn varint_group_cap() {
    let cap = ((usize::BITS + 6) / 7) as usize;
    let mut zeros = vec![0x80u8; 11];
    zeros.push(0x00);
    assert_eq!(DeltaHeader::decode_size(&zeros, 0), Err(DeltaError::SizeOverflow));
    let mut long_zero = vec![0x80u8; cap - 1];
    long_zero.push(0x00);
    assert_eq!(DeltaHeader::decode_size(&long_zero, 0), Ok((0, cap)));
    let mut too_long = vec![0x80u8; cap];
    too_long.push(0x00);
    assert_eq!(DeltaHeader::decode_size(&too_long, 0), Err(DeltaError::SizeOverflow));
    let short = vec![0x80u8; cap - 1];
    assert_eq!(DeltaHeader::decode_size(&short, 0), Err(DeltaError::TruncatedStream));
    assert_eq!(DeltaHeader::decode_size(&[0x80, 0x80, 0x80, 0x80, 0x00], 0), Ok((0, 5)));
}

#[test]
fn header_reads_both_lengths() {
    let h = DeltaHeader::new(&[0x0b, 0x80, 0x01, 0x00]).unwrap();
    assert_eq!(h.source_len, 11);
    assert_eq!(h.target_len, 128);
    assert_eq!(h.get_offset, 3);
    assert_eq!(DeltaHeader::new(&[0x0b]), Err(DeltaError::TruncatedStream));
}

#[test]
fn end_to_end_hello() {
    let out = patch(b"hello world", &hello_delta(16)).unwrap();
    assert_eq!(out, b"HELLO hello!!!!!".to_vec());
    assert_eq!(out.len(), 16);
}

#[test]
fn target_one_short() {
    assert_eq!(
        patch(b"hello world", &hello_delta(17)),
        Err(DeltaError::TargetLengthMismatch)
    );
    assert_eq!(
        patch(b"hello world", &hello_delta(15)),
        Err(DeltaError::TargetLengthMismatch)
    );
}

#[test]
fn source_length_mismatch() {
    let mut d = hello_delta(16);
    d[0] = 10;
    assert_eq!(patch(b"hello world", &d), Err(DeltaError::SourceLengthMismatch));
    assert_eq!(patch(b"hello worlds", &hello_delta(16)), Err(DeltaError::SourceLengthMismatch));
}

#[test]
fn empty_insert_is_noop() {
    assert_eq!(patch(b"", &[0, 0, 0x00]), Ok(vec![]));
    assert_eq!(patch(b"", &[0, 2, 0x00, 0x02, b'a', b'b', 0x00]), Ok(b"ab".to_vec()));
}

#[test]
fn longest_insert() {
    let literal: Vec<u8> = (0..127u8).collect();
    let mut d = vec![0u8, 0x7f, 0x7f];
    d.extend_from_slice(&literal);
    assert_eq!(patch(b"", &d), Ok(literal));
}

#[test]
fn zero_length_copy_is_65536() {
    let source: Vec<u8> = (0..65536u32).map(|i| (i % 251) as u8).collect();
    let header = [0x80u8, 0x80, 0x04, 0x80, 0x80, 0x04];
    let mut d = header.to_vec();
    d.push(0x80);
    assert_eq!(patch(&source, &d), Ok(source.clone()));
    let mut explicit = header.to_vec();
    explicit.extend_from_slice(&[0xf0, 0x00, 0x00, 0x00]);
    assert_eq!(patch(&source, &explicit), Ok(source.clone()));
}

#[test]
fn copy_out_of_bounds() {
    assert_eq!(patch(b"hello", &[5, 6, 0x90, 0x06]), Err(DeltaError::CopyOutOfBounds));
    assert_eq!(patch(b"hello", &[5, 1, 0x91, 0x05, 0x01]), Err(DeltaError::CopyOutOfBounds));
    assert_eq!(patch(b"hello", &[5, 1, 0x91, 0x04, 0x01]), Ok(b"o".to_vec()));
    assert_eq!(patch(b"hello", &[5, 0, 0x80]), Err(DeltaError::CopyOutOfBounds));
}

#[test]
fn copy_operands_fill_their_slots() {
    let source: Vec<u8> = (0..300u32).map(|i| (i % 256) as u8).collect();
    let mut d = vec![0xac, 0x02, 0x05];
    d.extend_from_slice(&[0x93, 0x02, 0x01, 0x03]);
    d.extend_from_slice(&[0x92, 0x01, 0x02]);
    let out = patch(&source, &d).unwrap();
    assert_eq!(out, vec![2, 3, 4, 0, 1]);
}

#[test]
fn failed_command_keeps_buffer_and_cursor() {
    let d = [5u8, 3, 0x91, 0x04, 0x02, 0x03, b'a'];
    let mut p = DeltaPatcher::new(b"hello", &d).unwrap();
    let mut buf = vec![7u8];
    let copy = p.read_command().unwrap().unwrap();
    assert_eq!(copy, DeltaOp::Copy(4, 2));
    assert_eq!(p.run_command(copy, &mut buf), Err(DeltaError::CopyOutOfBounds));
    assert_eq!(buf, vec![7]);
    assert_eq!(p.run_command(DeltaOp::Copy(usize::MAX, 2), &mut buf), Err(DeltaError::CopyOutOfBounds));
    let insert = p.read_command().unwrap().unwrap();
    assert_eq!(insert, DeltaOp::Insert(3));
    assert_eq!(p.run_command(insert, &mut buf), Err(DeltaError::InsertOutOfBounds));
    assert_eq!(buf, vec![7]);
    assert_eq!(p.run_command(DeltaOp::Insert(1), &mut buf), Ok(()));
    assert_eq!(buf, vec![7, b'a']);
    assert_eq!(p.read_command(), Ok(None));
}

#[test]
fn insert_out_of_bounds() {
    assert_eq!(patch(b"", &[0, 3, 0x03, b'a']), Err(DeltaError::InsertOutOfBounds));
}

#[test]
fn truncated_copy_operand() {
    assert_eq!(patch(b"hello", &[5, 1, 0x91, 0x00]), Err(DeltaError::TruncatedStream));
    assert_eq!(patch(b"hello", &[]), Err(DeltaError::TruncatedStream));
}

#[test]
fn header_size_overflow() {
    let mut d = vec![0xffu8; 9];
    d.push(0x02);
    d.push(0x00);
    assert_eq!(patch(b"", &d), Err(DeltaError::SizeOverflow));
}

#[test]
fn patcher_step_by_step() {
    let d = hello_delta(16);
    let mut p = DeltaPatcher::new(b"hello world", &d).unwrap();
    let mut buf = Vec::new();
    let first = p.read_command().unwrap().unwrap();
    assert_eq!(first, DeltaOp::Insert(6));
    p.run_command(first, &mut buf).unwrap();
    assert_eq!(buf, b"HELLO ".to_vec());
    let second = p.read_command().unwrap().unwrap();
    assert_eq!(second, DeltaOp::Copy(0, 5));
    p.run_command(second, &mut buf).unwrap();
    let third = p.read_command().unwrap().unwrap();
    assert_eq!(third, DeltaOp::Insert(5));
    p.run_command(third, &mut buf).unwrap();
    assert_eq!(p.read_command(), Ok(None));
    assert_eq!(buf, b"HELLO hello!!!!!".to_vec());
}

#[test]
fn run_to_end_after_new() {
    let d = hello_delta(16);
    let mut p = DeltaPatcher::new(b"hello world", &d).unwrap();
    assert_eq!(p.run_to_end(), Ok(b"HELLO hello!!!!!".to_vec()));
    assert_eq!(p.read_command(), Ok(None));
    assert!(DeltaPatcher::new(b"hello", &d).is_err());
}

#[test]
fn full_copy_command() {
    let source: Vec<u8> = (0..300u32).map(|i| (i % 256) as u8).collect();
    let d = vec![0xac, 0x02, 0x04, 0xff, 0x02, 0x01, 0x00, 0x00, 0x03, 0x00, 0x00, 0x01, 0x09];
    assert_eq!(patch(&source, &d), Ok(vec![2, 3, 4, 9]));
}

#[test]
fn empty_stream_and_empty_target() {
    assert_eq!(patch(b"abc", &[3, 0]), Ok(vec![]));
    assert_eq!(patch(b"abc", &[3, 1]), Err(DeltaError::TargetLengthMismatch));
}
