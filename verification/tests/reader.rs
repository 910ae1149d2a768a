use fafreplay::reader::{FloatBits, Reader};
use fafreplay::{Malformation, ReplayReadError};

#[test]
fn read_u8_takes_one_byte() {
    let data = [0x7f, 0x80];
    let mut r = Reader::new(&data);
    assert_eq!(r.read_u8(), Ok(0x7f));
    assert_eq!(r.position(), 1);
    assert_eq!(r.read_u8(), Ok(0x80));
    assert_eq!(r.position(), 2);
    assert_eq!(r.read_u8(), Err(ReplayReadError::UnexpectedEof));
    assert_eq!(r.position(), 2);
}

#[test]
fn read_u16_is_little_endian() {
    let data = [0x34, 0x12, 0xff, 0xff];
    let mut r = Reader::new(&data);
    assert_eq!(r.read_u16(), Ok(0x1234));
    assert_eq!(r.read_u16(), Ok(0xffff));
    assert_eq!(r.position(), 4);
}

#[test]
fn read_u32_is_little_endian() {
    let data = [0x78, 0x56, 0x34, 0x12, 0xff, 0xff, 0xff, 0xff];
    let mut r = Reader::new(&data);
    assert_eq!(r.read_u32(), Ok(0x1234_5678));
    assert_eq!(r.read_u32(), Ok(u32::MAX));
}

#[test]
fn read_u64_is_little_endian() {
    let data = [0xef, 0xcd, 0xab, 0x89, 0x67, 0x45, 0x23, 0x01];
    let mut r = Reader::new(&data);
    assert_eq!(r.read_u64(), Ok(0x0123_4567_89ab_cdef));
    let data = [0xff; 8];
    let mut r = Reader::new(&data);
    assert_eq!(r.read_u64(), Ok(u64::MAX));
}

#[test]
fn read_signed_values_are_twos_complement() {
    let data = [0xff, 0x80, 0x7f, 0x00];
    let mut r = Reader::new(&data);
    assert_eq!(r.read_i8(), Ok(-1));
    assert_eq!(r.read_i8(), Ok(-128));
    assert_eq!(r.read_i8(), Ok(127));
    assert_eq!(r.read_i8(), Ok(0));

    let data = [0xfe, 0xff, 0x00, 0x80, 0xff, 0x7f];
    let mut r = Reader::new(&data);
    assert_eq!(r.read_i16(), Ok(-2));
    assert_eq!(r.read_i16(), Ok(i16::MIN));
    assert_eq!(r.read_i16(), Ok(i16::MAX));

    let data = [0xff, 0xff, 0xff, 0xff, 0x00, 0x00, 0x00, 0x80, 0xff, 0xff, 0xff, 0x7f];
    let mut r = Reader::new(&data);
    assert_eq!(r.read_i32(), Ok(-1));
    assert_eq!(r.read_i32(), Ok(i32::MIN));
    assert_eq!(r.read_i32(), Ok(i32::MAX));
}

#[test]
fn read_f32_keeps_the_bit_pattern() {
    let data = 1.5f32.to_le_bytes();
    let mut r = Reader::new(&data);
    let v = r.read_f32().unwrap();
    assert_eq!(v, FloatBits { bits: 0x3fc0_0000 });
    assert_eq!(f32::from_bits(v.bits), 1.5);
}

#[test]
fn read_bool_is_true_for_one_only() {
    let data = [0, 1, 2];
    let mut r = Reader::new(&data);
    assert_eq!(r.read_bool(), Ok(false));
    assert_eq!(r.read_bool(), Ok(true));
    assert_eq!(r.read_bool(), Ok(false));
}

#[test]
fn fixed_width_reads_fail_at_the_end_and_stay() {
    let data = [1, 2, 3];
    let mut r = Reader::new(&data);
    assert_eq!(r.read_u32(), Err(ReplayReadError::UnexpectedEof));
    assert_eq!(r.position(), 0);
    assert_eq!(r.read_u64(), Err(ReplayReadError::UnexpectedEof));
    assert_eq!(r.read_f32(), Err(ReplayReadError::UnexpectedEof));
    assert_eq!(r.read_u16(), Ok(0x0201));
    assert_eq!(r.read_u16(), Err(ReplayReadError::UnexpectedEof));
    assert_eq!(r.position(), 2);
    assert_eq!(r.remaining(), 1);
}

#[test]
fn read_cstring_stops_at_the_zero() {
    let data = b"hello\0world\0";
    let mut r = Reader::new(data);
    assert_eq!(r.read_cstring(), Ok("hello".to_string()));
    assert_eq!(r.position(), 6);
    assert_eq!(r.read_cstring_bytes(), Ok(b"world".to_vec()));
    assert_eq!(r.position(), 12);
    assert_eq!(r.read_cstring(), Err(ReplayReadError::UnexpectedEof));
}

#[test]
fn read_cstring_decodes_utf8() {
    let data = "h\u{e9}llo \u{4e16}\u{754c} \u{1f600}\0".as_bytes();
    let mut r = Reader::new(data);
    let text = r.read_cstring().unwrap();
    assert_eq!(text, "h\u{e9}llo \u{4e16}\u{754c} \u{1f600}");
    assert_eq!(text.chars().count(), 10);
    assert_eq!(r.position(), data.len());
}

#[test]
fn read_cstring_of_empty_text() {
    let data = [0u8, 7];
    let mut r = Reader::new(&data);
    assert_eq!(r.read_cstring(), Ok(String::new()));
    assert_eq!(r.position(), 1);
}

#[test]
fn read_cstring_rejects_bad_utf8_and_keeps_the_bytes() {
    let data = [b'a', 0xff, 0xfe, 0, b'b', 0];
    let mut r = Reader::new(&data);
    assert_eq!(
        r.read_cstring(),
        Err(ReplayReadError::MalformedUtf8(vec![b'a', 0xff, 0xfe], 1))
    );
    assert_eq!(r.position(), 0);
    assert_eq!(r.read_cstring_bytes(), Ok(vec![b'a', 0xff, 0xfe]));
    assert_eq!(r.read_cstring(), Ok("b".to_string()));
}

#[test]
fn read_cstring_without_terminator_fails() {
    let data = b"abc";
    let mut r = Reader::new(data);
    assert_eq!(r.read_cstring_bytes(), Err(ReplayReadError::UnexpectedEof));
    assert_eq!(r.position(), 0);
}

#[test]
fn read_length_prefixed_string_reads_count_then_bytes() {
    let data = [3, 0, 0, 0, b'a', 0, b'c', 9];
    let mut r = Reader::new(&data);
    assert_eq!(r.read_length_prefixed_string(), Ok(vec![b'a', 0, b'c']));
    assert_eq!(r.position(), 7);
    let data = [0, 0, 0, 0];
    let mut r = Reader::new(&data);
    assert_eq!(r.read_length_prefixed_string(), Ok(vec![]));
}

#[test]
fn read_length_prefixed_string_fails_when_short() {
    let data = [4, 0, 0, 0, 1, 2, 3];
    let mut r = Reader::new(&data);
    assert_eq!(r.read_length_prefixed_string(), Err(ReplayReadError::UnexpectedEof));
    assert_eq!(r.position(), 0);
    let data = [0xff, 0xff, 0xff, 0xff, 1];
    let mut r = Reader::new(&data);
    assert_eq!(r.read_length_prefixed_string(), Err(ReplayReadError::UnexpectedEof));
    let data = [4, 0, 0];
    let mut r = Reader::new(&data);
    assert_eq!(r.read_length_prefixed_string(), Err(ReplayReadError::UnexpectedEof));
}

#[test]
fn read_bytes_and_skip() {
    let data = [1, 2, 3, 4, 5];
    let mut r = Reader::new(&data);
    assert_eq!(r.skip(2), Ok(()));
    assert_eq!(r.read_bytes(2), Ok(vec![3, 4]));
    assert_eq!(r.read_bytes(2), Err(ReplayReadError::UnexpectedEof));
    assert_eq!(r.skip(2), Err(ReplayReadError::UnexpectedEof));
    assert_eq!(r.position(), 4);
    assert_eq!(r.read_bytes(0), Ok(vec![]));
    assert_eq!(r.skip(1), Ok(()));
    assert_eq!(r.remaining(), 0);
    assert_eq!(r.take(usize::MAX).map(|b| b.len()), Err(ReplayReadError::UnexpectedEof));
}

#[test]
fn malformation_messages() {
    assert_eq!(Malformation::UnknownCommandTag.message(), "unknown command tag");
    assert_eq!(Malformation::SizeMismatch.message(), "command size mismatch");
    assert_eq!(Malformation::UnknownValueTag.message(), "unknown value tag");
    assert_eq!(
        Malformation::UnexpectedTableEnd.message(),
        "table end marker outside a table"
    );
    assert_eq!(Malformation::DepthExceeded.message(), "tables nested too deeply");
    assert_eq!(
        Malformation::MissingSeparator.message(),
        "missing separator before replay version"
    );
    assert_eq!(Malformation::UnknownTargetKind.message(), "unknown target kind");
    assert_eq!(Malformation::TickOverflow.message(), "tick counter overflow");
}

#[test]
fn bad_utf8_reports_how_far_the_text_is_valid() {
    // Two bytes of a three-byte character, then the terminator.
    let data = [b'o', b'k', 0xe4, 0xb8, 0];
    let mut r = Reader::new(&data);
    assert_eq!(
        r.read_cstring(),
        Err(ReplayReadError::MalformedUtf8(vec![b'o', b'k', 0xe4, 0xb8], 2))
    );
    // A character that is whole, then a stray continuation byte.
    let data = [0xc3, 0xa9, 0x80, b'x', 0];
    let mut r = Reader::new(&data);
    assert_eq!(
        r.read_cstring(),
        Err(ReplayReadError::MalformedUtf8(vec![0xc3, 0xa9, 0x80, b'x'], 2))
    );
}
