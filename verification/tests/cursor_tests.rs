use d2fileformats::cursor::ByteCursor;
use d2fileformats::error::FormatError;
use d2fileformats::read_string::ReadString;

#[test]
fn integers_are_read_least_significant_byte_first() {
    let bytes = [0x01u8, 0x02, 0x03, 0x04, 0x05, 0x06, 0xFE, 0xFF, 0xFF, 0xFF, 0x80, 0x00, 0x80];
    let mut cur = ByteCursor::new(&bytes);
    assert_eq!(cur.read_u32(), Ok(0x0403_0201));
    assert_eq!(cur.position(), 4);
    assert_eq!(cur.read_u16(), Ok(0x0605));
    assert_eq!(cur.read_i32(), Ok(-2));
    assert_eq!(cur.read_u8(), Ok(0x80));
    assert_eq!(cur.read_i16(), Ok(-32768));
    assert!(cur.is_at_end());
    assert_eq!(cur.remaining(), 0);
    assert_eq!(cur.len(), 13);
}

#[test]
fn signed_values_at_their_bounds() {
    let bytes = [0xFFu8, 0x7F, 0xFF, 0xFF, 0xFF, 0xFF, 0xFF, 0x7F, 0x00, 0x00, 0x00, 0x80];
    let mut cur = ByteCursor::new(&bytes);
    assert_eq!(cur.read_i16(), Ok(i16::MAX));
    assert_eq!(cur.read_i16(), Ok(-1));
    assert_eq!(cur.read_i32(), Ok(i32::MAX));
    assert_eq!(cur.read_i32(), Ok(i32::MIN));
    cur.seek(0).unwrap();
    assert_eq!(cur.read_u16(), Ok(0x7FFF));
    assert_eq!(cur.read_u16(), Ok(0xFFFF));
    assert_eq!(cur.read_u32(), Ok(0x7FFF_FFFF));
    assert_eq!(cur.read_u32(), Ok(0x8000_0000));
}

#[test]
fn failed_reads_leave_the_cursor_in_place() {
    let bytes = [1u8, 2, 3];
    let mut cur = ByteCursor::new(&bytes);
    assert_eq!(cur.read_u32(), Err(FormatError::Truncated));
    assert_eq!(cur.read_i32(), Err(FormatError::Truncated));
    assert_eq!(cur.position(), 0);
    assert_eq!(cur.read_u16(), Ok(0x0201));
    assert_eq!(cur.read_u16(), Err(FormatError::Truncated));
    assert_eq!(cur.read_i16(), Err(FormatError::Truncated));
    assert_eq!(cur.position(), 2);
    assert_eq!(cur.read_u8(), Ok(3));
    assert_eq!(cur.read_u8(), Err(FormatError::Truncated));
    assert_eq!(cur.position(), 3);
}

#[test]
fn skip_and_seek_stay_inside_the_buffer() {
    let bytes = [0u8; 10];
    let mut cur = ByteCursor::new(&bytes);
    assert_eq!(cur.skip(4), Ok(()));
    assert_eq!(cur.position(), 4);
    assert_eq!(cur.remaining(), 6);
    assert_eq!(cur.skip(7), Err(FormatError::Truncated));
    assert_eq!(cur.position(), 4);
    assert_eq!(cur.skip(6), Ok(()));
    assert!(cur.is_at_end());
    assert_eq!(cur.skip(0), Ok(()));
    assert_eq!(cur.seek(11), Err(FormatError::Truncated));
    assert_eq!(cur.position(), 10);
    assert_eq!(cur.seek(10), Ok(()));
    assert_eq!(cur.seek(3), Ok(()));
    assert_eq!(cur.position(), 3);
    assert!(!cur.is_at_end());
    assert_eq!(cur.skip(usize::MAX), Err(FormatError::Truncated));
}

#[test]
fn zero_terminated_strings() {
    let bytes = b"abc\0\0de";
    let mut cur = ByteCursor::new(bytes);
    assert_eq!(cur.read_zstring(), Ok("abc".to_string()));
    assert_eq!(cur.position(), 4);
    assert_eq!(cur.read_zstring(), Ok(String::new()));
    assert_eq!(cur.position(), 5);
    assert_eq!(cur.read_zstring(), Err(FormatError::Truncated));
    assert_eq!(cur.position(), 5);
    cur.seek(7).unwrap();
    assert_eq!(cur.read_zstring(), Err(FormatError::Truncated));
}

#[test]
fn byte_runs() {
    let bytes = [9u8, 8, 7, 6, 5];
    let mut cur = ByteCursor::new(&bytes);
    assert_eq!(cur.read_bytes(2), Ok(vec![9, 8]));
    assert_eq!(cur.read_bytes(0), Ok(vec![]));
    assert_eq!(cur.read_bytes(4), Err(FormatError::Truncated));
    assert_eq!(cur.position(), 2);
    assert_eq!(cur.read_bytes(3), Ok(vec![7, 6, 5]));
    assert_eq!(cur.read_bytes(0), Ok(vec![]));
    assert_eq!(cur.read_bytes(1), Err(FormatError::Truncated));
}
