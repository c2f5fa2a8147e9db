use decomp_toolkit::file::{file_format, read_c_string, read_string, FileFormat, ReadError};

#[test]
fn reads_sized_utf8_string() {
    let data = b"xxhello\xc3\xa9yy";
    assert_eq!(read_string(data, 2, 7).unwrap(), "hello\u{e9}");
    assert_eq!(read_string(data, 2, 7).unwrap().chars().count(), 6);
    assert_eq!(read_string(data, 0, 0).unwrap(), "");
}

#[test]
fn sized_string_past_end_fails() {
    assert_eq!(read_string(b"abc", 1, 3), Err(ReadError::UnexpectedEof));
    assert_eq!(read_string(b"abc", 4, 0), Err(ReadError::UnexpectedEof));
}

#[test]
fn sized_string_rejects_bad_utf8() {
    assert_eq!(read_string(b"a\xffb", 0, 3), Err(ReadError::InvalidUtf8));
}

#[test]
fn reads_zero_terminated_string() {
    let data = b"ab\0cd\xe9\0";
    assert_eq!(read_c_string(data, 0).unwrap(), "ab");
    assert_eq!(read_c_string(data, 3).unwrap(), "cd\u{e9}");
    assert_eq!(read_c_string(data, 2).unwrap(), "");
}

#[test]
fn unterminated_string_fails() {
    assert_eq!(read_c_string(b"abc", 0), Err(ReadError::UnexpectedEof));
    assert_eq!(read_c_string(b"abc", 9), Err(ReadError::UnexpectedEof));
}

#[test]
fn formats_by_magic() {
    assert_eq!(file_format(b"Yaz0\0\0\0\x10"), FileFormat::Yaz0);
    assert_eq!(file_format(b"RARC\0\0"), FileFormat::Rarc);
    assert_eq!(file_format(b"Yaz0"), FileFormat::Plain);
    assert_eq!(file_format(b"\x7fELF\x01"), FileFormat::Plain);
}
