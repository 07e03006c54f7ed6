use git_rs::blob::Blob;
use git_rs::codec::{
    copy_bytes, framed_fits, read_frame, write_bytes, write_header, ParseError, BLOB_TAG, TREE_TAG,
};
use git_rs::hash::HASH_LIMIT;
use git_rs::numeral::{count_digits, digits_len, push_digits, read_digits};
use git_rs::stream::{ReadError, Readable, Writeable};

fn blob_bytes(blob: &Blob) -> Vec<u8> {
    let mut out = Vec::new();
    blob.fmt(&mut out).unwrap();
    out
}

#[test]
fn push_digits_writes_decimal() {
    let mut out = b"n=".to_vec();
    push_digits(&mut out, 0, 10);
    out.push(b',');
    push_digits(&mut out, 7, 10);
    out.push(b',');
    push_digits(&mut out, 1234567890, 10);
    out.push(b',');
    push_digits(&mut out, u64::MAX, 10);
    assert_eq!(out, b"n=0,7,1234567890,18446744073709551615".to_vec());
}

#[test]
fn push_digits_writes_octal() {
    let mut out = Vec::new();
    push_digits(&mut out, 0o100644, 8);
    out.push(b' ');
    push_digits(&mut out, 0o40000, 8);
    out.push(b' ');
    push_digits(&mut out, 8, 8);
    assert_eq!(out, b"100644 40000 10".to_vec());
}

#[test]
fn digits_len_counts_digits() {
    assert_eq!(digits_len(0, 10), 1);
    assert_eq!(digits_len(9, 10), 1);
    assert_eq!(digits_len(10, 10), 2);
    assert_eq!(digits_len(u64::MAX, 10), 20);
    assert_eq!(digits_len(0o100644, 8), 6);
    assert_eq!(digits_len(0o40000, 8), 5);
    assert_eq!(digits_len(u64::MAX, 2), 64);
}

#[test]
fn framed_fits_below_the_limit() {
    assert!(framed_fits(0));
    assert!(framed_fits(1 << 40));
    // 6 bytes of header around 19 digits and the body reach the limit
    assert!(framed_fits(HASH_LIMIT - 26));
    assert!(!framed_fits(HASH_LIMIT - 25));
    assert!(!framed_fits(HASH_LIMIT));
    assert!(!framed_fits(u64::MAX));
}

#[test]
fn count_digits_stops_at_the_first_other_byte() {
    assert_eq!(count_digits(b"123 45", 0, 10), 3);
    assert_eq!(count_digits(b"123 45", 4, 10), 2);
    assert_eq!(count_digits(b"123 45", 3, 10), 0);
    assert_eq!(count_digits(b"123", 3, 10), 0);
    assert_eq!(count_digits(b"1789", 0, 8), 2);
    assert_eq!(count_digits(b"", 0, 10), 0);
}

#[test]
fn read_digits_gives_the_value() {
    assert_eq!(read_digits(b"x0042y", 1, 5, 10), Some(42));
    assert_eq!(read_digits(b"100644", 0, 6, 8), Some(0o100644));
    assert_eq!(read_digits(b"", 0, 0, 10), Some(0));
    assert_eq!(read_digits(b"18446744073709551615", 0, 20, 10), Some(u64::MAX));
}

#[test]
fn read_digits_reports_what_does_not_fit() {
    assert_eq!(read_digits(b"18446744073709551616", 0, 20, 10), None);
    assert_eq!(read_digits(b"99999999999999999999999", 0, 23, 10), None);
}

#[test]
fn write_header_frames_the_length() {
    let mut out = Vec::new();
    write_header(&mut out, &BLOB_TAG, 16);
    assert_eq!(out, b"blob 16\0".to_vec());
    let mut out = Vec::new();
    write_header(&mut out, &TREE_TAG, 0);
    assert_eq!(out, b"tree 0\0".to_vec());
}

#[test]
fn write_bytes_appends() {
    let mut out = b"ab".to_vec();
    write_bytes(&mut out, b"cd\0e");
    assert_eq!(out, b"abcd\0e".to_vec());
    assert_eq!(copy_bytes(b"\0\x01\xff"), b"\0\x01\xff".to_vec());
}

#[test]
fn read_frame_finds_the_body() {
    assert_eq!(read_frame(&BLOB_TAG, b"blob 5\0hello"), Ok(7));
    assert_eq!(read_frame(&BLOB_TAG, b"blob 0\0"), Ok(7));
    assert_eq!(read_frame(&TREE_TAG, b"tree 12\0abcdefghijkl"), Ok(8));
}

#[test]
fn read_frame_refuses_a_malformed_header() {
    let bad: [&[u8]; 9] = [
        b"",
        b"blob",
        b"blob 5",
        b"blob 5hello",
        b"blob \0hello",
        b"blob x\0hello",
        b"blob  5\0hello",
        b"Blob 5\0hello",
        b"blob-5\0hello",
    ];
    for bytes in bad {
        assert_eq!(read_frame(&BLOB_TAG, bytes), Err(ParseError::FormatError));
    }
    assert_eq!(read_frame(&TREE_TAG, b"blob 5\0hello"), Err(ParseError::FormatError));
}

#[test]
fn read_frame_tells_short_from_long() {
    assert_eq!(read_frame(&BLOB_TAG, b"blob 6\0hello"), Err(ParseError::FormatError));
    assert_eq!(read_frame(&BLOB_TAG, b"blob 4\0hello"), Err(ParseError::LengthMismatch));
    assert_eq!(
        read_frame(&BLOB_TAG, b"blob 99999999999999999999999\0hello"),
        Err(ParseError::FormatError)
    );
}

#[test]
fn blob_encoding_is_header_and_content() {
    let blob = Blob::new(b"this is a test!\n".to_vec());
    assert_eq!(blob_bytes(&blob), b"blob 16\0this is a test!\n".to_vec());
    assert_eq!(blob_bytes(&Blob::new(Vec::new())), b"blob 0\0".to_vec());
}

#[test]
fn blob_round_trip() {
    let contents: [&[u8]; 5] =
        [b"", b"hello", b"\0\0\0", b"blob 3\0abc", &[0xff, 0x00, 0x80, 0x0a]];
    for content in contents {
        let blob = Blob::new(content.to_vec());
        let back = Blob::try_from(&blob_bytes(&blob)).expect("an encoded blob decodes");
        assert_eq!(back.content(), content);
    }
}

#[test]
fn blob_round_trip_of_every_byte() {
    let content: Vec<u8> = (0u8..=255).collect();
    let blob = Blob::new(content.clone());
    let bytes = blob_bytes(&blob);
    assert_eq!(&bytes[..9], b"blob 256\0");
    assert_eq!(Blob::try_from(&bytes).unwrap().content(), &content[..]);
}

#[test]
fn blob_decode_accepts_leading_zeros() {
    let blob = Blob::try_from(b"blob 005\0hello").unwrap();
    assert_eq!(blob.content(), b"hello");
}

#[test]
fn blob_with_trailing_byte_is_a_length_mismatch() {
    let mut bytes = blob_bytes(&Blob::new(b"hello".to_vec()));
    bytes.push(b'!');
    assert_eq!(Blob::try_from(&bytes).unwrap_err(), ParseError::LengthMismatch);
}

#[test]
fn blob_cut_short_is_a_format_error() {
    let mut bytes = blob_bytes(&Blob::new(b"hello".to_vec()));
    bytes.pop();
    assert_eq!(Blob::try_from(&bytes).unwrap_err(), ParseError::FormatError);
    assert_eq!(Blob::try_from(b"tree 0\0").unwrap_err(), ParseError::FormatError);
}

#[test]
fn blob_clone_keeps_the_content() {
    let blob = Blob::new(b"abc".to_vec());
    assert_eq!(blob.clone().content(), b"abc");
}

#[test]
fn blob_read_is_decode() {
    let blob = Blob::read(b"blob 2\0hi").unwrap();
    assert_eq!(blob.content(), b"hi");
    assert!(matches!(
        Blob::read(b"blob 2\0hi!"),
        Err(ReadError::ParseError(ParseError::LengthMismatch))
    ));
    assert!(matches!(
        Blob::read(b"blub"),
        Err(ReadError::ParseError(ParseError::FormatError))
    ));
}

#[test]
fn reference_writes_what_the_value_writes() {
    let blob = Blob::new(b"xy".to_vec());
    let mut direct = Vec::new();
    blob.fmt(&mut direct).unwrap();
    let mut through = Vec::new();
    let by_ref: &Blob = &blob;
    Writeable::fmt(&by_ref, &mut through).unwrap();
    assert_eq!(direct, through);
}
