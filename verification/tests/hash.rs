use git_rs::hash::HashError;
use git_rs::stream::Writeable;
use std::str::FromStr;

fn sample_raw() -> Vec<u8> {
    (0u8..20).map(|i| i.wrapping_mul(13).wrapping_add(7)).collect()
}

#[test]
fn from_raw_takes_twenty_bytes() {
    let raw = sample_raw();
    let hash = git_rs::hash::Hash::from_raw(&raw).expect("twenty bytes are a hash");
    assert_eq!(hash.as_bytes(), &raw[..]);
}

#[test]
fn from_raw_refuses_other_lengths() {
    assert!(git_rs::hash::Hash::from_raw(&[]).is_none());
    assert!(git_rs::hash::Hash::from_raw(&[0u8; 19]).is_none());
    assert!(git_rs::hash::Hash::from_raw(&[0u8; 21]).is_none());
}

#[test]
fn from_bytes_is_sha1() {
    assert_eq!(
        git_rs::hash::Hash::from_bytes(b"").to_hex(),
        "da39a3ee5e6b4b0d3255bfef95601890afd80709"
    );
    assert_eq!(
        git_rs::hash::Hash::from_bytes(b"hello world").to_hex(),
        "2aae6c35c94fcfb415dbe95f408b9ce91ee846ed"
    );
}

#[test]
fn from_bytes_does_not_hand_its_input_back() {
    let input = [0u8; 20];
    let hash = git_rs::hash::Hash::from_bytes(&input);
    assert_ne!(hash.as_bytes(), &input[..]);
    assert_eq!(hash.to_hex(), "6768033e216468247bd031a0a2d9876d79818f8f");
}

#[test]
fn equal_content_has_equal_hash() {
    let a = git_rs::hash::Hash::from_bytes(b"same content");
    let b = git_rs::hash::Hash::from_bytes(b"same content");
    let c = git_rs::hash::Hash::from_bytes(b"same content.");
    assert_eq!(a.as_bytes(), b.as_bytes());
    assert_ne!(a.as_bytes(), c.as_bytes());
}

#[test]
fn to_hex_is_lower_case_and_zero_padded() {
    let mut raw = [0u8; 20];
    raw[0] = 0x0a;
    raw[1] = 0xff;
    raw[19] = 0x01;
    let hash = git_rs::hash::Hash::from_raw(&raw).unwrap();
    assert_eq!(hash.to_hex(), "0aff000000000000000000000000000000000001");
    assert_eq!(hash.to_hex().len(), 40);
}

#[test]
fn parse_reads_what_to_hex_writes() {
    let hash = git_rs::hash::Hash::from_raw(&sample_raw()).unwrap();
    let back = git_rs::hash::Hash::parse(&hash.to_hex()).expect("hex of a hash parses");
    assert_eq!(back.as_bytes(), hash.as_bytes());
}

#[test]
fn parse_reads_each_digit() {
    let hash = git_rs::hash::Hash::parse("0123456789abcdef0123456789abcdef01234567").unwrap();
    assert_eq!(
        hash.as_bytes(),
        &[
            0x01, 0x23, 0x45, 0x67, 0x89, 0xab, 0xcd, 0xef, 0x01, 0x23, 0x45, 0x67, 0x89, 0xab,
            0xcd, 0xef, 0x01, 0x23, 0x45, 0x67
        ][..]
    );
}

#[test]
fn parse_refuses_the_empty_text() {
    assert_eq!(git_rs::hash::Hash::parse("").unwrap_err(), HashError::WrongLength);
}

#[test]
fn parse_refuses_other_lengths() {
    let short = "0".repeat(39);
    let long = "0".repeat(41);
    assert_eq!(git_rs::hash::Hash::parse(&short).unwrap_err(), HashError::WrongLength);
    assert_eq!(git_rs::hash::Hash::parse(&long).unwrap_err(), HashError::WrongLength);
    assert_eq!(git_rs::hash::Hash::parse("zz").unwrap_err(), HashError::WrongLength);
}

#[test]
fn parse_names_the_first_bad_character() {
    let text = format!("zz{}", "0".repeat(38));
    assert_eq!(
        git_rs::hash::Hash::parse(&text).unwrap_err(),
        HashError::UnexpectedChar('z')
    );
    let later = format!("{}g{}x", "0".repeat(10), "0".repeat(28));
    assert_eq!(
        git_rs::hash::Hash::parse(&later).unwrap_err(),
        HashError::UnexpectedChar('g')
    );
}

#[test]
fn parse_refuses_upper_case() {
    let text = format!("{}A", "0".repeat(39));
    assert_eq!(
        git_rs::hash::Hash::parse(&text).unwrap_err(),
        HashError::UnexpectedChar('A')
    );
}

#[test]
fn parse_counts_length_in_bytes() {
    // twenty characters of two bytes each: forty bytes, none of them a hex digit
    let wide = "é".repeat(20);
    assert_eq!(wide.len(), 40);
    assert_eq!(
        git_rs::hash::Hash::parse(&wide).unwrap_err(),
        HashError::UnexpectedChar('é')
    );
    // forty characters, more than forty bytes
    let longer = format!("{}é", "0".repeat(39));
    assert_eq!(git_rs::hash::Hash::parse(&longer).unwrap_err(), HashError::WrongLength);
}

#[test]
fn from_str_is_parse() {
    let text = "443aa835bd3a231d1332d1dbc72a014ab29ec0b2";
    let hash = git_rs::hash::Hash::from_str(text).unwrap();
    assert_eq!(hash.to_hex(), text);
    let parsed: git_rs::hash::Hash = text.parse().unwrap();
    assert_eq!(parsed.as_bytes(), hash.as_bytes());
    assert!("nope".parse::<git_rs::hash::Hash>().is_err());
}

#[test]
fn object_path_splits_after_two_digits() {
    let hash = git_rs::hash::Hash::parse("443aa835bd3a231d1332d1dbc72a014ab29ec0b2").unwrap();
    assert_eq!(hash.object_path(), "44/3aa835bd3a231d1332d1dbc72a014ab29ec0b2");
    assert_eq!(hash.dir(), "44");
    let (prefix, suffix) = hash.storage_address();
    assert_eq!(prefix, "44");
    assert_eq!(suffix, "3aa835bd3a231d1332d1dbc72a014ab29ec0b2");
    assert_eq!(suffix.len(), 38);
}

#[test]
fn hash_writes_its_raw_bytes() {
    let hash = git_rs::hash::Hash::from_raw(&sample_raw()).unwrap();
    let mut out = vec![9u8];
    hash.fmt(&mut out).unwrap();
    let mut want = vec![9u8];
    want.extend_from_slice(&sample_raw());
    assert_eq!(out, want);
}

#[test]
fn checked_from_writable_hashes_what_can_be_hashed() {
    let blob = git_rs::blob::Blob::new(b"hello world\n".to_vec());
    let hash = git_rs::hash::Hash::checked_from_writable(&blob).expect("a small blob");
    assert_eq!(hash.to_hex(), "3b18e512dba79e4c8300dd08aeb37f8e728b8dad");
    let compressed = git_rs::zlib::ZlibWriter::new(&blob);
    let stream = git_rs::zlib::compress(b"blob 12\0hello world\n").unwrap();
    assert_eq!(
        git_rs::hash::Hash::checked_from_writable(compressed)
            .expect("a small stream")
            .as_bytes(),
        git_rs::hash::Hash::from_bytes(&stream).as_bytes()
    );
}

#[test]
fn from_writable_hashes_the_encoding() {
    let blob = git_rs::blob::Blob::new(b"this is a test!\n".to_vec());
    let hash = git_rs::hash::Hash::from_writable(&blob);
    assert_eq!(hash.to_hex(), "443aa835bd3a231d1332d1dbc72a014ab29ec0b2");
}
