use git_rs::blob::Blob;
use git_rs::codec::ParseError;
use git_rs::object::Object;
use git_rs::perms::Perms;
use git_rs::stream::{ReadError, Readable, StoreError, Writeable};
use git_rs::tree::{Tree, TreeEntry};
use git_rs::zlib::{compress, decompress, read_inflated, write_compressed, zlib_read, ZlibWriter};

fn some_tree() -> Tree {
    let h = git_rs::hash::Hash::from_bytes(b"x");
    Tree::new(vec![TreeEntry::new(Perms::RegularFile, b"x".to_vec(), h)])
}

#[test]
fn blob_object_hash_is_the_digest_of_its_encoding() {
    let object = Object::new_blob(b"this is a test!\n".to_vec());
    assert_eq!(object.encode(), b"blob 16\0this is a test!\n".to_vec());
    assert_eq!(object.hash().to_hex(), "443aa835bd3a231d1332d1dbc72a014ab29ec0b2");
}

#[test]
fn checked_hash_is_the_hash_where_it_fits() {
    let object = Object::new_blob(b"hello world\n".to_vec());
    assert_eq!(
        object.checked_hash().expect("a small object").to_hex(),
        "3b18e512dba79e4c8300dd08aeb37f8e728b8dad"
    );
}

#[test]
fn hash_object() {
    let object = Object::new_blob(b"hello world\n".to_vec());
    assert_eq!(object.hash().to_hex(), "3b18e512dba79e4c8300dd08aeb37f8e728b8dad");
}

#[test]
fn empty_objects_have_the_well_known_hashes() {
    assert_eq!(
        Object::new_blob(Vec::new()).hash().to_hex(),
        "e69de29bb2d1d6434b8b29ae775ad8c2e48c5391"
    );
    assert_eq!(
        Object::Tree(Tree::new(Vec::new())).hash().to_hex(),
        "4b825dc642cb6eb9a060e54bf8d69288fbee4904"
    );
}

#[test]
fn non_text_content_is_hashed_byte_for_byte() {
    let content = vec![0xffu8, 0x00, 0x80];
    let object = Object::new_blob(content.clone());
    let mut encoding = b"blob 3\0".to_vec();
    encoding.extend_from_slice(&content);
    assert_eq!(object.encode(), encoding);
    assert_eq!(
        object.hash().as_bytes(),
        git_rs::hash::Hash::from_bytes(&encoding).as_bytes()
    );
}

#[test]
fn free_hash_is_the_hash_of_what_is_written() {
    let blob = Blob::new(b"hello world\n".to_vec());
    assert_eq!(
        git_rs::object::hash(&blob).to_hex(),
        "3b18e512dba79e4c8300dd08aeb37f8e728b8dad"
    );
    let tree = some_tree();
    let object = Object::Tree(tree.clone());
    assert_eq!(git_rs::object::hash(&tree).as_bytes(), object.hash().as_bytes());
}

#[test]
fn object_decodes_by_keyword() {
    match Object::try_from(b"blob 2\0hi").unwrap() {
        Object::Blob(blob) => assert_eq!(blob.content(), b"hi"),
        Object::Tree(_) => panic!("a blob was encoded"),
    }
    let bytes = Object::Tree(some_tree()).encode();
    match Object::try_from(&bytes).unwrap() {
        Object::Tree(tree) => assert_eq!(tree.entries().len(), 1),
        Object::Blob(_) => panic!("a tree was encoded"),
    }
}

#[test]
fn object_round_trip() {
    for object in [Object::new_blob(b"a\0b".to_vec()), Object::Tree(some_tree())] {
        let bytes = object.encode();
        let back = Object::try_from(&bytes).unwrap();
        assert_eq!(back.encode(), bytes);
        assert_eq!(back.hash().as_bytes(), object.hash().as_bytes());
    }
}

#[test]
fn object_decode_errors() {
    assert_eq!(Object::try_from(b"").unwrap_err(), ParseError::FormatError);
    assert_eq!(Object::try_from(b"commit 0\0").unwrap_err(), ParseError::FormatError);
    assert_eq!(Object::try_from(b"blob 1\0ab").unwrap_err(), ParseError::LengthMismatch);
    assert_eq!(Object::try_from(b"tree 0\0a").unwrap_err(), ParseError::LengthMismatch);
    assert_eq!(Object::try_from(b"blob 3\0ab").unwrap_err(), ParseError::FormatError);
    assert!(matches!(
        Object::read(b"blob 1\0ab"),
        Err(ReadError::ParseError(ParseError::LengthMismatch))
    ));
}

#[test]
fn compress_then_decompress_gives_the_input() {
    let inputs: [&[u8]; 3] = [b"", b"blob 16\0this is a test!\n", &[7u8; 5000]];
    for input in inputs {
        let stream = compress(input).unwrap();
        assert_eq!(decompress(&stream).unwrap(), input.to_vec());
    }
}

#[test]
fn compress_makes_a_zlib_stream() {
    let input = b"blob 16\0this is a test!\n";
    let stream = compress(input).unwrap();
    assert_ne!(stream, input.to_vec());
    assert_eq!(stream[0], 0x78);
    let long = [b'a'; 4096];
    assert!(compress(&long).unwrap().len() < 100);
}

#[test]
fn decompress_undoes_a_stream_made_elsewhere() {
    // the zlib stream of "hello", as any zlib makes it at its default level
    let stream = [
        0x78u8, 0x9c, 0xcb, 0x48, 0xcd, 0xc9, 0xc9, 0x07, 0x00, 0x06, 0x2c, 0x02, 0x15,
    ];
    assert_eq!(decompress(&stream).unwrap(), b"hello".to_vec());
}

#[test]
fn decompress_refuses_what_is_no_stream() {
    assert_eq!(decompress(b"").unwrap_err(), StoreError::CorruptObject);
    assert_eq!(decompress(b"this is no stream").unwrap_err(), StoreError::CorruptObject);
    let mut cut = compress(b"some content that is long enough").unwrap();
    cut.truncate(cut.len() / 2);
    assert_eq!(decompress(&cut).unwrap_err(), StoreError::CorruptObject);
}

#[test]
fn zlib_read_decompresses_and_decodes() {
    let stream = compress(b"blob 2\0hi").unwrap();
    let blob: Blob = zlib_read(&stream).unwrap();
    assert_eq!(blob.content(), b"hi");
    let tree_stream = compress(&Object::Tree(some_tree()).encode()).unwrap();
    let tree: Tree = zlib_read(&tree_stream).unwrap();
    assert_eq!(tree.entries().len(), 1);
}

#[test]
fn zlib_read_tells_corrupt_from_malformed() {
    assert!(matches!(
        zlib_read::<Blob>(b"junk"),
        Err(ReadError::IoError(StoreError::CorruptObject))
    ));
    let stream = compress(b"blob 2\0hi!").unwrap();
    assert!(matches!(
        zlib_read::<Blob>(&stream),
        Err(ReadError::ParseError(ParseError::LengthMismatch))
    ));
    let stream = compress(b"tree 0\0").unwrap();
    assert!(matches!(
        zlib_read::<Blob>(&stream),
        Err(ReadError::ParseError(ParseError::FormatError))
    ));
}

#[test]
fn read_inflated_handles_both_outcomes() {
    assert!(matches!(
        read_inflated::<Blob>(None),
        Err(ReadError::IoError(StoreError::CorruptObject))
    ));
    let blob: Blob = read_inflated(Some(b"blob 1\0x".to_vec())).unwrap();
    assert_eq!(blob.content(), b"x");
    assert!(matches!(
        read_inflated::<Tree>(Some(b"blob 1\0x".to_vec())),
        Err(ReadError::ParseError(ParseError::FormatError))
    ));
}

#[test]
fn write_compressed_appends_or_fails() {
    let mut out = b"ab".to_vec();
    assert_eq!(write_compressed(&mut out, Some(b"cd".to_vec())), Ok(()));
    assert_eq!(out, b"abcd".to_vec());
    assert_eq!(write_compressed(&mut out, None), Err(StoreError::IoFailure));
    assert_eq!(out, b"abcd".to_vec());
}

#[test]
fn zlib_writer_writes_the_compressed_encoding() {
    let object = Object::new_blob(b"this is a test!\n".to_vec());
    let encoding = object.encode();
    let writer = ZlibWriter::new(&object);
    let mut out = b"head".to_vec();
    writer.fmt(&mut out).unwrap();
    assert_eq!(&out[..4], b"head");
    assert_eq!(out[4..].to_vec(), compress(&encoding).unwrap());
    assert_eq!(decompress(&out[4..]).unwrap(), encoding);
}

#[test]
fn cat_file() {
    // what is stored under 44/3aa835bd3a231d1332d1dbc72a014ab29ec0b2
    let object = Object::new_blob(b"this is a test!\n".to_vec());
    assert_eq!(object.hash().object_path(), "44/3aa835bd3a231d1332d1dbc72a014ab29ec0b2");
    let mut stored = Vec::new();
    ZlibWriter::new(&object).fmt(&mut stored).unwrap();
    let blob: Blob = zlib_read(&stored).unwrap();
    assert_eq!(blob.content(), b"this is a test!\n");
}
