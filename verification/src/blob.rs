//! Blobs: byte content with no structure of its own.

use crate::codec::{
    copy_bytes, framed, lemma_trailing_bytes, lemma_unframed_framed, read_frame, unframed,
    write_bytes, write_header, ParseError, BLOB_TAG,
};
use crate::stream::{ReadError, Readable, StoreError, Writeable};
use vstd::prelude::*;
use vstd::slice::slice_subrange;

verus! {

/// The canonical bytes of a blob with the given content.
pub open spec fn blob_encoding(content: Seq<u8>) -> Seq<u8> {
    framed(BLOB_TAG@, content)
}

/// The content of the blob that `bytes` encode.
pub open spec fn decode_blob(bytes: Seq<u8>) -> Result<Seq<u8>, ParseError> {
    unframed(BLOB_TAG@, bytes)
}

/// Decoding the encoding of a blob gives its content back, whatever bytes the
/// content holds.
pub proof fn lemma_blob_round_trip(content: Seq<u8>)
    ensures
        decode_blob(blob_encoding(content)) == Ok::<Seq<u8>, ParseError>(content),
{
    lemma_unframed_framed(BLOB_TAG@, content);
}

/// The encoding of a blob with anything behind it is refused as a length
/// mismatch.
pub proof fn lemma_blob_trailing_bytes(content: Seq<u8>, tail: Seq<u8>)
    requires
        tail.len() > 0,
    ensures
        decode_blob(blob_encoding(content) + tail) == Err::<Seq<u8>, ParseError>(
            ParseError::LengthMismatch,
        ),
{
    lemma_trailing_bytes(BLOB_TAG@, content, tail);
}

/// Blobs with the same encoding have the same content.
pub proof fn lemma_blob_encoding_injective(a: Seq<u8>, b: Seq<u8>)
    requires
        blob_encoding(a) == blob_encoding(b),
    ensures
        a == b,
{
    lemma_blob_round_trip(a);
    lemma_blob_round_trip(b);
}

/// An object that holds bytes and nothing else.
#[derive(Debug)]
pub struct Blob {
    content: Vec<u8>,
}

impl Clone for Blob {
    fn clone(&self) -> (copy: Self)
        ensures
            copy@ == self@,
    {
        Blob { content: copy_bytes(self.content.as_slice()) }
    }
}

impl View for Blob {
    type V = Seq<u8>;

    /// The content of the blob.
    closed spec fn view(&self) -> Seq<u8> {
        self.content@
    }
}

impl Blob {
    /// The blob with the given content.
    pub fn new(content: Vec<u8>) -> (blob: Self)
        ensures
            blob@ == content@,
    {
        Self { content }
    }

    /// The content of the blob.
    pub fn content(&self) -> (content: &[u8])
        ensures
            content@ == self@,
    {
        self.content.as_slice()
    }

    /// Reads a blob from its canonical bytes.
    pub fn try_from(value: &[u8]) -> (r: Result<Self, ParseError>)
        ensures
            match r {
                Ok(blob) => decode_blob(value@) == Ok::<Seq<u8>, ParseError>(blob@),
                Err(e) => decode_blob(value@) == Err::<Seq<u8>, ParseError>(e),
            },
    {
        match read_frame(&BLOB_TAG, value) {
            Err(e) => Err(e),
            Ok(start) => {
                let content = copy_bytes(slice_subrange(value, start, value.len()));
                Ok(Blob { content })
            },
        }
    }
}

impl Writeable for Blob {
    open spec fn written(&self) -> Option<Seq<u8>> {
        Some(blob_encoding(self@))
    }

    fn fmt(&self, f: &mut Vec<u8>) -> (r: Result<(), StoreError>) {
        write_header(f, &BLOB_TAG, self.content.len());
        write_bytes(f, self.content.as_slice());
        Ok(())
    }
}

impl Readable for Blob {
    type Error = ParseError;

    open spec fn decoded(bytes: Seq<u8>) -> Result<Seq<u8>, ParseError> {
        decode_blob(bytes)
    }

    fn read(r: &[u8]) -> (res: Result<Self, ReadError<ParseError>>) {
        match Blob::try_from(r) {
            Ok(blob) => Ok(blob),
            Err(e) => Err(ReadError::ParseError(e)),
        }
    }
}

} // verus!
