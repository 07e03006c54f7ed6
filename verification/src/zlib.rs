//! The compression that stored objects go through.

use crate::codec::write_bytes;
use crate::stream::{ReadError, Readable, StoreError, Writeable};
use flate2::read::ZlibDecoder;
use flate2::write::ZlibEncoder;
use flate2::Compression;
use std::io::{Read, Write};
use vstd::prelude::*;

verus! {

/// The zlib stream that `flate2` makes of a byte string at its default
/// level; `None` where the encoder reports an error.
pub uninterp spec fn zlib_deflated(data: Seq<u8>) -> Option<Seq<u8>>;

/// The bytes that `flate2` reads out of a zlib stream; `None` where the
/// decoder reports an error.
pub uninterp spec fn zlib_inflated(data: Seq<u8>) -> Option<Seq<u8>>;

/// Feeds `data` to a `flate2::write::ZlibEncoder` over an empty vector, made
/// with `Compression::default()`, through `write_all`, and takes the vector
/// back with `finish`. Trusted: what comes back depends on `data` alone, and
/// a stream that the encoder made decompresses to the bytes it was made of.
#[verifier::external_body]
fn deflate(data: &[u8]) -> (r: Option<Vec<u8>>)
    ensures
        match r {
            Some(v) => zlib_deflated(data@) == Some(v@) && zlib_inflated(v@) == Some(data@),
            None => zlib_deflated(data@) is None,
        },
{
    let mut encoder = ZlibEncoder::new(Vec::new(), Compression::default());
    match encoder.write_all(data) {
        Ok(()) => {},
        Err(_) => return None,
    }
    match encoder.finish() {
        Ok(v) => Some(v),
        Err(_) => None,
    }
}

/// Reads a `flate2::read::ZlibDecoder` over `data` to its end. Trusted: what
/// comes back depends on `data` alone.
#[verifier::external_body]
fn inflate(data: &[u8]) -> (r: Option<Vec<u8>>)
    ensures
        match r {
            Some(v) => zlib_inflated(data@) == Some(v@),
            None => zlib_inflated(data@) is None,
        },
{
    let mut out = Vec::new();
    match ZlibDecoder::new(data).read_to_end(&mut out) {
        Ok(_) => Some(out),
        Err(_) => None,
    }
}

/// The compressed form of what a value writes, if it writes anything.
pub open spec fn deflated_form(written: Option<Seq<u8>>) -> Option<Seq<u8>> {
    match written {
        Some(bytes) => zlib_deflated(bytes),
        None => None,
    }
}

/// What decoding gives after decompressing: a stream that did not
/// decompress is a corrupt object, and what did decompress is decoded.
pub open spec fn decoded_outcome<T: Readable>(inflated: Option<Seq<u8>>) -> Result<
    T::V,
    ReadError<T::Error>,
> {
    match inflated {
        None => Err(ReadError::IoError(StoreError::CorruptObject)),
        Some(bytes) => match T::decoded(bytes) {
            Ok(v) => Ok(v),
            Err(e) => Err(ReadError::ParseError(e)),
        },
    }
}

/// What a decompressor gave, as plain values.
pub open spec fn stream_view(stream: Option<Vec<u8>>) -> Option<Seq<u8>> {
    match stream {
        Some(v) => Some(v@),
        None => None,
    }
}

/// Appends a compressed stream to `f`, or reports that there is none.
pub fn write_compressed(f: &mut Vec<u8>, stream: Option<Vec<u8>>) -> (r: Result<(), StoreError>)
    ensures
        match stream {
            Some(v) => r is Ok && final(f)@ == old(f)@ + v@,
            None => r == Err::<(), StoreError>(StoreError::IoFailure) && final(f)@ == old(f)@,
        },
{
    match stream {
        Some(v) => {
            write_bytes(f, v.as_slice());
            Ok(())
        },
        None => Err(StoreError::IoFailure),
    }
}

/// Decodes what a decompressor gave, or reports that it gave nothing.
pub fn read_inflated<T: Readable>(inflated: Option<Vec<u8>>) -> (r: Result<
    T,
    ReadError<T::Error>,
>)
    ensures
        match r {
            Ok(x) => decoded_outcome::<T>(stream_view(inflated)) == Ok::<T::V, ReadError<T::Error>>(
                x@,
            ),
            Err(e) => decoded_outcome::<T>(stream_view(inflated)) == Err::<
                T::V,
                ReadError<T::Error>,
            >(e),
        },
{
    match inflated {
        None => Err(ReadError::IoError(StoreError::CorruptObject)),
        Some(v) => T::read(v.as_slice()),
    }
}

/// Compresses `data`.
pub fn compress(data: &[u8]) -> (r: Result<Vec<u8>, StoreError>)
    ensures
        match r {
            Ok(v) => zlib_deflated(data@) == Some(v@) && zlib_inflated(v@) == Some(data@),
            Err(e) => zlib_deflated(data@) is None && e == StoreError::IoFailure,
        },
{
    match deflate(data) {
        Some(v) => Ok(v),
        None => Err(StoreError::IoFailure),
    }
}

/// Decompresses `stored`.
pub fn decompress(stored: &[u8]) -> (r: Result<Vec<u8>, StoreError>)
    ensures
        match r {
            Ok(v) => zlib_inflated(stored@) == Some(v@),
            Err(e) => zlib_inflated(stored@) is None && e == StoreError::CorruptObject,
        },
{
    match inflate(stored) {
        Some(v) => Ok(v),
        None => Err(StoreError::CorruptObject),
    }
}

/// Decompresses `stored` and decodes what comes out.
pub fn zlib_read<T: Readable>(stored: &[u8]) -> (r: Result<T, ReadError<T::Error>>)
    ensures
        match r {
            Ok(x) => decoded_outcome::<T>(zlib_inflated(stored@)) == Ok::<
                T::V,
                ReadError<T::Error>,
            >(x@),
            Err(e) => decoded_outcome::<T>(zlib_inflated(stored@)) == Err::<
                T::V,
                ReadError<T::Error>,
            >(e),
        },
{
    read_inflated(inflate(stored))
}

/// A value that writes itself compressed.
pub struct ZlibWriter<T>(T);

impl<T> ZlibWriter<T> {
    /// What the writer wraps.
    pub closed spec fn inner(self) -> T {
        self.0
    }

    /// A writer that compresses what `x` writes.
    pub fn new(x: T) -> (w: Self)
        ensures
            w.inner() == x,
    {
        Self(x)
    }
}

impl<T: Writeable> Writeable for ZlibWriter<T> {
    open spec fn written(&self) -> Option<Seq<u8>> {
        deflated_form(self.inner().written())
    }

    fn fmt(&self, f: &mut Vec<u8>) -> (r: Result<(), StoreError>) {
        let mut plain: Vec<u8> = Vec::new();
        match self.0.fmt(&mut plain) {
            Err(_) => Err(StoreError::IoFailure),
            Ok(()) => {
                write_compressed(f, deflate(plain.as_slice()))
            },
        }
    }
}

} // verus!
