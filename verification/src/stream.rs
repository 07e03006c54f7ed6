//! Writing values to bytes and reading them back, and how that can fail.

use vstd::prelude::*;

verus! {

/// Why an operation on stored objects failed.
#[derive(Debug, Clone, Copy, PartialEq, Eq, Structural)]
pub enum StoreError {
    /// No object is stored under the hash.
    NotFound,
    /// What is stored under the hash cannot be decompressed.
    CorruptObject,
    /// The storage, or the compressor, reported a failure of its own.
    IoFailure,
}

/// Why an object could not be read.
#[derive(Debug)]
pub enum ReadError<E> {
    /// The bytes could not be had.
    IoError(StoreError),
    /// The bytes were had, and are not the encoding of the object.
    ParseError(E),
}

/// A value with a byte form that can be appended to a buffer.
pub trait Writeable {
    /// The bytes that `fmt` appends; `None` where the value cannot be written.
    spec fn written(&self) -> Option<Seq<u8>>;

    /// Appends the byte form of the value to `f`. Where there is none, `f` is
    /// left as it was.
    fn fmt(&self, f: &mut Vec<u8>) -> (r: Result<(), StoreError>)
        ensures
            match self.written() {
                Some(bytes) => r is Ok && final(f)@ == old(f)@ + bytes,
                None => r == Err::<(), StoreError>(StoreError::IoFailure) && final(f)@ == old(f)@,
            },
    ;
}

impl<T: Writeable> Writeable for &T {
    open spec fn written(&self) -> Option<Seq<u8>> {
        (**self).written()
    }

    fn fmt(&self, f: &mut Vec<u8>) -> (r: Result<(), StoreError>) {
        (*self).fmt(f)
    }
}

/// A value that can be read from its byte form.
pub trait Readable: Sized + View {
    /// Why bytes may fail to be a value of this type.
    type Error;

    /// What the bytes stand for.
    spec fn decoded(bytes: Seq<u8>) -> Result<Self::V, Self::Error>;

    /// Reads a value from all of `r`. Bytes that are at hand cannot fail to
    /// be had, so the only failure is that they do not decode.
    fn read(r: &[u8]) -> (res: Result<Self, ReadError<Self::Error>>)
        ensures
            match res {
                Ok(x) => Self::decoded(r@) == Ok::<Self::V, Self::Error>(x@),
                Err(e) => e matches ReadError::ParseError(why) && Self::decoded(r@) == Err::<
                    Self::V,
                    Self::Error,
                >(why),
            },
    ;
}

} // verus!
