//! Objects: the two kinds of thing the store holds, and their hashes.

use crate::blob::{blob_encoding, decode_blob, lemma_blob_round_trip, Blob};
use crate::codec::{ParseError, BLOB_TAG};
use crate::hash::{hashable, sha1_digest, HASH_LIMIT};
use crate::stream::{ReadError, Readable, StoreError, Writeable};
use crate::tree::{
    all_well_formed, decode_tree, lemma_tree_round_trip, tree_encoding, EntryView, Tree,
};
use vstd::prelude::*;

verus! {

/// What an object holds, as plain values.
pub enum ObjectView {
    Blob(Seq<u8>),
    Tree(Seq<EntryView>),
}

/// The canonical bytes of an object, from which its hash is taken.
pub open spec fn object_encoding(o: ObjectView) -> Seq<u8> {
    match o {
        ObjectView::Blob(content) => blob_encoding(content),
        ObjectView::Tree(entries) => tree_encoding(entries),
    }
}

/// The object that `bytes` encode: a blob where they start with the keyword
/// of a blob, and a tree otherwise.
pub open spec fn decode_object(bytes: Seq<u8>) -> Result<ObjectView, ParseError> {
    if bytes.len() >= 4 && bytes.take(4) == BLOB_TAG@ {
        match decode_blob(bytes) {
            Ok(content) => Ok(ObjectView::Blob(content)),
            Err(e) => Err(e),
        }
    } else {
        match decode_tree(bytes) {
            Ok(entries) => Ok(ObjectView::Tree(entries)),
            Err(e) => Err(e),
        }
    }
}

/// Whether an object is read back from its encoding: any blob, and a tree
/// whose entries are well formed.
pub open spec fn well_formed_object(o: ObjectView) -> bool {
    o matches ObjectView::Tree(entries) ==> all_well_formed(entries)
}

/// The hash under which an object is stored: the digest of its canonical
/// bytes.
pub open spec fn object_hash(o: ObjectView) -> Seq<u8> {
    sha1_digest(object_encoding(o))
}

/// Decoding the encoding of an object gives the object back.
pub proof fn lemma_object_round_trip(o: ObjectView)
    requires
        well_formed_object(o),
    ensures
        decode_object(object_encoding(o)) == Ok::<ObjectView, ParseError>(o),
{
    let bytes = object_encoding(o);
    match o {
        ObjectView::Blob(content) => {
            lemma_blob_round_trip(content);
            assert(bytes.take(4) =~= BLOB_TAG@);
        },
        ObjectView::Tree(entries) => {
            lemma_tree_round_trip(entries);
        },
    }
}

/// Objects with the same canonical bytes are the same object, and so objects
/// that are the same have the same hash.
pub proof fn lemma_object_encoding_injective(a: ObjectView, b: ObjectView)
    requires
        well_formed_object(a),
        well_formed_object(b),
        object_encoding(a) == object_encoding(b),
    ensures
        a == b,
{
    lemma_object_round_trip(a);
    lemma_object_round_trip(b);
}

/// An object has one hash: objects that are the same have the same hash, so
/// objects with different hashes are different objects.
pub proof fn lemma_same_object_same_hash(a: ObjectView, b: ObjectView)
    ensures
        a == b ==> object_hash(a) == object_hash(b),
        object_hash(a) != object_hash(b) ==> a != b,
{
}

/// A blob or a tree.
#[derive(Debug)]
pub enum Object {
    Blob(Blob),
    Tree(Tree),
}

impl View for Object {
    type V = ObjectView;

    open spec fn view(&self) -> ObjectView {
        match self {
            Object::Blob(b) => ObjectView::Blob(b@),
            Object::Tree(t) => ObjectView::Tree(t@),
        }
    }
}

impl Object {
    /// The blob that holds everything that was read from a source.
    pub fn new_blob(source: Vec<u8>) -> (object: Self)
        ensures
            object@ == ObjectView::Blob(source@),
    {
        Object::Blob(Blob::new(source))
    }

    /// The canonical bytes of the object.
    pub fn encode(&self) -> (bytes: Vec<u8>)
        ensures
            bytes@ == object_encoding(self@),
    {
        let mut bytes: Vec<u8> = Vec::new();
        let _ = self.fmt(&mut bytes);
        bytes
    }

    /// The hash of the object: the digest of its canonical bytes.
    pub fn hash(&self) -> (h: crate::hash::Hash)
        requires
            hashable(object_encoding(self@).len()),
        ensures
            h@ == object_hash(self@),
    {
        let bytes = self.encode();
        crate::hash::Hash::from_bytes(bytes.as_slice())
    }

    /// The hash of the object, or `None` where its canonical bytes are too
    /// many to be hashed.
    pub fn checked_hash(&self) -> (r: Option<crate::hash::Hash>)
        ensures
            match r {
                Some(h) => hashable(object_encoding(self@).len()) && h@ == object_hash(self@),
                None => !hashable(object_encoding(self@).len()),
            },
    {
        let bytes = self.encode();
        if (bytes.len() as u64) < HASH_LIMIT {
            Some(crate::hash::Hash::from_bytes(bytes.as_slice()))
        } else {
            None
        }
    }

    /// Reads an object from its canonical bytes.
    pub fn try_from(bytes: &[u8]) -> (r: Result<Self, ParseError>)
        ensures
            match r {
                Ok(object) => decode_object(bytes@) == Ok::<ObjectView, ParseError>(object@),
                Err(e) => decode_object(bytes@) == Err::<ObjectView, ParseError>(e),
            },
    {
        let is_blob = bytes.len() >= 4 && bytes[0] == BLOB_TAG[0] && bytes[1] == BLOB_TAG[1]
            && bytes[2] == BLOB_TAG[2] && bytes[3] == BLOB_TAG[3];
        proof {
            if is_blob {
                assert(bytes@.take(4) =~= BLOB_TAG@);
            }
        }
        if is_blob {
            match Blob::try_from(bytes) {
                Ok(blob) => Ok(Object::Blob(blob)),
                Err(e) => Err(e),
            }
        } else {
            match Tree::try_from(bytes) {
                Ok(tree) => Ok(Object::Tree(tree)),
                Err(e) => Err(e),
            }
        }
    }
}

impl Writeable for Object {
    open spec fn written(&self) -> Option<Seq<u8>> {
        Some(object_encoding(self@))
    }

    fn fmt(&self, f: &mut Vec<u8>) -> (r: Result<(), StoreError>) {
        match self {
            Object::Blob(b) => b.fmt(f),
            Object::Tree(t) => t.fmt(f),
        }
    }
}

impl Readable for Object {
    type Error = ParseError;

    open spec fn decoded(bytes: Seq<u8>) -> Result<ObjectView, ParseError> {
        decode_object(bytes)
    }

    fn read(r: &[u8]) -> (res: Result<Self, ReadError<ParseError>>) {
        match Object::try_from(r) {
            Ok(object) => Ok(object),
            Err(e) => Err(ReadError::ParseError(e)),
        }
    }
}

/// The hash of what a value writes.
pub fn hash<W: Writeable>(x: W) -> (h: crate::hash::Hash)
    requires
        x.written() matches Some(bytes) && hashable(bytes.len()),
    ensures
        h@ == sha1_digest(x.written()->0),
{
    crate::hash::Hash::from_writable(x)
}

} // verus!
