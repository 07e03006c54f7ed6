//! The object store: where an object lies, and what to make of what the
//! file system says. The library decides; its caller touches the disk.

use crate::blob::{decode_blob, Blob};
use crate::codec::ParseError;
use crate::hash::{address_text, hashable, hex_text, parse_hex, HashError};
use crate::object::{object_encoding, object_hash, Object, ObjectView};
use crate::stream::{ReadError, StoreError};
use crate::zlib::{compress, decompress, zlib_deflated, zlib_inflated};
use vstd::prelude::*;
use vstd::string::StringExecFns;

verus! {

/// What the file system reports when an operation fails.
#[derive(Debug, Clone, Copy, PartialEq, Eq, Structural)]
pub enum IoErrorKind {
    NotFound,
    AlreadyExists,
    Other,
}

/// What a look at a path found.
#[derive(Debug, Clone, Copy, PartialEq, Eq, Structural)]
pub enum Probe {
    /// A file lies there.
    File,
    /// Something lies there that is no file.
    NotAFile,
    /// The look failed.
    Failed(IoErrorKind),
}

/// The directory that holds the store.
pub open spec fn root_text() -> Seq<char> {
    ".git"@
}

/// The directory that holds the objects.
pub open spec fn objects_text() -> Seq<char> {
    root_text() + "/objects"@
}

/// The shard directory of the object with the given hash.
pub open spec fn shard_text(hash: Seq<u8>) -> Seq<char> {
    objects_text() + "/"@ + hex_text(hash).take(2)
}

/// The file of the object with the given hash.
pub open spec fn object_file_text(hash: Seq<u8>) -> Seq<char> {
    objects_text() + "/"@ + address_text(hash)
}

/// The directory that holds the store, `.git`.
pub fn root() -> (path: String)
    ensures
        path@ == root_text(),
{
    String::from_str(".git")
}

/// A path with one more part at its end.
fn push_dir(path: String, part: &str) -> (longer: String)
    ensures
        longer@ == path@ + "/"@ + part@,
{
    let mut longer = path;
    longer.append("/");
    longer.append(part);
    longer
}

/// The first outcome, unless it is the failure that is to be passed over:
/// then the operation counts as done, with `default` for its result.
pub fn ignore<T>(outcome: Result<T, IoErrorKind>, kind: IoErrorKind, default: T) -> (r: Result<
    T,
    IoErrorKind,
>)
    ensures
        r == match outcome {
            Ok(v) => Ok::<T, IoErrorKind>(v),
            Err(e) => if e == kind {
                Ok(default)
            } else {
                Err(e)
            },
        },
{
    match outcome {
        Ok(v) => Ok(v),
        Err(e) => if e == kind {
            Ok(default)
        } else {
            Err(e)
        },
    }
}

/// What a look at the file of an object says of the object: a file is the
/// object, nothing there means there is no such object, and anything else
/// is a failure.
pub open spec fn exists_outcome(probe: Probe) -> Result<bool, StoreError> {
    match probe {
        Probe::File => Ok(true),
        Probe::NotAFile => Err(StoreError::IoFailure),
        Probe::Failed(IoErrorKind::NotFound) => Ok(false),
        Probe::Failed(_) => Err(StoreError::IoFailure),
    }
}

/// The encoded bytes of an object, from what loading its file gave: a file
/// that is not there means the object was not found, a file that does not
/// decompress is a corrupt object.
pub open spec fn read_outcome(loaded: Result<Seq<u8>, IoErrorKind>) -> Result<Seq<u8>, StoreError> {
    match loaded {
        Err(IoErrorKind::NotFound) => Err(StoreError::NotFound),
        Err(_) => Err(StoreError::IoFailure),
        Ok(stored) => match zlib_inflated(stored) {
            None => Err(StoreError::CorruptObject),
            Some(bytes) => Ok(bytes),
        },
    }
}

/// The content of a blob, from what loading its file gave.
pub open spec fn pretty_outcome(loaded: Result<Seq<u8>, IoErrorKind>) -> Result<
    Seq<u8>,
    ReadError<ParseError>,
> {
    match read_outcome(loaded) {
        Err(e) => Err(ReadError::IoError(e)),
        Ok(bytes) => match decode_blob(bytes) {
            Err(e) => Err(ReadError::ParseError(e)),
            Ok(content) => Ok(content),
        },
    }
}

/// The encoded bytes of an object, from what loading its file gave.
pub fn read(loaded: Result<Vec<u8>, IoErrorKind>) -> (r: Result<Vec<u8>, StoreError>)
    ensures
        match r {
            Ok(bytes) => read_outcome(loaded_view(loaded)) == Ok::<Seq<u8>, StoreError>(bytes@),
            Err(e) => read_outcome(loaded_view(loaded)) == Err::<Seq<u8>, StoreError>(e),
        },
{
    match loaded {
        Err(IoErrorKind::NotFound) => Err(StoreError::NotFound),
        Err(_) => Err(StoreError::IoFailure),
        Ok(stored) => decompress(stored.as_slice()),
    }
}

/// What loading a file gave, as plain values.
pub open spec fn loaded_view(loaded: Result<Vec<u8>, IoErrorKind>) -> Result<
    Seq<u8>,
    IoErrorKind,
> {
    match loaded {
        Ok(v) => Ok(v@),
        Err(e) => Err(e),
    }
}

/// The question whether an object is stored, and the reading of it.
pub struct CatFile {
    hash: crate::hash::Hash,
}

impl CatFile {
    /// The hash of the object that is asked for.
    pub closed spec fn hash(self) -> Seq<u8> {
        self.hash@
    }

    /// Asks for the object whose hash is written in `hash`.
    pub fn new(hash: &str) -> (r: Result<Self, HashError>)
        ensures
            match r {
                Ok(cat) => parse_hex(hash@) == Ok::<Seq<u8>, HashError>(cat.hash()),
                Err(e) => parse_hex(hash@) == Err::<Seq<u8>, HashError>(e),
            },
    {
        match crate::hash::Hash::parse(hash) {
            Ok(hash) => Ok(Self { hash }),
            Err(e) => Err(e),
        }
    }

    /// The file of the object.
    pub fn path(&self) -> (path: String)
        ensures
            path@ == object_file_text(self.hash()),
    {
        let objects = push_dir(root(), "objects");
        let path = push_dir(objects, self.hash.object_path().as_str());
        proof {
            reveal_strlit("/objects");
            reveal_strlit("/");
            reveal_strlit("objects");
        }
        path
    }

    /// Whether the object is stored, from what a look at its file found.
    pub fn is_stored(&self, probe: Probe) -> (r: Result<bool, StoreError>)
        ensures
            r == exists_outcome(probe),
    {
        match probe {
            Probe::File => Ok(true),
            Probe::NotAFile => Err(StoreError::IoFailure),
            Probe::Failed(e) => {
                if e == IoErrorKind::NotFound {
                    Ok(false)
                } else {
                    Err(StoreError::IoFailure)
                }
            },
        }
    }

    /// The content of the object, which must be a blob, from what loading
    /// its file gave.
    pub fn pretty(&self, loaded: Result<Vec<u8>, IoErrorKind>) -> (r: Result<
        Vec<u8>,
        ReadError<ParseError>,
    >)
        ensures
            match r {
                Ok(content) => pretty_outcome(loaded_view(loaded)) == Ok::<
                    Seq<u8>,
                    ReadError<ParseError>,
                >(content@),
                Err(e) => pretty_outcome(loaded_view(loaded)) == Err::<
                    Seq<u8>,
                    ReadError<ParseError>,
                >(e),
            },
    {
        match read(loaded) {
            Err(e) => Err(ReadError::IoError(e)),
            Ok(bytes) => match Blob::try_from(bytes.as_slice()) {
                Err(e) => Err(ReadError::ParseError(e)),
                Ok(blob) => Ok(crate::codec::copy_bytes(blob.content())),
            },
        }
    }
}

/// How far the storing of an object has come.
#[derive(Debug, Clone, Copy, PartialEq, Eq, Structural)]
pub enum WriteState {
    /// Nothing has been asked of the file system.
    Start,
    /// The shard directory was asked for.
    MakingShard,
    /// The file was asked for.
    WritingObject,
    /// The object is stored.
    Done,
    /// The storing has failed.
    Failed,
}

/// What the storing of an object asks of its caller.
#[derive(Debug)]
pub enum WriteAction {
    /// Create this directory.
    CreateDir(String),
    /// Create or replace the file of this name in this directory, with this
    /// content.
    CreateFile { dir: String, name: String, content: Vec<u8> },
    /// Nothing more: the storing has ended with this result.
    Finish(Result<(), StoreError>),
}

/// An action as plain values.
pub enum WriteActionView {
    CreateDir(Seq<char>),
    CreateFile { dir: Seq<char>, name: Seq<char>, content: Seq<u8> },
    Finish(Result<(), StoreError>),
}

impl View for WriteAction {
    type V = WriteActionView;

    open spec fn view(&self) -> WriteActionView {
        match self {
            WriteAction::CreateDir(dir) => WriteActionView::CreateDir(dir@),
            WriteAction::CreateFile { dir, name, content } => WriteActionView::CreateFile {
                dir: dir@,
                name: name@,
                content: content@,
            },
            WriteAction::Finish(r) => WriteActionView::Finish(*r),
        }
    }
}

/// The next state of the storing of an object, and what it asks for, from
/// its state and from how the last thing it asked for went. First the
/// shard directory is created, and that it is there already is no failure.
/// Then the file is created with the compressed encoding of the object.
/// Any other failure ends the storing.
pub open spec fn write_step(o: ObjectView, state: WriteState, event: Result<(), IoErrorKind>) -> (
    WriteState,
    WriteActionView,
) {
    let failed = (WriteState::Failed, WriteActionView::Finish(Err(StoreError::IoFailure)));
    match state {
        WriteState::Start => (
            WriteState::MakingShard,
            WriteActionView::CreateDir(shard_text(object_hash(o))),
        ),
        WriteState::MakingShard => match event {
            Err(e) if e != IoErrorKind::AlreadyExists => failed,
            _ => match zlib_deflated(object_encoding(o)) {
                None => failed,
                Some(stream) => (
                    WriteState::WritingObject,
                    WriteActionView::CreateFile {
                        dir: shard_text(object_hash(o)),
                        name: hex_text(object_hash(o)).skip(2),
                        content: stream,
                    },
                ),
            },
        },
        WriteState::WritingObject => match event {
            Ok(()) => (WriteState::Done, WriteActionView::Finish(Ok(()))),
            Err(_) => failed,
        },
        WriteState::Done => (WriteState::Done, WriteActionView::Finish(Ok(()))),
        WriteState::Failed => failed,
    }
}

/// The storing of an object.
pub struct HashObject {
    object: Object,
}

impl HashObject {
    /// The object that is stored.
    pub closed spec fn object(self) -> ObjectView {
        self.object@
    }

    /// The storing of the given object.
    pub fn new(object: Object) -> (cmd: Self)
        ensures
            cmd.object() == object@,
    {
        Self { object }
    }

    /// The hash of the object.
    pub fn hash(&self) -> (h: crate::hash::Hash)
        requires
            hashable(object_encoding(self.object()).len()),
        ensures
            h@ == object_hash(self.object()),
    {
        self.object.hash()
    }

    /// Takes the storing of the object one step further: from its state and
    /// from how the last thing it asked for went, to its next state and the
    /// next thing it asks for.
    pub fn write(&self, state: WriteState, event: Result<(), IoErrorKind>) -> (r: (
        WriteState,
        WriteAction,
    ))
        requires
            hashable(object_encoding(self.object()).len()),
        ensures
            (r.0, r.1@) == write_step(self.object(), state, event),
            r.1 matches WriteAction::CreateFile { content, .. } ==> zlib_inflated(content@)
                == Some(object_encoding(self.object())),
    {
        match state {
            WriteState::Start => {
                let dir = self.shard();
                (WriteState::MakingShard, WriteAction::CreateDir(dir))
            },
            WriteState::MakingShard => {
                match ignore(event, IoErrorKind::AlreadyExists, ()) {
                    Err(_) => (WriteState::Failed, WriteAction::Finish(Err(StoreError::IoFailure))),
                    Ok(()) => {
                        let encoded = self.object.encode();
                        self.write_compressed(compress(encoded.as_slice()))
                    },
                }
            },
            WriteState::WritingObject => match event {
                Ok(()) => (WriteState::Done, WriteAction::Finish(Ok(()))),
                Err(_) => (WriteState::Failed, WriteAction::Finish(Err(StoreError::IoFailure))),
            },
            WriteState::Done => (WriteState::Done, WriteAction::Finish(Ok(()))),
            WriteState::Failed => (
                WriteState::Failed,
                WriteAction::Finish(Err(StoreError::IoFailure)),
            ),
        }
    }

    /// The shard directory of the object.
    fn shard(&self) -> (dir: String)
        requires
            hashable(object_encoding(self.object()).len()),
        ensures
            dir@ == shard_text(object_hash(self.object())),
    {
        let hash = self.hash();
        let objects = push_dir(root(), "objects");
        let dir = push_dir(objects, hash.dir().as_str());
        proof {
            reveal_strlit("/objects");
            reveal_strlit("/");
            reveal_strlit("objects");
        }
        dir
    }

    /// The step that follows the making of the shard directory, from what
    /// compressing the encoded object gave.
    pub fn write_compressed(&self, stream: Result<Vec<u8>, StoreError>) -> (r: (
        WriteState,
        WriteAction,
    ))
        requires
            hashable(object_encoding(self.object()).len()),
        ensures
            match stream {
                Err(_) => r.0 == WriteState::Failed && r.1@ == WriteActionView::Finish(
                    Err(StoreError::IoFailure),
                ),
                Ok(v) => r.0 == WriteState::WritingObject && r.1@ == (WriteActionView::CreateFile {
                    dir: shard_text(object_hash(self.object())),
                    name: hex_text(object_hash(self.object())).skip(2),
                    content: v@,
                }),
            },
    {
        match stream {
            Err(_) => (WriteState::Failed, WriteAction::Finish(Err(StoreError::IoFailure))),
            Ok(v) => {
                let dir = self.shard();
                let name = self.hash().storage_address().1;
                (WriteState::WritingObject, WriteAction::CreateFile { dir, name, content: v })
            },
        }
    }
}

} // verus!
