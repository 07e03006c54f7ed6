//! A model of the file system below the store, to say what the steps of
//! storing and reading achieve once a caller carries them out.

use crate::hash::hex_text;
use crate::object::{object_hash, ObjectView};
use crate::store::{
    object_file_text, read_outcome, shard_text, write_step, IoErrorKind, WriteActionView,
    WriteState,
};
use crate::stream::StoreError;
use vstd::prelude::*;

verus! {

/// The file system as far as the store is concerned: the directories that
/// exist, and the files with their content.
pub struct Disk {
    pub dirs: Set<Seq<char>>,
    pub files: Map<Seq<char>, Seq<u8>>,
}

/// The path of the file called `name` in the directory `dir`.
pub open spec fn file_path(dir: Seq<char>, name: Seq<char>) -> Seq<char> {
    dir + "/"@ + name
}

/// What the file system is after it was asked for an action, and what it
/// reports. A directory is created unless something has its path. A file is
/// created or replaced where its directory exists and no directory has its
/// path.
pub open spec fn perform(disk: Disk, action: WriteActionView) -> (Disk, Result<(), IoErrorKind>) {
    match action {
        WriteActionView::CreateDir(dir) => if disk.dirs.contains(dir) || disk.files.contains_key(
            dir,
        ) {
            (disk, Err(IoErrorKind::AlreadyExists))
        } else {
            (Disk { dirs: disk.dirs.insert(dir), ..disk }, Ok(()))
        },
        WriteActionView::CreateFile { dir, name, content } => if !disk.dirs.contains(dir) {
            (disk, Err(IoErrorKind::NotFound))
        } else if disk.dirs.contains(file_path(dir, name)) {
            (disk, Err(IoErrorKind::Other))
        } else {
            (Disk { files: disk.files.insert(file_path(dir, name), content), ..disk }, Ok(()))
        },
        WriteActionView::Finish(_) => (disk, Ok(())),
    }
}

/// What loading a file gives.
pub open spec fn load(disk: Disk, path: Seq<char>) -> Result<Seq<u8>, IoErrorKind> {
    if disk.files.contains_key(path) {
        Ok(disk.files[path])
    } else {
        Err(IoErrorKind::NotFound)
    }
}

/// The file system after an object was stored step by step, and how the
/// storing ended.
pub open spec fn stored(disk: Disk, o: ObjectView) -> (Disk, Result<(), StoreError>) {
    let (s1, a1) = write_step(o, WriteState::Start, Ok(()));
    let (d1, e1) = perform(disk, a1);
    let (s2, a2) = write_step(o, s1, e1);
    let (d2, e2) = perform(d1, a2);
    let (s3, a3) = write_step(o, s2, e2);
    (
        d2,
        match a3 {
            WriteActionView::Finish(r) => r,
            _ => Err(StoreError::IoFailure),
        },
    )
}

/// The encoded bytes that reading the object with the given hash gives.
pub open spec fn fetched(disk: Disk, hash: Seq<u8>) -> Result<Seq<u8>, StoreError> {
    read_outcome(load(disk, object_file_text(hash)))
}

/// The file that the steps of storing create is the file that reading looks
/// for.
pub proof fn lemma_stored_where_fetched(hash: Seq<u8>)
    ensures
        file_path(shard_text(hash), hex_text(hash).skip(2)) == object_file_text(hash),
{
    reveal_strlit("/");
}

/// Storing an object a second time is no failure and leaves the file system
/// as the first time left it.
pub proof fn lemma_store_twice(disk: Disk, o: ObjectView)
    requires
        stored(disk, o).1 is Ok,
    ensures
        stored(stored(disk, o).0, o) == (stored(disk, o).0, Ok::<(), StoreError>(())),
{
    let once = stored(disk, o).0;
    let twice = stored(once, o).0;
    assert(twice.files =~= once.files);
}

/// Reading an object whose file was never written fails, and the failure
/// says that the object was not found.
pub proof fn lemma_fetch_absent(disk: Disk, hash: Seq<u8>)
    requires
        !disk.files.contains_key(object_file_text(hash)),
    ensures
        fetched(disk, hash) == Err::<Seq<u8>, StoreError>(StoreError::NotFound),
{
}

/// After an object was stored, its file holds the compressed form of its
/// encoding.
pub proof fn lemma_stored_content(disk: Disk, o: ObjectView)
    requires
        stored(disk, o).1 is Ok,
    ensures
        load(stored(disk, o).0, object_file_text(object_hash(o))) == Ok::<Seq<u8>, IoErrorKind>(
            crate::zlib::zlib_deflated(crate::object::object_encoding(o))->0,
        ),
        crate::zlib::zlib_deflated(crate::object::object_encoding(o)) is Some,
{
    lemma_stored_where_fetched(object_hash(o));
}

} // verus!
