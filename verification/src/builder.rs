//! From what a walk of a directory found to the trees and blobs that
//! record it.

use crate::codec::{
    copy_bytes, framed_fits, framed_len, lemma_framed_len, write_bytes, BLOB_TAG, TREE_TAG,
};
use crate::hash::{hashable, HASH_LIMIT};
use crate::object::{object_hash, Object, ObjectView};
use crate::perms::Perms;
use crate::tree::{
    entries_encoding, entries_view, lemma_entries_encoding_push, EntryView, Tree, TreeEntry,
};
use vstd::prelude::*;

verus! {

/// What kind of thing a walk found.
#[derive(Debug, PartialEq, Eq, Structural, Clone, Copy)]
pub enum EntryKind {
    File,
    Directory,
    Symlink,
}

/// One thing that a walk found.
#[derive(Debug, Clone)]
pub struct WalkEntry {
    /// The path of the directory that holds it; empty for the root of the
    /// walk, which no directory of the walk holds.
    pub parent: Vec<u8>,
    /// Its name in that directory.
    pub name: Vec<u8>,
    pub kind: EntryKind,
    /// Its permission bits.
    pub mode: u32,
    /// The bytes that were read from it; nothing for a directory.
    pub content: Vec<u8>,
}

/// A walk entry as plain values.
pub struct WalkEntryView {
    pub parent: Seq<u8>,
    pub name: Seq<u8>,
    pub kind: EntryKind,
    pub mode: u32,
    pub content: Seq<u8>,
}

impl View for WalkEntry {
    type V = WalkEntryView;

    open spec fn view(&self) -> WalkEntryView {
        WalkEntryView {
            parent: self.parent@,
            name: self.name@,
            kind: self.kind,
            mode: self.mode,
            content: self.content@,
        }
    }
}

/// The entries of a walk, each as plain values.
pub open spec fn walk_view(files: Seq<WalkEntry>) -> Seq<WalkEntryView> {
    Seq::new(files.len(), |i: int| files[i]@)
}

/// The objects of a list, each as plain values.
pub open spec fn objects_view(objects: Seq<Object>) -> Seq<ObjectView> {
    Seq::new(objects.len(), |i: int| objects[i]@)
}

/// The path of the directory that a walk starts from, `.`.
pub open spec fn walk_root() -> Seq<u8> {
    seq![46u8]
}

/// The path of what is called `name` in the directory `dir`.
pub open spec fn child_path(dir: Seq<u8>, name: Seq<u8>) -> Seq<u8> {
    dir.push(47u8) + name
}

/// The kind of tree entry that a walk entry becomes: a directory, a symbolic
/// link, an executable file where any of the three execute bits is set, and
/// a regular file otherwise.
pub open spec fn perms_of(kind: EntryKind, mode: u32) -> Perms {
    match kind {
        EntryKind::Directory => Perms::Directory,
        EntryKind::Symlink => Perms::SymbolicLink,
        EntryKind::File => if mode & 0o111 != 0 {
            Perms::ExecutableFile
        } else {
            Perms::RegularFile
        },
    }
}

/// The length of the longest parent path in a walk.
pub open spec fn longest_parent(files: Seq<WalkEntryView>) -> nat
    decreases files.len(),
{
    if files.len() == 0 {
        0
    } else {
        let before = longest_parent(files.drop_last());
        if files.last().parent.len() > before {
            files.last().parent.len()
        } else {
            before
        }
    }
}

/// No parent path of a walk is longer than the longest.
pub proof fn lemma_longest_parent(files: Seq<WalkEntryView>, i: int)
    requires
        0 <= i < files.len(),
    ensures
        files[i].parent.len() <= longest_parent(files),
    decreases files.len(),
{
    if i < files.len() - 1 {
        lemma_longest_parent(files.drop_last(), i);
    }
}

/// How much deeper than `dir` the directories of a walk can lie: one more
/// than the room between the length of `dir` and the longest parent path.
pub open spec fn depth_left(files: Seq<WalkEntryView>, dir: Seq<u8>) -> nat {
    if dir.len() <= longest_parent(files) {
        (longest_parent(files) + 1 - dir.len()) as nat
    } else {
        0
    }
}

/// The entries of the tree for the directory `dir`, as far as they come from
/// `files[from..]`: one for each walk entry whose parent is `dir`, in the
/// order of the walk. A file or link refers to the blob of its content, a
/// directory to the tree of what the walk found in it.
pub open spec fn tree_entries(files: Seq<WalkEntryView>, dir: Seq<u8>, from: nat) -> Seq<EntryView>
    decreases depth_left(files, dir), files.len() - from,
{
    if from >= files.len() {
        Seq::empty()
    } else {
        let f = files[from as int];
        let rest = tree_entries(files, dir, from + 1);
        if f.parent == dir {
            proof {
                lemma_longest_parent(files, from as int);
            }
            let hash = if f.kind == EntryKind::Directory {
                object_hash(ObjectView::Tree(tree_entries(files, child_path(dir, f.name), 0)))
            } else {
                object_hash(ObjectView::Blob(f.content))
            };
            seq![EntryView { perms: perms_of(f.kind, f.mode), name: f.name, hash }] + rest
        } else {
            rest
        }
    }
}

/// The objects below the directory `dir`, as far as they come from
/// `files[from..]`, each after the objects it refers to: for a file or
/// link its blob, for a directory what lies below it and then its tree.
pub open spec fn forest(files: Seq<WalkEntryView>, dir: Seq<u8>, from: nat) -> Seq<ObjectView>
    decreases depth_left(files, dir), files.len() - from,
{
    if from >= files.len() {
        Seq::empty()
    } else {
        let f = files[from as int];
        let rest = forest(files, dir, from + 1);
        if f.parent == dir {
            proof {
                lemma_longest_parent(files, from as int);
            }
            if f.kind == EntryKind::Directory {
                objects_of(files, child_path(dir, f.name)) + rest
            } else {
                seq![ObjectView::Blob(f.content)] + rest
            }
        } else {
            rest
        }
    }
}

/// Every object that records the directory `dir`: what lies below it, and
/// last its own tree.
pub open spec fn objects_of(files: Seq<WalkEntryView>, dir: Seq<u8>) -> Seq<ObjectView>
    decreases depth_left(files, dir), files.len() + 1,
{
    forest(files, dir, 0).push(ObjectView::Tree(tree_entries(files, dir, 0)))
}

/// The length of the body of the tree for the directory `dir`, as far as it
/// comes from `files[from..]`: for each entry its permission code, a space,
/// its name, a NUL byte, and the twenty bytes of a hash.
pub open spec fn entries_len(files: Seq<WalkEntryView>, dir: Seq<u8>, from: nat) -> nat
    decreases files.len() - from,
{
    if from >= files.len() {
        0
    } else {
        let f = files[from as int];
        let rest = entries_len(files, dir, from + 1);
        if f.parent == dir {
            perms_of(f.kind, f.mode).rendered().len() + f.name.len() + 22 + rest
        } else {
            rest
        }
    }
}

/// Whether every object below the directory `dir` that comes from
/// `files[from..]` is short enough to be hashed.
pub open spec fn hashable_below(files: Seq<WalkEntryView>, dir: Seq<u8>, from: nat) -> bool
    decreases depth_left(files, dir), files.len() - from,
{
    if from >= files.len() {
        true
    } else {
        let f = files[from as int];
        let rest = hashable_below(files, dir, from + 1);
        if f.parent == dir {
            proof {
                lemma_longest_parent(files, from as int);
            }
            if f.kind == EntryKind::Directory {
                hashable_tree(files, child_path(dir, f.name)) && rest
            } else {
                hashable(framed_len(f.content.len())) && rest
            }
        } else {
            rest
        }
    }
}

/// Whether every object that records the directory `dir` is short enough to
/// be hashed: what lies below it, and its own tree.
pub open spec fn hashable_tree(files: Seq<WalkEntryView>, dir: Seq<u8>) -> bool
    decreases depth_left(files, dir), files.len() + 1,
{
    hashable_below(files, dir, 0) && hashable(framed_len(entries_len(files, dir, 0)))
}

/// The encoding of a list of entries with one more entry at its end is
/// longer by the permission code, the name, the hash and two bytes between.
proof fn lemma_entries_len_push(es: Seq<EntryView>, e: EntryView)
    ensures
        entries_encoding(es.push(e)).len() == entries_encoding(es).len() + e.perms.rendered().len()
            + e.name.len() + e.hash.len() + 2,
{
    lemma_entries_encoding_push(es, e);
}

/// Whether two byte strings are the same.
fn same_bytes(a: &[u8], b: &[u8]) -> (same: bool)
    ensures
        same == (a@ == b@),
{
    if a.len() != b.len() {
        return false;
    }
    let mut i: usize = 0;
    while i < a.len()
        invariant
            i <= a@.len(),
            a@.len() == b@.len(),
            forall|j: int| 0 <= j < i ==> a@[j] == b@[j],
        decreases a@.len() - i,
    {
        if a[i] != b[i] {
            return false;
        }
        i += 1;
    }
    assert(a@ =~= b@);
    true
}

/// The name of the directory that holds the store itself, `.git`, which a
/// walk leaves out with everything in it.
pub const IGNORED_NAME: [u8; 4] = [46, 103, 105, 116];

/// Whether a walk leaves out what has this name.
pub fn is_ignored(name: &[u8]) -> (ignored: bool)
    ensures
        ignored == (name@ == IGNORED_NAME@),
{
    same_bytes(name, IGNORED_NAME.as_slice())
}

/// The kind of tree entry that a walk entry becomes.
pub fn classify(kind: EntryKind, mode: u32) -> (perms: Perms)
    ensures
        perms == perms_of(kind, mode),
{
    match kind {
        EntryKind::Directory => Perms::Directory,
        EntryKind::Symlink => Perms::SymbolicLink,
        EntryKind::File => if mode & 0o111 != 0 {
            Perms::ExecutableFile
        } else {
            Perms::RegularFile
        },
    }
}

/// Builds the tree of the directory `dir` and of every directory below it,
/// appends each new object to `objects` after the objects it refers to, and
/// returns the hash of the tree of `dir`.
pub fn build_tree(files: &Vec<WalkEntry>, dir: &Vec<u8>, objects: &mut Vec<Object>) -> (h:
    crate::hash::Hash)
    requires
        hashable_tree(walk_view(files@), dir@),
    ensures
        objects_view(final(objects)@) == objects_view(old(objects)@) + objects_of(
            walk_view(files@),
            dir@,
        ),
        h@ == object_hash(ObjectView::Tree(tree_entries(walk_view(files@), dir@, 0))),
    decreases depth_left(walk_view(files@), dir@),
{
    let ghost fv = walk_view(files@);
    let ghost d = dir@;
    let ghost before = objects_view(objects@);
    let mut entries: Vec<TreeEntry> = Vec::new();
    let mut i: usize = 0;
    while i < files.len()
        invariant
            i <= files@.len(),
            fv == walk_view(files@),
            d == dir@,
            before + forest(fv, d, 0) == objects_view(objects@) + forest(fv, d, i as nat),
            tree_entries(fv, d, 0) == entries_view(entries@) + tree_entries(fv, d, i as nat),
            entries_len(fv, d, 0) == entries_encoding(entries_view(entries@)).len() + entries_len(
                fv,
                d,
                i as nat,
            ),
            hashable_below(fv, d, i as nat),
        decreases files@.len() - i,
    {
        let file = &files[i];
        let ghost f = fv[i as int];
        let ghost listed = entries_view(entries@);
        if same_bytes(file.parent.as_slice(), dir.as_slice()) {
            let perms = classify(file.kind, file.mode);
            let hash = if file.kind == EntryKind::Directory {
                let mut child: Vec<u8> = copy_bytes(dir.as_slice());
                child.push(47);
                write_bytes(&mut child, file.name.as_slice());
                proof {
                    lemma_longest_parent(fv, i as int);
                }
                build_tree(files, &child, objects)
            } else {
                let object = Object::new_blob(copy_bytes(file.content.as_slice()));
                proof {
                    lemma_framed_len(BLOB_TAG@, f.content);
                }
                let hash = object.hash();
                objects.push(object);
                hash
            };
            let entry = TreeEntry::new(perms, copy_bytes(file.name.as_slice()), hash);
            entries.push(entry);
            proof {
                let e = EntryView { perms: perms_of(f.kind, f.mode), name: f.name, hash: hash@ };
                hash.lemma_len();
                lemma_entries_len_push(listed, e);
                assert(entries_view(entries@) =~= listed.push(e));
            }
        }
        i += 1;
    }
    let ghost below = objects_view(objects@);
    let ghost top = ObjectView::Tree(tree_entries(fv, d, 0));
    proof {
        lemma_framed_len(TREE_TAG@, entries_encoding(tree_entries(fv, d, 0)));
    }
    let tree = Object::Tree(Tree::new(entries));
    let h = tree.hash();
    objects.push(tree);
    proof {
        assert(below.push(top) =~= before + forest(fv, d, 0).push(top));
    }
    h
}

/// Whether every object that records the directory `dir` is short enough to
/// be hashed.
pub fn is_hashable_tree(files: &Vec<WalkEntry>, dir: &Vec<u8>) -> (ok: bool)
    ensures
        ok == hashable_tree(walk_view(files@), dir@),
    decreases depth_left(walk_view(files@), dir@),
{
    let ghost fv = walk_view(files@);
    let ghost d = dir@;
    let mut size: u64 = 0;
    let mut i: usize = 0;
    while i < files.len()
        invariant
            i <= files@.len(),
            fv == walk_view(files@),
            d == dir@,
            size < HASH_LIMIT,
            entries_len(fv, d, 0) == size + entries_len(fv, d, i as nat),
            hashable_below(fv, d, 0) == hashable_below(fv, d, i as nat),
        decreases files@.len() - i,
    {
        let file = &files[i];
        if same_bytes(file.parent.as_slice(), dir.as_slice()) {
            let name_len = file.name.len() as u64;
            if name_len >= HASH_LIMIT {
                return false;
            }
            size = size + classify(file.kind, file.mode).rendered_size() as u64 + name_len + 22;
            if size >= HASH_LIMIT {
                return false;
            }
            if file.kind == EntryKind::Directory {
                let mut child: Vec<u8> = copy_bytes(dir.as_slice());
                child.push(47);
                write_bytes(&mut child, file.name.as_slice());
                proof {
                    lemma_longest_parent(fv, i as int);
                }
                if !is_hashable_tree(files, &child) {
                    return false;
                }
            } else if !framed_fits(file.content.len() as u64) {
                return false;
            }
        }
        i += 1;
    }
    framed_fits(size)
}

impl Tree {
    /// Records what a walk from `.` found, where every object that this takes
    /// is short enough to be hashed; `None` where one is not.
    pub fn checked_write_tree(files: &Vec<WalkEntry>) -> (r: Option<
        (crate::hash::Hash, Vec<Object>),
    >)
        ensures
            match r {
                Some((hash, objects)) => hashable_tree(walk_view(files@), walk_root())
                    && objects_view(objects@) == objects_of(walk_view(files@), walk_root())
                    && hash@ == object_hash(
                    ObjectView::Tree(tree_entries(walk_view(files@), walk_root(), 0)),
                ),
                None => !hashable_tree(walk_view(files@), walk_root()),
            },
    {
        let mut root: Vec<u8> = Vec::new();
        root.push(46);
        if is_hashable_tree(files, &root) {
            Some(Tree::write_tree(files))
        } else {
            None
        }
    }

    /// Records what a walk from `.` found: returns the hash of the tree of
    /// `.`, and every object to store, each after the objects it refers to.
    pub fn write_tree(files: &Vec<WalkEntry>) -> (r: (crate::hash::Hash, Vec<Object>))
        requires
            hashable_tree(walk_view(files@), walk_root()),
        ensures
            objects_view(r.1@) == objects_of(walk_view(files@), walk_root()),
            r.0@ == object_hash(
                ObjectView::Tree(tree_entries(walk_view(files@), walk_root(), 0)),
            ),
    {
        let mut root: Vec<u8> = Vec::new();
        root.push(46);
        let mut objects: Vec<Object> = Vec::new();
        let hash = build_tree(files, &root, &mut objects);
        (hash, objects)
    }
}

} // verus!
