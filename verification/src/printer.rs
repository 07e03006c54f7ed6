//! Listing a tree: one line for each entry, with the fields that were asked
//! for, and on demand the trees below it.

use crate::codec::{copy_bytes, write_bytes, BLOB_TAG, TREE_TAG};
use crate::hash::{hex_text, lemma_hex_value_of_hex_char};
use crate::numeral::push_digits;
use crate::perms::Perms;
use crate::tree::{decode_tree, entries_view, EntryView, Tree, TreeEntry};
use crate::zlib::{decompress, zlib_inflated};
use vstd::prelude::*;

verus! {

/// Which fields a line of a listing shows, and whether the listing goes into
/// the directories it meets.
#[derive(Debug, Clone, Copy, PartialEq, Eq, Structural)]
pub struct Projection {
    pub show_perms: bool,
    pub show_type: bool,
    pub show_object: bool,
    pub show_name: bool,
    pub recurse: bool,
}

/// The permission code as a listing shows it: six octal digits, with a zero
/// in front of the five of a directory.
pub open spec fn padded_code(perms: Perms) -> Seq<u8> {
    let code = perms.rendered();
    Seq::new((6 - code.len()) as nat, |i: int| 48u8) + code
}

/// The word for the kind of object an entry refers to: `tree` for a
/// directory, `blob` for anything else.
pub open spec fn type_word(perms: Perms) -> Seq<u8> {
    if perms == Perms::Directory {
        TREE_TAG@
    } else {
        BLOB_TAG@
    }
}

/// A hash in lower-case hex, as bytes.
pub open spec fn hex_line(hash: Seq<u8>) -> Seq<u8> {
    Seq::new(2 * hash.len(), |i: int| hex_text(hash)[i] as u8)
}

/// The name of an entry below a prefix: the name itself where the prefix is
/// empty, else the prefix, a slash, and the name.
pub open spec fn full_name(prefix: Seq<u8>, name: Seq<u8>) -> Seq<u8> {
    if prefix.len() == 0 {
        name
    } else {
        prefix.push(47u8) + name
    }
}

/// A line with one more field at its end: a single space parts it from what
/// stood there before.
pub open spec fn with_field(line: Seq<u8>, first: bool, field: Seq<u8>) -> Seq<u8> {
    if first {
        line + field
    } else {
        line.push(32u8) + field
    }
}

/// The line for one entry: the fields that are shown, in the order
/// permission, type, hash, name, with single spaces between them.
pub open spec fn line(o: Projection, prefix: Seq<u8>, e: EntryView) -> Seq<u8> {
    let l0 = Seq::<u8>::empty();
    let l1 = if o.show_perms {
        with_field(l0, true, padded_code(e.perms))
    } else {
        l0
    };
    let l2 = if o.show_type {
        with_field(l1, !o.show_perms, type_word(e.perms))
    } else {
        l1
    };
    let l3 = if o.show_object {
        with_field(l2, !o.show_perms && !o.show_type, hex_line(e.hash))
    } else {
        l2
    };
    if o.show_name {
        with_field(
            l3,
            !o.show_perms && !o.show_type && !o.show_object,
            full_name(prefix, e.name),
        )
    } else {
        l3
    }
}

/// Appends a name to `f`.
pub fn print_name(f: &mut Vec<u8>, name: &[u8])
    ensures
        final(f)@ == old(f)@ + name@,
{
    write_bytes(f, name);
}

/// Appends a separator to `f` where one is needed.
fn write_sep(f: &mut Vec<u8>, needed: bool)
    ensures
        final(f)@ == if needed {
            old(f)@.push(32u8)
        } else {
            old(f)@
        },
{
    if needed {
        f.push(32);
    }
}

/// The name of an entry below a prefix.
pub fn join_name(prefix: &[u8], name: &[u8]) -> (full: Vec<u8>)
    ensures
        full@ == full_name(prefix@, name@),
{
    if prefix.len() == 0 {
        copy_bytes(name)
    } else {
        let mut full = copy_bytes(prefix);
        full.push(47);
        write_bytes(&mut full, name);
        full
    }
}

/// Appends a hash in lower-case hex to `f`.
fn write_hex(f: &mut Vec<u8>, hash: &crate::hash::Hash)
    ensures
        final(f)@ == old(f)@ + hex_line(hash@),
{
    let text = hash.to_hex();
    proof {
        hash.lemma_len();
        let t = text@;
        assert forall|j: int| 0 <= j < t.len() implies '\0' <= #[trigger] t[j] <= '\u{7f}' by {
            lemma_hex_value_of_hex_char(hash@[j / 2] / 16);
            lemma_hex_value_of_hex_char(hash@[j / 2] % 16);
        }
        vstd::utf8::is_ascii_chars_encode_utf8(t);
    }
    write_bytes(f, text.as_str().as_bytes());
}

/// Appends a permission code to `f`, padded to six digits.
fn write_padded_code(f: &mut Vec<u8>, perms: Perms)
    ensures
        final(f)@ == old(f)@ + padded_code(perms),
{
    let size = perms.rendered_size();
    let mut i: usize = size;
    while i < 6
        invariant
            size <= i <= 6,
            f@ == old(f)@ + Seq::new((i - size) as nat, |k: int| 48u8),
        decreases 6 - i,
    {
        f.push(48);
        i += 1;
    }
    push_digits(f, perms.code() as u64, 8);
}

/// Renders the line for one entry.
pub fn render_line(o: Projection, prefix: &[u8], entry: &TreeEntry) -> (out: Vec<u8>)
    ensures
        out@ == line(o, prefix@, entry@),
{
    let mut out: Vec<u8> = Vec::new();
    let mut need_sep = false;
    if o.show_perms {
        write_sep(&mut out, need_sep);
        write_padded_code(&mut out, entry.perms);
        need_sep = true;
    }
    if o.show_type {
        write_sep(&mut out, need_sep);
        match entry.perms {
            Perms::Directory => write_bytes(&mut out, TREE_TAG.as_slice()),
            _ => write_bytes(&mut out, BLOB_TAG.as_slice()),
        }
        need_sep = true;
    }
    if o.show_object {
        write_sep(&mut out, need_sep);
        write_hex(&mut out, &entry.hash);
        need_sep = true;
    }
    if o.show_name {
        write_sep(&mut out, need_sep);
        let name = join_name(prefix, entry.name.as_slice());
        print_name(&mut out, name.as_slice());
    }
    out
}

/// A listing of one tree, with its switches.
pub struct TreePrinter<'a> {
    tree: &'a Tree,
    options: Projection,
    prefix: Vec<u8>,
}

impl Tree {
    /// A listing of this tree that shows every field and stays in the tree.
    pub fn display(&self) -> (printer: TreePrinter<'_>)
        ensures
            printer.entries() == self@,
            printer.prefix() == Seq::<u8>::empty(),
            printer.options() == (Projection {
                show_perms: true,
                show_type: true,
                show_object: true,
                show_name: true,
                recurse: false,
            }),
    {
        TreePrinter {
            tree: self,
            options: Projection {
                show_perms: true,
                show_type: true,
                show_object: true,
                show_name: true,
                recurse: false,
            },
            prefix: Vec::new(),
        }
    }
}

impl<'a> TreePrinter<'a> {
    /// The entries that the listing is of.
    pub closed spec fn entries(self) -> Seq<EntryView> {
        self.tree@
    }

    /// The switches of the listing.
    pub closed spec fn options(self) -> Projection {
        self.options
    }

    /// What stands before each name.
    pub closed spec fn prefix(self) -> Seq<u8> {
        self.prefix@
    }

    /// Whether a later value of the printer lists the same tree under the
    /// same prefix.
    pub open spec fn same_listing(self, later: Self) -> bool {
        later.entries() == self.entries() && later.prefix() == self.prefix()
    }

    /// Leaves the names out.
    pub fn no_name(&mut self) -> (r: &mut Self)
        ensures
            r.options() == (Projection { show_name: false, ..old(self).options() }),
            old(self).same_listing(*r),
            *final(self) == *final(r),
    {
        self.options.show_name = false;
        self
    }

    /// Leaves the permission codes out.
    pub fn no_perms(&mut self) -> (r: &mut Self)
        ensures
            r.options() == (Projection { show_perms: false, ..old(self).options() }),
            old(self).same_listing(*r),
            *final(self) == *final(r),
    {
        self.options.show_perms = false;
        self
    }

    /// Leaves the hashes out.
    pub fn no_object(&mut self) -> (r: &mut Self)
        ensures
            r.options() == (Projection { show_object: false, ..old(self).options() }),
            old(self).same_listing(*r),
            *final(self) == *final(r),
    {
        self.options.show_object = false;
        self
    }

    /// Leaves the type words out.
    pub fn no_type(&mut self) -> (r: &mut Self)
        ensures
            r.options() == (Projection { show_type: false, ..old(self).options() }),
            old(self).same_listing(*r),
            *final(self) == *final(r),
    {
        self.options.show_type = false;
        self
    }

    /// Makes the listing go into the directories it meets.
    pub fn recusive(&mut self) -> (r: &mut Self)
        ensures
            r.options() == (Projection { recurse: true, ..old(self).options() }),
            old(self).same_listing(*r),
            *final(self) == *final(r),
    {
        self.options.recurse = true;
        self
    }

    /// The lines of the listing of this tree alone: one for each entry, in
    /// the order of the entries.
    pub fn lines(&self) -> (out: Vec<Vec<u8>>)
        ensures
            out@.len() == self.entries().len(),
            forall|i: int|
                0 <= i < out@.len() ==> (#[trigger] out@[i])@ == line(
                    self.options(),
                    self.prefix(),
                    self.entries()[i],
                ),
    {
        let entries = self.tree.entries();
        let mut out: Vec<Vec<u8>> = Vec::new();
        let mut i: usize = 0;
        while i < entries.len()
            invariant
                i <= entries@.len(),
                entries_view(entries@) == self.entries(),
                out@.len() == i,
                forall|j: int|
                    0 <= j < i ==> (#[trigger] out@[j])@ == line(
                        self.options(),
                        self.prefix(),
                        self.entries()[j],
                    ),
            decreases entries@.len() - i,
        {
            let rendered = render_line(self.options, self.prefix.as_slice(), &entries[i]);
            out.push(rendered);
            i += 1;
        }
        out
    }

    /// The listing as a sequence that is produced line by line, and that goes
    /// into directories where the listing does.
    pub fn walk(&self) -> (walk: TreeWalk)
        ensures
            walk@ == listing_at(self.options(), self.prefix(), self.entries(), 0),
    {
        let mut stack: Vec<Frame> = Vec::new();
        stack.push(
            Frame { tree: self.tree.clone(), prefix: copy_bytes(self.prefix.as_slice()), next: 0 },
        );
        let walk = TreeWalk { options: self.options, stack, pending: None };
        assert(walk@.stack =~= seq![
            FrameView { entries: self.entries(), prefix: self.prefix(), next: 0 },
        ]);
        walk
    }
}

/// A tree that a listing is part way through.
struct Frame {
    tree: Tree,
    prefix: Vec<u8>,
    next: usize,
}

/// A frame as plain values: the entries of the tree, what stands before
/// each name, and how many entries have been listed.
pub struct FrameView {
    pub entries: Seq<EntryView>,
    pub prefix: Seq<u8>,
    pub next: nat,
}

impl View for Frame {
    type V = FrameView;

    closed spec fn view(&self) -> FrameView {
        FrameView { entries: self.tree@, prefix: self.prefix@, next: self.next as nat }
    }
}

/// A directory that a listing wants to go into: the hash of its tree, and
/// the prefix for the names in it.
struct Pending {
    hash: crate::hash::Hash,
    prefix: Vec<u8>,
}

/// A listing in progress.
pub struct TreeWalk {
    options: Projection,
    stack: Vec<Frame>,
    pending: Option<Pending>,
}

/// A listing in progress, as plain values. The last frame of the stack is
/// the tree that is being listed; the frames before it are the trees that
/// wait for it to end. While a directory is pending, the listing waits to be
/// given the stored bytes of its tree.
pub struct WalkView {
    pub options: Projection,
    pub stack: Seq<FrameView>,
    pub pending: Option<(Seq<u8>, Seq<u8>)>,
}

/// What a listing does next.
#[derive(Debug)]
pub enum Step {
    /// It produces this line.
    Line(Vec<u8>),
    /// It asks for the stored bytes of the object with this hash.
    Load(crate::hash::Hash),
    /// It has ended.
    Done,
}

/// A step as plain values.
pub enum StepView {
    Line(Seq<u8>),
    Load(Seq<u8>),
    Done,
}

impl View for Step {
    type V = StepView;

    open spec fn view(&self) -> StepView {
        match self {
            Step::Line(l) => StepView::Line(l@),
            Step::Load(h) => StepView::Load(h@),
            Step::Done => StepView::Done,
        }
    }
}

/// The frames of a stack, each as plain values.
spec fn frames_view(stack: Seq<Frame>) -> Seq<FrameView> {
    Seq::new(stack.len(), |i: int| stack[i]@)
}

impl View for TreeWalk {
    type V = WalkView;

    closed spec fn view(&self) -> WalkView {
        WalkView {
            options: self.options,
            stack: frames_view(self.stack@),
            pending: match self.pending {
                Some(p) => Some((p.hash@, p.prefix@)),
                None => None,
            },
        }
    }
}

/// The next step of a listing, and the listing after it. A pending
/// directory is asked for. Trees that have been listed to their end are
/// left, and the listing ends with the last of them. Otherwise the next
/// entry of the current tree gives a line; where the listing goes into
/// directories and the entry is one, that directory is pending afterwards,
/// with the name of the entry as the prefix for what is in it.
pub open spec fn step_of(w: WalkView) -> (WalkView, StepView)
    decreases w.stack.len(),
{
    if let Some((hash, prefix)) = w.pending {
        (w, StepView::Load(hash))
    } else if w.stack.len() == 0 {
        (w, StepView::Done)
    } else {
        let top = w.stack.last();
        if top.next >= top.entries.len() {
            step_of(WalkView { stack: w.stack.drop_last(), ..w })
        } else {
            let e = top.entries[top.next as int];
            let name = full_name(top.prefix, e.name);
            let stack = w.stack.drop_last().push(FrameView { next: top.next + 1, ..top });
            let pending = if w.options.recurse && e.perms == Perms::Directory {
                Some((e.hash, name))
            } else {
                None
            };
            (WalkView { stack, pending, ..w }, StepView::Line(line(w.options, top.prefix, e)))
        }
    }
}

/// The listing after it was given what decompressing the stored bytes of
/// the pending directory gave, or `None` where there were no such bytes or
/// they did not decompress. Bytes that decode as a tree are listed next;
/// anything else is passed over, and the listing goes on behind the
/// directory.
pub open spec fn supplied(w: WalkView, plain: Option<Seq<u8>>) -> WalkView {
    match w.pending {
        None => w,
        Some((hash, prefix)) => {
            let cleared = WalkView { pending: None, ..w };
            match plain {
                None => cleared,
                Some(bytes) => match decode_tree(bytes) {
                    Err(_) => cleared,
                    Ok(entries) => WalkView {
                        stack: w.stack.push(FrameView { entries, prefix, next: 0 }),
                        ..cleared
                    },
                },
            }
        },
    }
}

/// A listing after its next `n` steps.
pub open spec fn after(w: WalkView, n: nat) -> WalkView
    decreases n,
{
    if n == 0 {
        w
    } else {
        after(step_of(w).0, (n - 1) as nat)
    }
}

/// A listing of one tree of which `next` entries have been listed.
pub open spec fn listing_at(
    o: Projection,
    prefix: Seq<u8>,
    entries: Seq<EntryView>,
    next: nat,
) -> WalkView {
    WalkView { options: o, stack: seq![FrameView { entries, prefix, next }], pending: None }
}

/// A listing that stays in its tree is, after `n` steps, a listing of which
/// `n` more entries have been listed.
proof fn lemma_after_flat(
    o: Projection,
    prefix: Seq<u8>,
    entries: Seq<EntryView>,
    next: nat,
    n: nat,
)
    requires
        !o.recurse,
        next + n <= entries.len(),
    ensures
        after(listing_at(o, prefix, entries, next), n) == listing_at(o, prefix, entries, next + n),
    decreases n,
{
    if n > 0 {
        let w = listing_at(o, prefix, entries, next);
        let top = w.stack.last();
        assert(w.stack.drop_last().push(FrameView { next: top.next + 1, ..top }) =~= listing_at(
            o,
            prefix,
            entries,
            next + 1,
        ).stack);
        lemma_after_flat(o, prefix, entries, next + 1, (n - 1) as nat);
    }
}

/// A listing that stays in its tree produces one line for each entry, in the
/// order of the entries, and then ends.
pub proof fn lemma_walk_lists_each_entry(
    o: Projection,
    prefix: Seq<u8>,
    entries: Seq<EntryView>,
    i: nat,
)
    requires
        !o.recurse,
        i <= entries.len(),
    ensures
        step_of(after(listing_at(o, prefix, entries, 0), i)).1 == if i < entries.len() {
            StepView::Line(line(o, prefix, entries[i as int]))
        } else {
            StepView::Done
        },
{
    lemma_after_flat(o, prefix, entries, 0, i);
    let w = listing_at(o, prefix, entries, i);
    if i >= entries.len() {
        let left = WalkView { stack: w.stack.drop_last(), ..w };
        assert(step_of(left).1 == StepView::Done);
    }
}

/// What decompressing stored bytes gives, where there are any.
pub open spec fn inflated(stored: Option<Seq<u8>>) -> Option<Seq<u8>> {
    match stored {
        None => None,
        Some(bytes) => zlib_inflated(bytes),
    }
}

impl TreeWalk {
    /// Takes the next step of the listing.
    pub fn step(&mut self) -> (step: Step)
        ensures
            (final(self)@, step@) == step_of(old(self)@),
    {
        if let Some(p) = &self.pending {
            return Step::Load(p.hash);
        }
        loop
            invariant
                self.pending is None,
                self.options == old(self).options,
                step_of(self@) == step_of(old(self)@),
            decreases self.stack@.len(),
        {
            let ghost w = self@;
            match self.stack.pop() {
                None => {
                    return Step::Done;
                },
                Some(frame) => {
                    let ghost below = frames_view(self.stack@);
                    assert(below =~= w.stack.drop_last());
                    let entries = frame.tree.entries();
                    if frame.next < entries.len() {
                        let entry = &entries[frame.next];
                        let rendered = render_line(self.options, frame.prefix.as_slice(), entry);
                        if self.options.recurse && entry.perms == Perms::Directory {
                            self.pending = Some(
                                Pending {
                                    hash: entry.hash,
                                    prefix: join_name(
                                        frame.prefix.as_slice(),
                                        entry.name.as_slice(),
                                    ),
                                },
                            );
                        }
                        let ghost top = frame@;
                        let next = frame.next + 1;
                        self.stack.push(Frame { tree: frame.tree, prefix: frame.prefix, next });
                        proof {
                            assert(frames_view(self.stack@) =~= w.stack.drop_last().push(
                                FrameView { next: top.next + 1, ..top },
                            ));
                        }
                        return Step::Line(rendered);
                    }
                },
            }
        }
    }

    /// Hands the listing what decompressing the stored bytes of the pending
    /// directory gave.
    pub fn supply_inflated(&mut self, plain: Option<Vec<u8>>)
        ensures
            final(self)@ == supplied(
                old(self)@,
                match plain {
                    Some(v) => Some(v@),
                    None => None,
                },
            ),
    {
        let ghost w = self@;
        match self.pending.take() {
            None => {},
            Some(p) => {
                if let Some(bytes) = plain {
                    if let Ok(tree) = Tree::try_from(bytes.as_slice()) {
                        let ghost entries = tree@;
                        let ghost prefix = p.prefix@;
                        self.stack.push(Frame { tree, prefix: p.prefix, next: 0 });
                        assert(frames_view(self.stack@) =~= w.stack.push(
                            FrameView { entries, prefix, next: 0 },
                        ));
                    }
                }
            },
        }
    }

    /// Hands the listing the stored bytes of the pending directory, or
    /// `None` where the store has none.
    pub fn supply(&mut self, stored: Option<&[u8]>)
        ensures
            final(self)@ == supplied(
                old(self)@,
                inflated(
                    match stored {
                        Some(v) => Some(v@),
                        None => None,
                    },
                ),
            ),
    {
        let plain = match stored {
            None => None,
            Some(bytes) => match decompress(bytes) {
                Ok(v) => Some(v),
                Err(_) => None,
            },
        };
        self.supply_inflated(plain)
    }
}

} // verus!
