//! Trees: ordered lists of named, permission-tagged references to objects.

use crate::codec::{
    copy_bytes, framed, lemma_trailing_bytes, lemma_unframed_framed, read_frame, unframed,
    write_bytes, write_header, ParseError, TREE_TAG,
};
use crate::numeral::{
    count_digits, leading_digits, lemma_digits_are_digits, lemma_leading_digits,
    lemma_leading_digits_of_concat, lemma_value_of_digits, push_digits, read_digits, value,
};
use crate::perms::Perms;
use crate::stream::{ReadError, Readable, StoreError, Writeable};
use vstd::prelude::*;
use vstd::slice::slice_subrange;

verus! {

/// What a tree entry holds, as plain values.
pub struct EntryView {
    pub perms: Perms,
    pub name: Seq<u8>,
    pub hash: Seq<u8>,
}

/// Whether an entry can be told apart from its neighbours once encoded: its
/// hash has twenty bytes, and its name holds no NUL byte, which ends a name.
pub open spec fn well_formed(e: EntryView) -> bool {
    e.hash.len() == 20 && forall|i: int| 0 <= i < e.name.len() ==> #[trigger] e.name[i] != 0
}

/// Whether every entry of a list is well formed.
pub open spec fn all_well_formed(es: Seq<EntryView>) -> bool {
    forall|i: int| 0 <= i < es.len() ==> well_formed(#[trigger] es[i])
}

/// The bytes of one entry: the permission code in base eight, a space, the
/// name, a NUL byte, and the twenty bytes of the hash.
pub open spec fn entry_encoding(e: EntryView) -> Seq<u8> {
    e.perms.rendered().push(32u8) + e.name.push(0u8) + e.hash
}

/// The bytes of a list of entries: one after the other, in order.
pub open spec fn entries_encoding(es: Seq<EntryView>) -> Seq<u8>
    decreases es.len(),
{
    if es.len() == 0 {
        Seq::empty()
    } else {
        entry_encoding(es[0]) + entries_encoding(es.drop_first())
    }
}

/// The canonical bytes of a tree with the given entries.
pub open spec fn tree_encoding(es: Seq<EntryView>) -> Seq<u8> {
    framed(TREE_TAG@, entries_encoding(es))
}

/// The place of the first NUL byte in `s`, or the length of `s` if it holds
/// none.
pub open spec fn first_nul(s: Seq<u8>) -> nat
    decreases s.len(),
{
    if s.len() == 0 || s[0] == 0 {
        0
    } else {
        1 + first_nul(s.drop_first())
    }
}

/// The entry at the start of `s`, and how many bytes it takes: one to ten
/// octal digits that spell one of the four permission codes, a space, the
/// name up to the next NUL byte, and twenty bytes of hash.
#[verifier::opaque]
pub open spec fn parse_entry(s: Seq<u8>) -> Option<(EntryView, int)> {
    let n = leading_digits(s, 8) as int;
    if 1 <= n <= 10 && s.len() > n && s[n] == 32 {
        match Perms::spec_from_code(value(s.take(n), 8)) {
            None => None,
            Some(perms) => {
                let k = n + 1 + first_nul(s.skip(n + 1));
                if s.len() - k > 20 {
                    Some(
                        (
                            EntryView {
                                perms,
                                name: s.subrange(n + 1, k),
                                hash: s.subrange(k + 1, k + 21),
                            },
                            k + 21,
                        ),
                    )
                } else {
                    None
                }
            },
        }
    } else {
        None
    }
}

/// The entries that `s` holds from end to end; `None` where some entry is
/// malformed or cut short.
pub open spec fn parse_entries(s: Seq<u8>) -> Option<Seq<EntryView>>
    decreases s.len(),
{
    if s.len() == 0 {
        Some(Seq::empty())
    } else {
        match parse_entry(s) {
            None => None,
            Some((e, used)) => if 0 < used <= s.len() {
                match parse_entries(s.skip(used)) {
                    None => None,
                    Some(rest) => Some(seq![e] + rest),
                }
            } else {
                None
            },
        }
    }
}

/// The entries of the tree that `bytes` encode.
pub open spec fn decode_tree(bytes: Seq<u8>) -> Result<Seq<EntryView>, ParseError> {
    match unframed(TREE_TAG@, bytes) {
        Err(e) => Err(e),
        Ok(body) => match parse_entries(body) {
            None => Err(ParseError::FormatError),
            Some(es) => Ok(es),
        },
    }
}

/// Where `s` holds no NUL byte before `k` and one at `k` (or ends there),
/// `k` is the place of its first NUL byte.
pub proof fn lemma_first_nul(s: Seq<u8>, k: int)
    requires
        0 <= k <= s.len(),
        forall|j: int| 0 <= j < k ==> #[trigger] s[j] != 0,
        k < s.len() ==> s[k] == 0,
    ensures
        first_nul(s) == k,
    decreases k,
{
    if k > 0 {
        let t = s.drop_first();
        lemma_first_nul(t, k - 1);
    }
}

/// The encoding of a list with one more entry at its end is the encoding of
/// the list followed by that of the entry.
pub proof fn lemma_entries_encoding_push(es: Seq<EntryView>, e: EntryView)
    ensures
        entries_encoding(es.push(e)) == entries_encoding(es) + entry_encoding(e),
    decreases es.len(),
{
    let all = es.push(e);
    if es.len() == 0 {
        assert(entries_encoding(all.drop_first()) =~= Seq::<u8>::empty());
    } else {
        assert(all.drop_first() =~= es.drop_first().push(e));
        lemma_entries_encoding_push(es.drop_first(), e);
    }
}

/// A well-formed entry is read back from its encoding, whatever follows it.
pub proof fn lemma_parse_entry_of_encoding(e: EntryView, tail: Seq<u8>)
    requires
        well_formed(e),
    ensures
        parse_entry(entry_encoding(e) + tail) == Some((e, entry_encoding(e).len() as int)),
{
    reveal(parse_entry);
    let code = e.perms.rendered();
    let s = entry_encoding(e) + tail;
    let n = code.len() as int;
    let after = seq![32u8] + e.name.push(0u8) + e.hash + tail;
    e.perms.lemma_rendered();
    lemma_digits_are_digits(e.perms.spec_code() as nat, 8);
    lemma_value_of_digits(e.perms.spec_code() as nat, 8);
    assert(s =~= code + after);
    lemma_leading_digits_of_concat(code, after, 8);
    assert(s.take(n) =~= code);
    let rest = s.skip(n + 1);
    lemma_first_nul(rest, e.name.len() as int);
    let k = n + 1 + e.name.len();
    assert(s.subrange(n + 1, k) =~= e.name);
    assert(s.subrange(k + 1, k + 21) =~= e.hash);
}

/// A list of well-formed entries is read back from its encoding, entry by
/// entry and in the same order.
pub proof fn lemma_entries_round_trip(es: Seq<EntryView>)
    requires
        all_well_formed(es),
    ensures
        parse_entries(entries_encoding(es)) == Some(es),
    decreases es.len(),
{
    if es.len() > 0 {
        let s = entries_encoding(es);
        let rest = es.drop_first();
        let used = entry_encoding(es[0]).len() as int;
        lemma_parse_entry_of_encoding(es[0], entries_encoding(rest));
        lemma_entries_round_trip(rest);
        assert(s.skip(used) =~= entries_encoding(rest));
    }
}

/// Decoding the encoding of a tree gives its entries back, the same entries
/// in the same order, provided each is well formed.
pub proof fn lemma_tree_round_trip(es: Seq<EntryView>)
    requires
        all_well_formed(es),
    ensures
        decode_tree(tree_encoding(es)) == Ok::<Seq<EntryView>, ParseError>(es),
{
    lemma_unframed_framed(TREE_TAG@, entries_encoding(es));
    lemma_entries_round_trip(es);
}

/// No byte before the first NUL byte is a NUL byte.
pub proof fn lemma_before_first_nul(s: Seq<u8>, j: int)
    requires
        0 <= j < first_nul(s),
    ensures
        first_nul(s) <= s.len(),
        s[j] != 0,
    decreases s.len(),
{
    if j > 0 {
        lemma_before_first_nul(s.drop_first(), j - 1);
    } else {
        lemma_first_nul_within(s);
    }
}

/// The first NUL byte lies within the string, or at its end if there is
/// none.
pub proof fn lemma_first_nul_within(s: Seq<u8>)
    ensures
        first_nul(s) <= s.len(),
    decreases s.len(),
{
    if s.len() > 0 && s[0] != 0 {
        lemma_first_nul_within(s.drop_first());
    }
}

/// The entries that are read from bytes are well formed, so that they are
/// read back from their own encoding.
pub proof fn lemma_parsed_entries_well_formed(s: Seq<u8>)
    requires
        parse_entries(s) is Some,
    ensures
        all_well_formed(parse_entries(s)->0),
    decreases s.len(),
{
    if s.len() > 0 {
        reveal(parse_entry);
        let (e, used) = parse_entry(s)->0;
        lemma_parsed_entries_well_formed(s.skip(used));
        let n = leading_digits(s, 8) as int;
        let tail = s.skip(n + 1);
        lemma_first_nul_within(tail);
        assert forall|i: int| 0 <= i < e.name.len() implies #[trigger] e.name[i] != 0 by {
            lemma_before_first_nul(tail, i);
        }
    }
}

/// What decoding gives is a tree that encoding and decoding give back.
pub proof fn lemma_decoded_tree_round_trip(bytes: Seq<u8>)
    requires
        decode_tree(bytes) is Ok,
    ensures
        decode_tree(tree_encoding(decode_tree(bytes)->Ok_0)) == decode_tree(bytes),
{
    let body = unframed(TREE_TAG@, bytes)->Ok_0;
    lemma_parsed_entries_well_formed(body);
    lemma_tree_round_trip(decode_tree(bytes)->Ok_0);
}

/// The encoding of a tree with anything behind it is refused as a length
/// mismatch.
pub proof fn lemma_tree_trailing_bytes(es: Seq<EntryView>, tail: Seq<u8>)
    requires
        tail.len() > 0,
    ensures
        decode_tree(tree_encoding(es) + tail) == Err::<Seq<EntryView>, ParseError>(
            ParseError::LengthMismatch,
        ),
{
    lemma_trailing_bytes(TREE_TAG@, entries_encoding(es), tail);
}

/// Trees of well-formed entries with the same encoding have the same
/// entries.
pub proof fn lemma_tree_encoding_injective(a: Seq<EntryView>, b: Seq<EntryView>)
    requires
        all_well_formed(a),
        all_well_formed(b),
        tree_encoding(a) == tree_encoding(b),
    ensures
        a == b,
{
    lemma_tree_round_trip(a);
    lemma_tree_round_trip(b);
}

/// One entry of a tree.
#[derive(Debug)]
pub struct TreeEntry {
    pub perms: Perms,
    pub name: Vec<u8>,
    pub hash: crate::hash::Hash,
}

impl View for TreeEntry {
    type V = EntryView;

    open spec fn view(&self) -> EntryView {
        EntryView { perms: self.perms, name: self.name@, hash: self.hash@ }
    }
}

impl Clone for TreeEntry {
    fn clone(&self) -> (copy: Self)
        ensures
            copy@ == self@,
    {
        TreeEntry { perms: self.perms, name: copy_bytes(self.name.as_slice()), hash: self.hash }
    }
}

/// The entries of a list, each as plain values.
pub open spec fn entries_view(entries: Seq<TreeEntry>) -> Seq<EntryView> {
    Seq::new(entries.len(), |i: int| entries[i]@)
}

impl TreeEntry {
    /// The entry that gives an object a name and a kind.
    pub fn new(perms: Perms, name: Vec<u8>, hash: crate::hash::Hash) -> (entry: Self)
        ensures
            entry@ == (EntryView { perms, name: name@, hash: hash@ }),
    {
        TreeEntry { perms, name, hash }
    }

    /// Appends the bytes of the entry to `f`.
    pub fn write(&self, f: &mut Vec<u8>)
        ensures
            final(f)@ == old(f)@ + entry_encoding(self@),
    {
        push_digits(f, self.perms.code() as u64, 8);
        f.push(32);
        write_bytes(f, self.name.as_slice());
        f.push(0);
        write_bytes(f, self.hash.as_bytes());
    }
}

/// Finds the first NUL byte of `s` at or after `from`; the length of `s` if
/// there is none.
fn find_nul(s: &[u8], from: usize) -> (at: usize)
    requires
        from <= s@.len(),
    ensures
        from <= at <= s@.len(),
        at - from == first_nul(s@.skip(from as int)),
{
    let mut at: usize = from;
    while at < s.len() && s[at] != 0
        invariant
            from <= at <= s@.len(),
            forall|j: int| from <= j < at ==> #[trigger] s@[j] != 0,
        decreases s@.len() - at,
    {
        at += 1;
    }
    proof {
        let t = s@.skip(from as int);
        lemma_first_nul(t, at - from);
    }
    at
}

/// Reads the entry that starts at `pos`, and says where the next one starts.
fn read_entry(s: &[u8], pos: usize) -> (r: Option<(TreeEntry, usize)>)
    requires
        pos <= s@.len(),
    ensures
        match r {
            Some((entry, next)) => pos < next <= s@.len() && parse_entry(s@.skip(pos as int))
                == Some((entry@, next - pos)),
            None => parse_entry(s@.skip(pos as int)) is None,
        },
{
    proof {
        reveal(parse_entry);
    }
    let ghost t = s@.skip(pos as int);
    let len = s.len();
    let n = count_digits(s, pos, 8);
    if n < 1 || n > 10 || pos + n >= len || s[pos + n] != 32 {
        return None;
    }
    proof {
        lemma_leading_digits(t, 8);
        assert(s@.subrange(pos as int, pos + n) =~= t.take(n as int));
    }
    let perms = match read_digits(s, pos, pos + n, 8) {
        None => {
            return None;
        },
        Some(code) => {
            if code > u32::MAX as u64 {
                return None;
            }
            match Perms::from_code(code as u32) {
                None => {
                    return None;
                },
                Some(perms) => perms,
            }
        },
    };
    let name_start = pos + n + 1;
    let nul = find_nul(s, name_start);
    proof {
        assert(t.skip(n + 1) =~= s@.skip(name_start as int));
    }
    if s.len() - nul <= 20 {
        return None;
    }
    let name = copy_bytes(slice_subrange(s, name_start, nul));
    let hash = match crate::hash::Hash::from_raw(slice_subrange(s, nul + 1, nul + 21)) {
        None => {
            return None;
        },
        Some(hash) => hash,
    };
    proof {
        let k = nul - pos;
        assert(name@ =~= t.subrange(n + 1, k));
        assert(hash@ =~= t.subrange(k + 1, k + 21));
    }
    Some((TreeEntry { perms, name, hash }, nul + 21))
}

/// An object that lists entries, in an order that is part of its identity.
#[derive(Debug)]
pub struct Tree {
    entries: Vec<TreeEntry>,
}

impl Clone for Tree {
    fn clone(&self) -> (copy: Self)
        ensures
            copy@ == self@,
    {
        let mut entries: Vec<TreeEntry> = Vec::new();
        let mut i: usize = 0;
        while i < self.entries.len()
            invariant
                i <= self.entries@.len(),
                entries@.len() == i,
                forall|j: int| 0 <= j < i ==> entries@[j]@ == self.entries@[j]@,
            decreases self.entries@.len() - i,
        {
            entries.push(self.entries[i].clone());
            i += 1;
        }
        Tree { entries }
    }
}

impl View for Tree {
    type V = Seq<EntryView>;

    /// The entries of the tree, in order.
    closed spec fn view(&self) -> Seq<EntryView> {
        entries_view(self.entries@)
    }
}

impl Tree {
    /// A tree with the given entries, in the given order.
    pub fn new(entries: Vec<TreeEntry>) -> (tree: Self)
        ensures
            tree@ == entries_view(entries@),
    {
        Tree { entries }
    }

    /// The entries of the tree, in order.
    pub fn entries(&self) -> (entries: &Vec<TreeEntry>)
        ensures
            entries_view(entries@) == self@,
    {
        &self.entries
    }

    /// Reads a tree from its canonical bytes.
    pub fn try_from(s: &[u8]) -> (r: Result<Self, ParseError>)
        ensures
            match r {
                Ok(tree) => decode_tree(s@) == Ok::<Seq<EntryView>, ParseError>(tree@),
                Err(e) => decode_tree(s@) == Err::<Seq<EntryView>, ParseError>(e),
            },
    {
        let start = match read_frame(&TREE_TAG, s) {
            Err(e) => {
                return Err(e);
            },
            Ok(start) => start,
        };
        let ghost body = s@.skip(start as int);
        let mut entries: Vec<TreeEntry> = Vec::new();
        let mut pos: usize = start;
        while pos < s.len()
            invariant
                start <= pos <= s@.len(),
                body == s@.skip(start as int),
                unframed(TREE_TAG@, s@) == Ok::<Seq<u8>, ParseError>(body),
                match parse_entries(s@.skip(pos as int)) {
                    None => parse_entries(body) is None,
                    Some(rest) => parse_entries(body) == Some(entries_view(entries@) + rest),
                },
            decreases s@.len() - pos,
        {
            match read_entry(s, pos) {
                None => {
                    return Err(ParseError::FormatError);
                },
                Some((entry, next)) => {
                    proof {
                        let t = s@.skip(pos as int);
                        assert(t.skip(next - pos) =~= s@.skip(next as int));
                    }
                    entries.push(entry);
                    pos = next;
                },
            }
        }
        Ok(Tree { entries })
    }
}

impl Writeable for Tree {
    open spec fn written(&self) -> Option<Seq<u8>> {
        Some(tree_encoding(self@))
    }

    fn fmt(&self, f: &mut Vec<u8>) -> (r: Result<(), StoreError>) {
        let mut body: Vec<u8> = Vec::new();
        let mut i: usize = 0;
        while i < self.entries.len()
            invariant
                i <= self.entries@.len(),
                body@ == entries_encoding(self@.take(i as int)),
            decreases self.entries@.len() - i,
        {
            self.entries[i].write(&mut body);
            proof {
                assert(self@.take(i + 1) =~= self@.take(i as int).push(self.entries@[i as int]@));
                lemma_entries_encoding_push(self@.take(i as int), self.entries@[i as int]@);
            }
            i += 1;
        }
        assert(self@.take(self@.len() as int) =~= self@);
        write_header(f, &TREE_TAG, body.len());
        write_bytes(f, body.as_slice());
        Ok(())
    }
}

impl Readable for Tree {
    type Error = ParseError;

    open spec fn decoded(bytes: Seq<u8>) -> Result<Seq<EntryView>, ParseError> {
        decode_tree(bytes)
    }

    fn read(r: &[u8]) -> (res: Result<Self, ReadError<ParseError>>) {
        match Tree::try_from(r) {
            Ok(tree) => Ok(tree),
            Err(e) => Err(ReadError::ParseError(e)),
        }
    }
}

} // verus!
