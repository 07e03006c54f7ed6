//! The canonical byte form shared by all objects: a keyword, a space, the
//! length of the body in decimal, a NUL byte, and the body.

use crate::hash::{hashable, HASH_LIMIT};
use crate::numeral::{
    count_digits, digits, digits_len, leading_digits, lemma_digits_are_digits, lemma_leading_digits,
    lemma_leading_digits_of_concat, lemma_value_of_digits, push_digits, read_digits, value,
};
use vstd::prelude::*;

verus! {

/// Why bytes are not the encoding of an object.
#[derive(Debug, Clone, Copy, PartialEq, Eq, Structural)]
pub enum ParseError {
    /// The header or the body is malformed.
    FormatError,
    /// Bytes follow the body that the header declared.
    LengthMismatch,
}

/// The keyword of a blob, `blob`.
pub const BLOB_TAG: [u8; 4] = [98, 108, 111, 98];

/// The keyword of a tree, `tree`.
pub const TREE_TAG: [u8; 4] = [116, 114, 101, 101];

/// The header that announces a body of `len` bytes.
pub open spec fn header(tag: Seq<u8>, len: nat) -> Seq<u8> {
    tag.push(32u8) + digits(len, 10).push(0u8)
}

/// A body behind its header.
pub open spec fn framed(tag: Seq<u8>, body: Seq<u8>) -> Seq<u8> {
    header(tag, body.len()) + body
}

/// The length of a framed body of `len` bytes: the keyword, the space, the
/// digits of `len`, the NUL byte, and the body.
pub open spec fn framed_len(len: nat) -> nat {
    6 + digits(len, 10).len() + len
}

/// A body behind the header of a keyword of four letters has the framed
/// length of its own length.
pub proof fn lemma_framed_len(tag: Seq<u8>, body: Seq<u8>)
    requires
        tag.len() == 4,
    ensures
        framed(tag, body).len() == framed_len(body.len()),
{
}

/// Whether a framed body of `len` bytes is short enough to be hashed.
pub fn framed_fits(len: u64) -> (ok: bool)
    ensures
        ok == hashable(framed_len(len as nat)),
{
    len < HASH_LIMIT && 6 + digits_len(len, 10) + len < HASH_LIMIT
}

/// What the header at the start of `s` declares: the length of the body, and
/// where the body starts. `None` where `s` does not start with the keyword, a
/// space, at least one decimal digit and a NUL byte.
pub open spec fn declared(tag: Seq<u8>, s: Seq<u8>) -> Option<(nat, int)> {
    let p = tag.len() as int + 1;
    let n = leading_digits(s.skip(p), 10) as int;
    if s.len() >= p && s.take(p) == tag.push(32u8) && n >= 1 && s.len() > p + n && s[p + n] == 0 {
        Some((value(s.subrange(p, p + n), 10), p + n + 1))
    } else {
        None
    }
}

/// The body of a framed byte string. A malformed header, or a body shorter
/// than declared, is a format error; bytes after the declared body are a
/// length mismatch.
pub open spec fn unframed(tag: Seq<u8>, s: Seq<u8>) -> Result<Seq<u8>, ParseError> {
    match declared(tag, s) {
        None => Err(ParseError::FormatError),
        Some((len, start)) => if s.len() - start < len {
            Err(ParseError::FormatError)
        } else if s.len() - start > len {
            Err(ParseError::LengthMismatch)
        } else {
            Ok(s.skip(start))
        },
    }
}

/// The header of a framed body declares the length of that body, and the
/// body starts right behind it.
pub proof fn lemma_declared_of_framed(tag: Seq<u8>, body: Seq<u8>, tail: Seq<u8>)
    ensures
        declared(tag, framed(tag, body) + tail) == Some(
            (body.len(), header(tag, body.len()).len() as int),
        ),
{
    let d = digits(body.len(), 10);
    let s = framed(tag, body) + tail;
    let p = tag.len() as int + 1;
    let rest = seq![0u8] + body + tail;
    lemma_digits_are_digits(body.len(), 10);
    lemma_value_of_digits(body.len(), 10);
    assert(s.take(p) =~= tag.push(32u8));
    assert(s.skip(p) =~= d + rest);
    lemma_leading_digits_of_concat(d, rest, 10);
    assert(s.subrange(p, p + d.len()) =~= d);
}

/// Taking the frame off a framed body gives the body back.
pub proof fn lemma_unframed_framed(tag: Seq<u8>, body: Seq<u8>)
    ensures
        unframed(tag, framed(tag, body)) == Ok::<Seq<u8>, ParseError>(body),
{
    lemma_declared_of_framed(tag, body, Seq::<u8>::empty());
    let s = framed(tag, body);
    assert(s.skip(header(tag, body.len()).len() as int) =~= body);
}

/// A framed body with anything behind it is a length mismatch.
pub proof fn lemma_trailing_bytes(tag: Seq<u8>, body: Seq<u8>, tail: Seq<u8>)
    requires
        tail.len() > 0,
    ensures
        unframed(tag, framed(tag, body) + tail) == Err::<Seq<u8>, ParseError>(
            ParseError::LengthMismatch,
        ),
{
    lemma_declared_of_framed(tag, body, tail);
}

/// Appends the header for a body of `len` bytes to `f`.
pub fn write_header(f: &mut Vec<u8>, tag: &[u8; 4], len: usize)
    ensures
        final(f)@ == old(f)@ + header(tag@, len as nat),
{
    f.push(tag[0]);
    f.push(tag[1]);
    f.push(tag[2]);
    f.push(tag[3]);
    f.push(32);
    push_digits(f, len as u64, 10);
    f.push(0);
}

/// Appends a copy of `bytes` to `f`.
pub fn write_bytes(f: &mut Vec<u8>, bytes: &[u8])
    ensures
        final(f)@ == old(f)@ + bytes@,
{
    let mut i: usize = 0;
    while i < bytes.len()
        invariant
            i <= bytes@.len(),
            f@ == old(f)@ + bytes@.take(i as int),
        decreases bytes@.len() - i,
    {
        f.push(bytes[i]);
        i += 1;
    }
}

/// A copy of a byte string.
pub fn copy_bytes(bytes: &[u8]) -> (copy: Vec<u8>)
    ensures
        copy@ == bytes@,
{
    let mut copy: Vec<u8> = Vec::new();
    write_bytes(&mut copy, bytes);
    copy
}

/// Reads the header at the start of `s` and finds the body: on success the
/// place where the body starts, which then runs to the end of `s`.
pub fn read_frame(tag: &[u8; 4], s: &[u8]) -> (r: Result<usize, ParseError>)
    ensures
        match r {
            Ok(start) => start <= s@.len() && unframed(tag@, s@) == Ok::<Seq<u8>, ParseError>(
                s@.skip(start as int),
            ),
            Err(e) => unframed(tag@, s@) == Err::<Seq<u8>, ParseError>(e),
        },
{
    if s.len() < 5 {
        return Err(ParseError::FormatError);
    }
    if s[0] != tag[0] || s[1] != tag[1] || s[2] != tag[2] || s[3] != tag[3] || s[4] != 32 {
        proof {
            let want = tag@.push(32u8);
            assert(want[0] == tag@[0] && want[1] == tag@[1] && want[2] == tag@[2] && want[3]
                == tag@[3] && want[4] == 32);
        }
        return Err(ParseError::FormatError);
    }
    assert(s@.take(5) =~= tag@.push(32u8));
    let n = count_digits(s, 5, 10);
    if n == 0 || 5 + n >= s.len() || s[5 + n] != 0 {
        return Err(ParseError::FormatError);
    }
    proof {
        lemma_leading_digits(s@.skip(5), 10);
        assert(s@.subrange(5, 5 + n) =~= s@.skip(5).take(n as int));
    }
    let start = 5 + n + 1;
    let left = s.len() - start;
    match read_digits(s, 5, 5 + n, 10) {
        None => Err(ParseError::FormatError),
        Some(len) => {
            if (left as u64) < len {
                Err(ParseError::FormatError)
            } else if (left as u64) > len {
                Err(ParseError::LengthMismatch)
            } else {
                Ok(start)
            }
        },
    }
}

} // verus!
