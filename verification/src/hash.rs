//! The 20-byte content hash and its textual forms.

use crate::stream::Writeable;
use sha1::{Digest, Sha1};
use std::str::FromStr;
use vstd::prelude::*;
use vstd::string::StringExecFns;
use vstd::utf8::encode_utf8;

verus! {

/// The SHA-1 digest of a byte string, as the `sha1` crate computes it.
pub uninterp spec fn sha1_digest(data: Seq<u8>) -> Seq<u8>;

/// The digest counts its input in bits in a 64-bit field, so only inputs of
/// fewer than 2^61 bytes are hashed.
pub const HASH_LIMIT: u64 = 0x2000_0000_0000_0000;

/// Whether a byte string of the given length is short enough to be hashed.
pub open spec fn hashable(len: nat) -> bool {
    len < HASH_LIMIT
}

/// Runs `Sha1::new`, `update` and `finalize` of the `sha1` crate over `data`.
/// Trusted: the twenty bytes that come back are the SHA-1 digest of `data`,
/// a function of the input alone.
#[verifier::external_body]
fn digest_of(data: &[u8]) -> (digest: [u8; 20])
    requires
        hashable(data@.len()),
    ensures
        digest@ == sha1_digest(data@),
{
    let mut hasher = Sha1::new();
    hasher.update(data);
    hasher.finalize().into()
}

/// A 20-byte digest that names an object.
#[derive(Clone, Copy, Debug)]
pub struct Hash {
    buf: [u8; 20],
}

/// Why a text is not the hex form of a hash.
#[derive(Debug, Clone, Copy, PartialEq, Eq, Structural)]
pub enum HashError {
    /// The text is not 40 bytes long.
    WrongLength,
    /// The text holds this character, which is no lower-case hex digit.
    UnexpectedChar(char),
}

/// The lower-case hex digit for a value below sixteen.
pub open spec fn hex_char(n: u8) -> char {
    if n < 10 {
        ((48 + n) as u8) as char
    } else {
        ((87 + n) as u8) as char
    }
}

/// The value of a lower-case hex digit; `None` for any other character.
pub open spec fn hex_value(c: char) -> Option<u8> {
    if '0' <= c <= '9' {
        Some((c as u8 - 48) as u8)
    } else if 'a' <= c <= 'f' {
        Some((c as u8 - 87) as u8)
    } else {
        None
    }
}

/// Bytes in lower-case hex, two digits each, the high half first.
pub open spec fn hex_text(bytes: Seq<u8>) -> Seq<char> {
    Seq::new(
        2 * bytes.len(),
        |i: int|
            hex_char(
                if i % 2 == 0 {
                    bytes[i / 2] / 16
                } else {
                    bytes[i / 2] % 16
                },
            ),
    )
}

/// How many hex digits stand at the start of `s`: the place of the first
/// character that is none, or the length of `s`.
pub open spec fn leading_hex(s: Seq<char>) -> nat
    decreases s.len(),
{
    if s.len() > 0 && hex_value(s[0]) is Some {
        1 + leading_hex(s.drop_first())
    } else {
        0
    }
}

/// The bytes that 2 * `count` hex digits stand for.
pub open spec fn hex_bytes(s: Seq<char>, count: nat) -> Seq<u8> {
    Seq::new(count, |i: int| (hex_value(s[2 * i])->0 * 16 + hex_value(s[2 * i + 1])->0) as u8)
}

/// What reading a text as a hash gives. The length is counted in bytes of
/// UTF-8 and comes first; then the first character that is no hex digit is
/// reported; a text of forty hex digits gives its twenty bytes.
pub open spec fn parse_hex(s: Seq<char>) -> Result<Seq<u8>, HashError> {
    if encode_utf8(s).len() != 40 {
        Err(HashError::WrongLength)
    } else if leading_hex(s) < s.len() {
        Err(HashError::UnexpectedChar(s[leading_hex(s) as int]))
    } else {
        Ok(hex_bytes(s, 20))
    }
}

/// The storage address of a hash in text: the first two hex digits, a slash,
/// and the other thirty-eight.
pub open spec fn address_text(bytes: Seq<u8>) -> Seq<char> {
    hex_text(bytes).take(2) + seq!['/'] + hex_text(bytes).skip(2)
}

/// The same bytes have the same digest; so bytes with different digests are
/// different bytes. (The converse is not claimed: different bytes with the
/// same digest exist, few as they are.)
pub proof fn lemma_content_addressing(b1: Seq<u8>, b2: Seq<u8>)
    ensures
        b1 == b2 ==> sha1_digest(b1) == sha1_digest(b2),
        sha1_digest(b1) != sha1_digest(b2) ==> b1 != b2,
{
}

/// A text that does not take forty bytes is refused for its length, whatever
/// it holds; the empty text is one such.
pub proof fn lemma_parse_hex_wrong_length(s: Seq<char>)
    requires
        encode_utf8(s).len() != 40,
    ensures
        parse_hex(s) == Err::<Seq<u8>, HashError>(HashError::WrongLength),
        parse_hex(Seq::<char>::empty()) == Err::<Seq<u8>, HashError>(HashError::WrongLength),
{
}

/// A hex digit is read back as the value it was written for.
pub proof fn lemma_hex_value_of_hex_char(n: u8)
    requires
        n < 16,
    ensures
        hex_value(hex_char(n)) == Some(n),
        '\0' <= hex_char(n) <= '\u{7f}',
{
}

/// Where `s` holds hex digits up to `k` and none at `k`, `k` is the count of
/// its leading hex digits.
pub proof fn lemma_leading_hex(s: Seq<char>, k: int)
    requires
        0 <= k <= s.len(),
        forall|j: int| 0 <= j < k ==> hex_value(#[trigger] s[j]) is Some,
        k < s.len() ==> hex_value(s[k]) is None,
    ensures
        leading_hex(s) == k,
    decreases k,
{
    if k > 0 {
        let t = s.drop_first();
        lemma_leading_hex(t, k - 1);
    }
}

/// A text has no more characters than its UTF-8 form has bytes.
pub proof fn lemma_chars_within_bytes(s: Seq<char>)
    ensures
        s.len() <= encode_utf8(s).len(),
    decreases s.len(),
{
    if s.len() > 0 {
        lemma_chars_within_bytes(s.drop_first());
    }
}

/// A text of hex digits alone takes one byte for each character.
pub proof fn lemma_hex_text_is_ascii(s: Seq<char>)
    requires
        forall|j: int| 0 <= j < s.len() ==> hex_value(#[trigger] s[j]) is Some,
    ensures
        encode_utf8(s).len() == s.len(),
{
    assert(vstd::utf8::is_ascii_chars(s)) by {
        assert forall|i: int| 0 <= i < s.len() implies '\0' <= #[trigger] s[i] <= '\u{7f}' by {
        }
    }
    vstd::utf8::is_ascii_chars_encode_utf8(s);
}

/// Reading the hex form of twenty bytes gives those bytes back.
pub proof fn lemma_parse_hex_of_hex_text(bytes: Seq<u8>)
    requires
        bytes.len() == 20,
    ensures
        parse_hex(hex_text(bytes)) == Ok::<Seq<u8>, HashError>(bytes),
{
    let s = hex_text(bytes);
    assert forall|j: int| 0 <= j < s.len() implies hex_value(#[trigger] s[j]) is Some by {
        lemma_hex_value_of_hex_char(bytes[j / 2] / 16);
        lemma_hex_value_of_hex_char(bytes[j / 2] % 16);
    }
    lemma_hex_text_is_ascii(s);
    lemma_leading_hex(s, 40);
    assert forall|i: int| 0 <= i < 20 implies #[trigger] hex_bytes(s, 20)[i] == bytes[i] by {
        lemma_hex_value_of_hex_char(bytes[i] / 16);
        lemma_hex_value_of_hex_char(bytes[i] % 16);
    }
    assert(hex_bytes(s, 20) =~= bytes);
}

/// The value of one hex digit, or the error that names the character.
fn to_nibble(ch: char) -> (r: Result<u8, HashError>)
    ensures
        match hex_value(ch) {
            Some(v) => r == Ok::<u8, HashError>(v),
            None => r == Err::<u8, HashError>(HashError::UnexpectedChar(ch)),
        },
        r matches Ok(v) ==> v < 16,
{
    if '0' <= ch && ch <= '9' {
        Ok((ch as u8) - 48)
    } else if 'a' <= ch && ch <= 'f' {
        Ok((ch as u8) - 87)
    } else {
        Err(HashError::UnexpectedChar(ch))
    }
}

/// The hex digit for a value below sixteen, as a text of one character.
fn hex_digit(n: u8) -> (r: &'static str)
    requires
        n < 16,
    ensures
        r@ == seq![hex_char(n)],
{
    proof {
        reveal_strlit("0");
        reveal_strlit("1");
        reveal_strlit("2");
        reveal_strlit("3");
        reveal_strlit("4");
        reveal_strlit("5");
        reveal_strlit("6");
        reveal_strlit("7");
        reveal_strlit("8");
        reveal_strlit("9");
        reveal_strlit("a");
        reveal_strlit("b");
        reveal_strlit("c");
        reveal_strlit("d");
        reveal_strlit("e");
        reveal_strlit("f");
    }
    let r = match n {
        0 => "0",
        1 => "1",
        2 => "2",
        3 => "3",
        4 => "4",
        5 => "5",
        6 => "6",
        7 => "7",
        8 => "8",
        9 => "9",
        10 => "a",
        11 => "b",
        12 => "c",
        13 => "d",
        14 => "e",
        _ => "f",
    };
    r
}

impl View for Hash {
    type V = Seq<u8>;

    /// The twenty bytes of the digest, in order.
    closed spec fn view(&self) -> Seq<u8> {
        self.buf@
    }
}

impl Writeable for Hash {
    open spec fn written(&self) -> Option<Seq<u8>> {
        Some(self@)
    }

    /// Writes the twenty bytes of the hash as they are.
    fn fmt(&self, f: &mut Vec<u8>) -> (r: Result<(), crate::stream::StoreError>) {
        crate::codec::write_bytes(f, self.buf.as_slice());
        Ok(())
    }
}

impl Hash {
    /// A hash always holds exactly twenty bytes.
    pub proof fn lemma_len(self)
        ensures
            self@.len() == 20,
    {
    }

    /// Takes the digest from raw bytes; any length but twenty is refused.
    pub fn from_raw(b: &[u8]) -> (r: Option<Self>)
        ensures
            match r {
                Some(h) => b@.len() == 20 && h@ == b@,
                None => b@.len() != 20,
            },
    {
        if b.len() != 20 {
            return None;
        }
        let mut buf = [0u8; 20];
        let mut i: usize = 0;
        while i < 20
            invariant
                i <= 20,
                b@.len() == 20,
                forall|j: int| 0 <= j < i ==> buf@[j] == b@[j],
            decreases 20 - i,
        {
            buf[i] = b[i];
            i += 1;
        }
        Some(Hash { buf })
    }

    /// The hash of a byte string: its SHA-1 digest.
    pub fn from_bytes(b: &[u8]) -> (h: Self)
        requires
            hashable(b@.len()),
        ensures
            h@ == sha1_digest(b@),
    {
        let buf = digest_of(b);
        Hash { buf }
    }

    /// The hash of what a value writes.
    pub fn from_writable<W: Writeable>(x: W) -> (h: Self)
        requires
            x.written() matches Some(bytes) && hashable(bytes.len()),
        ensures
            h@ == sha1_digest(x.written()->0),
    {
        let mut buf: Vec<u8> = Vec::new();
        let _ = x.fmt(&mut buf);
        Hash::from_bytes(buf.as_slice())
    }

    /// The hash of what a value writes, or `None` where it writes nothing or
    /// more than can be hashed.
    pub fn checked_from_writable<W: Writeable>(x: W) -> (r: Option<Self>)
        ensures
            match r {
                Some(h) => x.written() matches Some(bytes) && hashable(bytes.len()) && h@
                    == sha1_digest(bytes),
                None => !(x.written() matches Some(bytes) && hashable(bytes.len())),
            },
    {
        let mut buf: Vec<u8> = Vec::new();
        match (&x).fmt(&mut buf) {
            Err(_) => None,
            Ok(()) => {
                if (buf.len() as u64) < HASH_LIMIT {
                    Some(Hash::from_writable(x))
                } else {
                    None
                }
            },
        }
    }

    /// Reads a hash from its hex form: forty lower-case hex digits.
    pub fn parse(text: &str) -> (r: Result<Self, HashError>)
        ensures
            match r {
                Ok(h) => parse_hex(text@) == Ok::<Seq<u8>, HashError>(h@),
                Err(e) => parse_hex(text@) == Err::<Seq<u8>, HashError>(e),
            },
    {
        if text.as_bytes().len() != 40 {
            return Err(HashError::WrongLength);
        }
        let n = text.unicode_len();
        proof {
            lemma_chars_within_bytes(text@);
        }
        let mut i: usize = 0;
        while i < n
            invariant
                i <= n,
                n == text@.len(),
                n <= 40,
                encode_utf8(text@).len() == 40,
                forall|j: int| 0 <= j < i ==> hex_value(#[trigger] text@[j]) is Some,
            decreases n - i,
        {
            match to_nibble(text.get_char(i)) {
                Ok(_) => {},
                Err(e) => {
                    proof {
                        lemma_leading_hex(text@, i as int);
                    }
                    return Err(e);
                },
            }
            i += 1;
        }
        proof {
            lemma_leading_hex(text@, n as int);
            lemma_hex_text_is_ascii(text@);
        }
        let mut buf = [0u8; 20];
        let mut k: usize = 0;
        while k < 20
            invariant
                k <= 20,
                text@.len() == 40,
                forall|j: int| 0 <= j < 40 ==> hex_value(#[trigger] text@[j]) is Some,
                forall|j: int| 0 <= j < k ==> buf@[j] == hex_bytes(text@, 20)[j],
            decreases 20 - k,
        {
            let first = to_nibble(text.get_char(2 * k));
            let second = to_nibble(text.get_char(2 * k + 1));
            match (first, second) {
                (Ok(hi), Ok(lo)) => {
                    buf[k] = hi * 16 + lo;
                },
                _ => {
                    assert(false);
                },
            }
            k += 1;
        }
        assert(buf@ =~= hex_bytes(text@, 20));
        Ok(Hash { buf })
    }

    /// The hash in lower-case hex: forty characters.
    pub fn to_hex(&self) -> (s: String)
        ensures
            s@ == hex_text(self@),
    {
        let mut s = String::new();
        let mut i: usize = 0;
        while i < 20
            invariant
                i <= 20,
                s@ == hex_text(self@.take(i as int)),
            decreases 20 - i,
        {
            let b = self.buf[i];
            s.append(hex_digit(b / 16));
            s.append(hex_digit(b % 16));
            assert(s@ =~= hex_text(self@.take(i + 1)));
            i += 1;
        }
        s
    }

    /// The storage address of the object: `xx/yyyy...`, the shard directory
    /// and the file in it.
    pub fn object_path(&self) -> (path: String)
        ensures
            path@ == address_text(self@),
    {
        let hex = self.to_hex();
        let ghost h = hex@;
        proof {
            reveal_strlit("/");
            assert forall|j: int| 0 <= j < h.len() implies '\0' <= #[trigger] h[j] <= '\u{7f}' by {
                lemma_hex_value_of_hex_char(self@[j / 2] / 16);
                lemma_hex_value_of_hex_char(self@[j / 2] % 16);
            }
        }
        let mut path = String::new();
        path.append(hex.as_str().substring_ascii(0, 2));
        path.append("/");
        path.append(hex.as_str().substring_ascii(2, 40));
        path
    }

    /// The shard directory of the object: the first two hex digits.
    pub fn dir(&self) -> (dir: String)
        ensures
            dir@ == hex_text(self@).take(2),
    {
        let mut dir = String::new();
        let b = self.buf[0];
        dir.append(hex_digit(b / 16));
        dir.append(hex_digit(b % 16));
        dir
    }

    /// The two parts of the storage address: the shard directory and the
    /// name of the file in it.
    pub fn storage_address(&self) -> (parts: (String, String))
        ensures
            parts.0@ == hex_text(self@).take(2),
            parts.1@ == hex_text(self@).skip(2),
    {
        let hex = self.to_hex();
        let ghost h = hex@;
        proof {
            assert forall|j: int| 0 <= j < h.len() implies '\0' <= #[trigger] h[j] <= '\u{7f}' by {
                lemma_hex_value_of_hex_char(self@[j / 2] / 16);
                lemma_hex_value_of_hex_char(self@[j / 2] % 16);
            }
        }
        let prefix = hex.as_str().substring_ascii(0, 2).to_owned();
        let suffix = hex.as_str().substring_ascii(2, 40).to_owned();
        (prefix, suffix)
    }

    /// The twenty bytes of the hash.
    pub fn as_bytes(&self) -> (b: &[u8])
        ensures
            b@ == self@,
    {
        self.buf.as_slice()
    }
}

impl FromStr for Hash {
    type Err = HashError;

    /// Reads a hash from its hex form, as [`Hash::parse`] does.
    fn from_str(s: &str) -> (r: Result<Self, HashError>)
        ensures
            match r {
                Ok(h) => parse_hex(s@) == Ok::<Seq<u8>, HashError>(h@),
                Err(e) => parse_hex(s@) == Err::<Seq<u8>, HashError>(e),
            },
    {
        Hash::parse(s)
    }
}

} // verus!
