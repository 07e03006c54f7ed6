//! Numbers written as ASCII digits, in base ten for lengths and base eight
//! for permission codes.

use vstd::prelude::*;

verus! {

/// The ASCII digit that stands for `d`.
pub open spec fn digit_byte(d: nat) -> u8 {
    (48 + d) as u8
}

/// Whether `b` is an ASCII digit of the given base.
pub open spec fn is_digit(b: u8, base: nat) -> bool {
    48 <= b < 48 + base
}

/// Whether a base is one whose digits are all among `0`..`9`.
pub open spec fn valid_base(base: nat) -> bool {
    2 <= base <= 10
}

/// `n` written in the given base: most significant digit first, no leading
/// zeros, and a single `0` for zero.
pub open spec fn digits(n: nat, base: nat) -> Seq<u8>
    decreases n,
{
    if base < 2 || n < base {
        seq![digit_byte(n)]
    } else {
        proof {
            lemma_quotient_smaller(n, base);
        }
        digits(n / base, base).push(digit_byte(n % base))
    }
}

/// Dividing a number by a base of two or more makes it smaller, and a number
/// no smaller than the base leaves a quotient above zero.
pub proof fn lemma_quotient_smaller(n: nat, base: nat)
    by (nonlinear_arith)
    requires
        base >= 2,
        n >= base,
    ensures
        0 < n / base < n,
        n == (n / base) * base + n % base,
        n % base < base,
{
}

/// The number that a string of digits stands for; leading zeros count for
/// nothing.
pub open spec fn value(s: Seq<u8>, base: nat) -> nat
    decreases s.len(),
{
    if s.len() == 0 {
        0
    } else {
        value(s.drop_last(), base) * base + (s.last() - 48) as nat
    }
}

/// Whether every byte of `s` is a digit of the given base.
pub open spec fn all_digits(s: Seq<u8>, base: nat) -> bool {
    forall|i: int| 0 <= i < s.len() ==> is_digit(#[trigger] s[i], base)
}

/// The length of the longest prefix of `s` made of digits only.
pub open spec fn leading_digits(s: Seq<u8>, base: nat) -> nat
    decreases s.len(),
{
    if s.len() > 0 && is_digit(s[0], base) {
        1 + leading_digits(s.drop_first(), base)
    } else {
        0
    }
}

/// The digits of a number are digits, and there is at least one.
pub proof fn lemma_digits_are_digits(n: nat, base: nat)
    requires
        valid_base(base),
    ensures
        digits(n, base).len() >= 1,
        all_digits(digits(n, base), base),
    decreases n,
{
    if n >= base {
        lemma_quotient_smaller(n, base);
        lemma_digits_are_digits(n / base, base);
    }
}

/// Reading back the digits of a number gives the number.
pub proof fn lemma_value_of_digits(n: nat, base: nat)
    requires
        valid_base(base),
    ensures
        value(digits(n, base), base) == n,
    decreases n,
{
    if n < base {
        let s = digits(n, base);
        assert(value(s.drop_last(), base) == 0);
        assert(0 * base == 0) by (nonlinear_arith);
    } else {
        lemma_quotient_smaller(n, base);
        lemma_value_of_digits(n / base, base);
        let d = digits(n / base, base);
        let s = d.push(digit_byte(n % base));
        assert(s.drop_last() =~= d);
    }
}

/// A digit string with one more digit at its end stands for the old value
/// times the base, plus the digit.
pub proof fn lemma_value_push(s: Seq<u8>, b: u8, base: nat)
    ensures
        value(s.push(b), base) == value(s, base) * base + (b - 48) as nat,
{
    assert(s.push(b).drop_last() =~= s);
}

/// The prefix of digits is no longer than the string, holds digits only, and
/// stops at the first byte that is no digit.
pub proof fn lemma_leading_digits(s: Seq<u8>, base: nat)
    ensures
        leading_digits(s, base) <= s.len(),
        all_digits(s.take(leading_digits(s, base) as int), base),
        leading_digits(s, base) < s.len() ==> !is_digit(s[leading_digits(s, base) as int], base),
    decreases s.len(),
{
    if s.len() > 0 && is_digit(s[0], base) {
        let t = s.drop_first();
        lemma_leading_digits(t, base);
        let k = leading_digits(t, base) as int;
        assert forall|i: int| 0 <= i < k + 1 implies is_digit(
            #[trigger] s.take(k + 1)[i],
            base,
        ) by {
            if i > 0 {
                assert(s.take(k + 1)[i] == t.take(k)[i - 1]);
            }
        }
    }
}

/// A string of digits followed by a byte that is no digit (or by nothing) has
/// exactly those digits as its leading digits.
pub proof fn lemma_leading_digits_of_concat(d: Seq<u8>, rest: Seq<u8>, base: nat)
    requires
        all_digits(d, base),
        rest.len() == 0 || !is_digit(rest[0], base),
    ensures
        leading_digits(d + rest, base) == d.len(),
    decreases d.len(),
{
    if d.len() > 0 {
        assert((d + rest).drop_first() =~= d.drop_first() + rest);
        lemma_leading_digits_of_concat(d.drop_first(), rest, base);
    }
}

/// Appends `n` in the given base to `f`.
pub fn push_digits(f: &mut Vec<u8>, n: u64, base: u8)
    requires
        valid_base(base as nat),
    ensures
        final(f)@ == old(f)@ + digits(n as nat, base as nat),
    decreases n,
{
    let wide: u64 = base as u64;
    if n >= wide {
        proof {
            lemma_quotient_smaller(n as nat, base as nat);
        }
        push_digits(f, n / wide, base);
    }
    let d: u64 = n % wide;
    f.push(48u8 + d as u8);
    proof {
        let small = n as nat;
        let modulus = base as nat;
        if n < wide {
            assert(small % modulus == small) by (nonlinear_arith)
                requires
                    small < modulus,
            ;
        }
    }
}

/// How many digits `n` has in the given base.
pub fn digits_len(n: u64, base: u8) -> (len: u64)
    requires
        valid_base(base as nat),
    ensures
        len == digits(n as nat, base as nat).len(),
        1 <= len <= 64,
    decreases n,
{
    let wide: u64 = base as u64;
    if n >= wide {
        proof {
            lemma_quotient_smaller(n as nat, base as nat);
            lemma_digits_bound(n as nat, base as nat);
        }
        digits_len(n / wide, base) + 1
    } else {
        1
    }
}

/// A number that fits in 64 bits has at most 64 digits, whatever the base.
proof fn lemma_digits_bound(n: nat, base: nat)
    requires
        valid_base(base),
    ensures
        n < 0x1_0000_0000_0000_0000 ==> digits(n, base).len() <= 64,
{
    vstd::arithmetic::power2::lemma2_to64_rest();
    lemma_digits_within(n, base, 64);
}

/// A number below 2^k has at most k digits.
proof fn lemma_digits_within(n: nat, base: nat, k: nat)
    requires
        valid_base(base),
        k >= 1,
    ensures
        n < vstd::arithmetic::power2::pow2(k) ==> digits(n, base).len() <= k,
    decreases k,
{
    let pow2 = |e: nat| vstd::arithmetic::power2::pow2(e);
    if n >= base && n < pow2(k) {
        lemma_quotient_smaller(n, base);
        vstd::arithmetic::power2::lemma2_to64();
        if k > 1 {
            vstd::arithmetic::power2::lemma_pow2_unfold(k);
            let half = pow2((k - 1) as nat);
            assert(n / base < half) by (nonlinear_arith)
                requires
                    base >= 2,
                    n < 2 * half,
            ;
            lemma_digits_within(n / base, base, (k - 1) as nat);
        }
    }
}

/// Counts the digits that `s` holds from `start` on.
pub fn count_digits(s: &[u8], start: usize, base: u8) -> (n: usize)
    requires
        start <= s@.len(),
        valid_base(base as nat),
    ensures
        n == leading_digits(s@.skip(start as int), base as nat),
        start + n <= s@.len(),
{
    let mut end: usize = start;
    while end < s.len() && 48 <= s[end] && s[end] < 48 + base
        invariant
            start <= end <= s@.len(),
            valid_base(base as nat),
            leading_digits(s@.skip(start as int), base as nat) == (end - start) + leading_digits(
                s@.skip(end as int),
                base as nat,
            ),
        decreases s@.len() - end,
    {
        proof {
            assert(s@.skip(end as int).drop_first() =~= s@.skip(end + 1));
        }
        end += 1;
    }
    end - start
}

/// Reads the digits `s[start..end]` as a number; `None` when it does not fit.
pub fn read_digits(s: &[u8], start: usize, end: usize, base: u8) -> (r: Option<u64>)
    requires
        start <= end <= s@.len(),
        valid_base(base as nat),
        all_digits(s@.subrange(start as int, end as int), base as nat),
    ensures
        match r {
            Some(v) => v == value(s@.subrange(start as int, end as int), base as nat),
            None => value(s@.subrange(start as int, end as int), base as nat) > u64::MAX,
        },
{
    let mut acc: u64 = 0;
    let mut i: usize = start;
    while i < end
        invariant
            start <= i <= end <= s@.len(),
            valid_base(base as nat),
            all_digits(s@.subrange(start as int, end as int), base as nat),
            acc == value(s@.subrange(start as int, i as int), base as nat),
        decreases end - i,
    {
        let ghost read = s@.subrange(start as int, i as int);
        let b = s[i];
        proof {
            assert(s@.subrange(start as int, i + 1) =~= read.push(b));
            lemma_value_push(read, b, base as nat);
        }
        let d: u64 = (b - 48) as u64;
        let next = match acc.checked_mul(base as u64) {
            Some(m) => m.checked_add(d),
            None => None,
        };
        match next {
            Some(v) => {
                acc = v;
            },
            None => {
                proof {
                    lemma_value_grows(
                        s@.subrange(start as int, i + 1),
                        s@.subrange(start as int, end as int),
                        base as nat,
                    );
                }
                return None;
            },
        }
        i += 1;
    }
    Some(acc)
}

/// Reading more digits never makes the number smaller.
pub proof fn lemma_value_grows(shorter: Seq<u8>, longer: Seq<u8>, base: nat)
    requires
        valid_base(base),
        all_digits(longer, base),
        shorter.len() <= longer.len(),
        shorter =~= longer.take(shorter.len() as int),
    ensures
        value(shorter, base) <= value(longer, base),
    decreases longer.len(),
{
    if shorter.len() < longer.len() {
        let mid = longer.drop_last();
        lemma_value_grows(shorter, mid, base);
        assert(value(mid, base) * base >= value(mid, base)) by (nonlinear_arith)
            requires
                base >= 1,
        ;
    } else {
        assert(shorter =~= longer);
    }
}

} // verus!
