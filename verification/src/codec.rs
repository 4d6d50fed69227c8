//! Digit alphabets and positional codecs shared by the identifier types.
//!
//! The base16 alphabet (`0123456789abcdef`) is a prefix of the base62
//! alphabet (digits, then lowercase, then uppercase), so one digit-value
//! table serves both: a character is a valid digit in base `b` exactly when
//! its value in the table is below `b`.

use vstd::prelude::*;
use vstd::string::StrSliceExecFns;

verus! {

/// The value of `c` in the base62 alphabet (digits, lowercase, uppercase),
/// or `None` when `c` is not in the alphabet.
pub open spec fn char_digit(c: char) -> Option<int> {
    let v = c as int;
    if 48 <= v && v <= 57 {
        Some(v - 48)
    } else if 97 <= v && v <= 122 {
        Some(v - 87)
    } else if 65 <= v && v <= 90 {
        Some(v - 29)
    } else {
        None
    }
}

/// The alphabet character for digit value `d` (meaningful for `0 <= d < 62`).
pub open spec fn digit_char(d: int) -> char {
    if 0 <= d && d < 10 {
        ((48 + d) as u8) as char
    } else if 10 <= d && d < 36 {
        ((87 + d) as u8) as char
    } else if 36 <= d && d < 62 {
        ((29 + d) as u8) as char
    } else {
        '0'
    }
}

/// The digit value of `c`, matching `char_digit`.
pub fn digit_of_char(c: char) -> (r: Option<u32>)
    ensures
        match r {
            Some(d) => char_digit(c) == Some(d as int),
            None => char_digit(c) is None,
        },
{
    let v = c as u32;
    if 48 <= v && v <= 57 {
        Some(v - 48)
    } else if 97 <= v && v <= 122 {
        Some(v - 87)
    } else if 65 <= v && v <= 90 {
        Some(v - 29)
    } else {
        None
    }
}

/// The alphabet character for digit value `d`, matching `digit_char`.
pub fn char_of_digit(d: u32) -> (r: char)
    requires
        d < 62,
    ensures
        r == digit_char(d as int),
{
    let b: u8 = if d < 10 {
        (48 + d) as u8
    } else if d < 36 {
        (87 + d) as u8
    } else {
        (29 + d) as u8
    };
    b as char
}

/// Looking a digit's character back up in the alphabet returns the digit.
pub proof fn lemma_digit_char_value(d: int)
    requires
        0 <= d < 62,
    ensures
        char_digit(digit_char(d)) == Some(d),
{
}

/// One more than the largest 128-bit magnitude: decoding wraps modulo this.
pub open spec fn radix() -> nat {
    u128::MAX as nat + 1
}

/// `c` denotes a digit of base `base`.
pub open spec fn valid_digit(c: char, base: int) -> bool {
    match char_digit(c) {
        Some(d) => d < base,
        None => false,
    }
}

/// The magnitude that the digit string `s` denotes in base `base`, read
/// left to right with wraparound modulo `2^128`, or `None` when some
/// character is not a digit of that base.
pub open spec fn decode_digits(s: Seq<char>, base: int) -> Option<nat>
    decreases s.len(),
{
    if s.len() == 0 {
        Some(0)
    } else {
        match decode_digits(s.drop_last(), base) {
            Some(acc) => match char_digit(s.last()) {
                Some(d) => if d < base {
                    Some(((acc * base + d) % radix() as int) as nat)
                } else {
                    None
                },
                None => None,
            },
            None => None,
        }
    }
}

/// The `count` low-order digits of `n` in base `base`, most significant
/// first, as alphabet characters.
pub open spec fn encode_digits(n: nat, count: nat, base: nat) -> Seq<char>
    decreases count,
{
    if count == 0 {
        Seq::empty()
    } else {
        encode_digits(n / base, (count - 1) as nat, base).push(digit_char((n % base) as int))
    }
}

/// An encoded magnitude always has exactly `count` characters.
pub proof fn lemma_encode_len(n: nat, count: nat, base: nat)
    requires
        2 <= base,
    ensures
        encode_digits(n, count, base).len() == count,
    decreases count,
{
    if count == 0 {
        assert(encode_digits(n, count, base) == Seq::<char>::empty());
    } else {
        lemma_encode_len(n / base, (count - 1) as nat, base);
        assert(encode_digits(n, count, base) == encode_digits(
            n / base,
            (count - 1) as nat,
            base,
        ).push(digit_char((n % base) as int)));
    }
}

/// Magnitude zero encodes to `count` copies of the pad digit `'0'`.
pub proof fn lemma_encode_zero(count: nat, base: nat)
    requires
        2 <= base,
    ensures
        encode_digits(0, count, base).len() == count,
        forall|j: int| 0 <= j < count ==> encode_digits(0, count, base)[j] == '0',
    decreases count,
{
    lemma_encode_len(0, count, base);
    if count > 0 {
        lemma_encode_zero((count - 1) as nat, base);
        vstd::arithmetic::div_mod::lemma_small_mod(0, base);
        assert(encode_digits(0, count, base) == encode_digits(0, (count - 1) as nat, base).push(
            '0',
        ));
    }
}

/// A character that is not a digit of the base makes the whole string decode
/// to `None`.
pub proof fn lemma_invalid_digit(s: Seq<char>, base: int, i: int)
    requires
        0 <= i < s.len(),
        !valid_digit(s[i], base),
    ensures
        decode_digits(s, base) is None,
    decreases s.len(),
{
    if i == s.len() - 1 {
    } else {
        lemma_invalid_digit(s.drop_last(), base, i);
    }
}

/// Decoding the fixed-width encoding of an in-range magnitude recovers it.
pub proof fn lemma_decode_encode(n: nat, count: nat, base: nat)
    requires
        2 <= base <= 62,
        n < vstd::arithmetic::power::pow(base as int, count),
        n < radix(),
    ensures
        decode_digits(encode_digits(n, count, base), base as int) == Some(n),
    decreases count,
{
    reveal(vstd::arithmetic::power::pow);
    vstd::arithmetic::power::lemma_pow_positive(base as int, count);
    if count == 0 {
        assert(n == 0);
    } else {
        let q = n / base;
        let d = (n % base) as int;
        vstd::arithmetic::div_mod::lemma_fundamental_div_mod(n as int, base as int);
        assert(vstd::arithmetic::power::pow(base as int, count) == base * vstd::arithmetic::power::pow(
            base as int,
            (count - 1) as nat,
        ));
        assert(q < vstd::arithmetic::power::pow(base as int, (count - 1) as nat)) by {
            vstd::arithmetic::div_mod::lemma_multiply_divide_lt(
                n as int,
                base as int,
                vstd::arithmetic::power::pow(base as int, (count - 1) as nat),
            );
        }
        lemma_decode_encode(q, (count - 1) as nat, base);
        let s = encode_digits(n, count, base);
        assert(s.drop_last() == encode_digits(q, (count - 1) as nat, base));
        assert(s.last() == digit_char(d));
        lemma_digit_char_value(d);
        assert(q * base + d == n);
        vstd::arithmetic::div_mod::lemma_small_mod(n, radix());
    }
}

/// Relies on String::push: appends the one character at the end of the string.
#[verifier::external_body]
pub(crate) fn push_char(s: &mut String, c: char)
    ensures
        final(s)@ == old(s)@.push(c),
{
    s.push(c);
}

/// Decodes `id` as a base-`base` digit string, wrapping modulo `2^128`.
pub fn decode_str(id: &str, base: u32) -> (r: Option<u128>)
    requires
        2 <= base <= 62,
    ensures
        match r {
            Some(n) => decode_digits(id@, base as int) == Some(n as nat),
            None => decode_digits(id@, base as int) is None,
        },
{
    let len = id.unicode_len();
    let mut n: u128 = 0;
    let mut i: usize = 0;
    while i < len
        invariant
            2 <= base <= 62,
            i <= len,
            len == id@.len(),
            decode_digits(id@.take(i as int), base as int) == Some(n as nat),
        decreases len - i,
    {
        let c = id.get_char(i);
        match digit_of_char(c) {
            None => {
                proof {
                    lemma_invalid_digit(id@, base as int, i as int);
                }
                return None;
            },
            Some(d) => {
                if d >= base {
                    proof {
                        lemma_invalid_digit(id@, base as int, i as int);
                    }
                    return None;
                }
                proof {
                    lemma_decode_step(id@, base as int, i as int, n as nat, d as int);
                }
                n = n.wrapping_mul(base as u128).wrapping_add(d as u128);
                i = i + 1;
            },
        }
    }
    proof {
        assert(id@.take(len as int) =~= id@);
    }
    Some(n)
}

/// One accumulation step of `decode_digits`, phrased over the wrapping
/// u128 operations the loop performs.
proof fn lemma_decode_step(s: Seq<char>, base: int, i: int, acc: nat, d: int)
    requires
        2 <= base <= 62,
        0 <= i < s.len(),
        decode_digits(s.take(i), base) == Some(acc),
        acc < radix(),
        char_digit(s[i]) == Some(d),
        0 <= d < base,
    ensures
        decode_digits(s.take(i + 1), base) == Some(
            vstd::wrapping::u128_specs::wrapping_add(
                vstd::wrapping::u128_specs::wrapping_mul(acc as u128, base as u128),
                d as u128,
            ) as nat,
        ),
{
    let s1 = s.take(i + 1);
    assert(s1.drop_last() =~= s.take(i));
    assert(s1.last() == s[i]);
    let r = radix() as int;
    let t = acc * base;
    assert(decode_digits(s1, base) == Some(((t + d) % r) as nat));
    let w = vstd::wrapping::u128_specs::wrapping_mul(acc as u128, base as u128);
    assert(w == t % r);
    vstd::arithmetic::div_mod::lemma_add_mod_noop(t, d, r);
    vstd::arithmetic::div_mod::lemma_small_mod(d as nat, radix());
    assert((t % r + d) % r == (t + d) % r);
    let u = vstd::wrapping::u128_specs::wrapping_add(w, d as u128);
    if w + d > u128::MAX {
        assert(u == w + d - r);
        vstd::arithmetic::div_mod::lemma_mod_sub_multiples_vanish(w + d, r);
        vstd::arithmetic::div_mod::lemma_small_mod((w + d - r) as nat, radix());
        assert(u as int == (t + d) % r);
    } else {
        assert(u == w + d);
        vstd::arithmetic::div_mod::lemma_small_mod((w + d) as nat, radix());
        assert(u as int == (t + d) % r);
    }
}

/// Renders the `count` low-order base-`base` digits of `n`, most
/// significant first.
pub fn encode_fixed(n: u128, count: usize, base: u32) -> (r: String)
    requires
        2 <= base <= 62,
    ensures
        r@ == encode_digits(n as nat, count as nat, base as nat),
        r@.len() == count,
{
    let ghost target = encode_digits(n as nat, count as nat, base as nat);
    let mut digits: Vec<char> = Vec::new();
    let mut m: u128 = n;
    let mut i: usize = 0;
    while i < count
        invariant
            2 <= base <= 62,
            i <= count,
            digits@.len() == i,
            target == encode_digits(m as nat, (count - i) as nat, base as nat)
                + digits@.reverse(),
            target == encode_digits(n as nat, count as nat, base as nat),
        decreases count - i,
    {
        let ghost old_digits = digits@;
        let ghost mn = m as nat;
        assert(m % (base as u128) < 62);
        let d: u32 = (m % (base as u128)) as u32;
        let c = char_of_digit(d);
        digits.push(c);
        proof {
            assert(digits@.reverse() =~= seq![c] + old_digits.reverse());
            let head = encode_digits(mn / (base as nat), (count - i - 1) as nat, base as nat);
            assert(encode_digits(mn, (count - i) as nat, base as nat) == head.push(c));
            assert(head.push(c) + old_digits.reverse() =~= head + (seq![c]
                + old_digits.reverse()));
        }
        m = m / (base as u128);
        i = i + 1;
    }
    proof {
        assert(target =~= digits@.reverse());
        lemma_encode_len(n as nat, count as nat, base as nat);
    }
    let mut out = String::new();
    let mut j: usize = count;
    while j > 0
        invariant
            digits@.len() == count,
            j <= count,
            target == digits@.reverse(),
            target.len() == count,
            out@ == target.take((count - j) as int),
        decreases j,
    {
        j = j - 1;
        push_char(&mut out, digits[j]);
        proof {
            assert(digits@.reverse()[(count - j - 1) as int] == digits@[j as int]);
            assert(out@ =~= target.take((count - j) as int));
        }
    }
    proof {
        assert(target.take(count as int) =~= target);
    }
    out
}

} // verus!
