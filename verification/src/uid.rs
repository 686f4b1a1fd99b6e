//! Identifier helpers: a little-endian base-64-style codec between strings
//! and `u64` values (the first character carries the least significant six
//! bits), and a random API-key generator over ASCII letters and digits.

use vstd::prelude::*;
use vstd::string::StrSliceExecFns;
use crate::errors::Error;

verus! {

/// The six-bit value a character stands for: `A`-`Z` are 0-25, `a`-`z` are
/// 26-51, `0`-`9` are 52-61, `+` is 62, `/` is 63; anything else is -1.
pub open spec fn char_val(c: char) -> int {
    let u = c as u32;
    if 65 <= u <= 90 {
        u - 65
    } else if 97 <= u <= 122 {
        u - 97 + 26
    } else if 48 <= u <= 57 {
        u - 48 + 52
    } else if c == '+' {
        62
    } else if c == '/' {
        63
    } else {
        -1
    }
}

/// The character standing for a six-bit value.
pub open spec fn u6_char(n: int) -> char {
    if n <= 25 {
        ((65 + n) as u8) as char
    } else if n <= 51 {
        ((97 + n - 26) as u8) as char
    } else if n <= 61 {
        ((48 + n - 52) as u8) as char
    } else if n == 62 {
        '+'
    } else {
        '/'
    }
}

/// Decodes one character into its six-bit value.
pub fn char_to_u8(c: char) -> (r: Result<u8, Error>)
    ensures
        char_val(c) >= 0 ==> (r matches Ok(v) && v as int == char_val(c) && v < 64),
        char_val(c) < 0 ==> (r matches Err(e) && e.code == 500),
{
    let u = c as u32;
    if 65 <= u && u <= 90 {
        Ok((u - 65) as u8)
    } else if 97 <= u && u <= 122 {
        Ok((u - 97 + 26) as u8)
    } else if 48 <= u && u <= 57 {
        Ok((u - 48 + 52) as u8)
    } else if c == '+' {
        Ok(62)
    } else if c == '/' {
        Ok(63)
    } else {
        let mut msg = String::from_str("Unsupported character: ");
        msg.push(c);
        Err(Error::new(500).with_message(msg))
    }
}

/// Encodes one six-bit value as its character; values of 64 and above have
/// none.
pub fn u6_to_char(n: u8) -> (r: Option<char>)
    ensures
        n < 64 ==> r == Some(u6_char(n as int)),
        n >= 64 ==> r is None,
{
    if n <= 25 {
        Some(((65 + n as u32) as u8) as char)
    } else if n <= 51 {
        Some(((97 + (n - 26) as u32) as u8) as char)
    } else if n <= 61 {
        Some(((48 + (n - 52) as u32) as u8) as char)
    } else if n == 62 {
        Some('+')
    } else if n == 63 {
        Some('/')
    } else {
        None
    }
}

/// Every character of `s` carries a six-bit value.
pub open spec fn all_b64(s: Seq<char>) -> bool {
    forall|k: int| 0 <= k < s.len() ==> char_val(#[trigger] s[k]) >= 0
}

/// The value of a little-endian base-64 string: the first character is the
/// least significant six bits.
pub open spec fn b64_value(s: Seq<char>) -> int
    decreases s.len(),
{
    if s.len() == 0 {
        0
    } else {
        char_val(s[0]) + 64 * b64_value(s.skip(1))
    }
}

/// The little-endian base-64 rendering of `n`; zero yields the empty string.
pub open spec fn b64_str(n: nat) -> Seq<char>
    decreases n,
{
    if n == 0 {
        Seq::empty()
    } else {
        seq![u6_char((n % 64) as int)] + b64_str(n / 64)
    }
}

spec fn pow64(n: nat) -> int
    decreases n,
{
    if n == 0 {
        1
    } else {
        64 * pow64((n - 1) as nat)
    }
}

proof fn lemma_b64_bound(s: Seq<char>)
    requires
        all_b64(s),
    ensures
        0 <= b64_value(s) < pow64(s.len()),
    decreases s.len(),
{
    if s.len() > 0 {
        assert forall|k: int| 0 <= k < s.skip(1).len() implies char_val(
            #[trigger] s.skip(1)[k],
        ) >= 0 by {
            assert(s.skip(1)[k] == s[k + 1]);
        }
        lemma_b64_bound(s.skip(1));
        assert(char_val(s[0]) < 64);
        assert(pow64(s.len()) == 64 * pow64((s.len() - 1) as nat));
    }
}

proof fn lemma_pow64_ten()
    ensures
        pow64(9) == 0x40000000000000,
        pow64(10) == 0x1000000000000000,
{
    assert(pow64(0) == 1);
    assert(pow64(1) == 64);
    assert(pow64(2) == 0x1000);
    assert(pow64(3) == 0x40000);
    assert(pow64(4) == 0x1000000);
    assert(pow64(5) == 0x40000000);
    assert(pow64(6) == 0x1000000000);
    assert(pow64(7) == 0x40000000000);
    assert(pow64(8) == 0x1000000000000);
    assert(pow64(9) == 0x40000000000000);
    assert(pow64(10) == 0x1000000000000000);
}

proof fn lemma_pow64_mono(a: nat, b: nat)
    requires
        a <= b,
    ensures
        pow64(a) <= pow64(b),
    decreases b,
{
    if a < b {
        lemma_pow64_mono(a, (b - 1) as nat);
        assert(pow64((b - 1) as nat) >= 1) by {
            lemma_pow64_pos((b - 1) as nat);
        }
    }
}

proof fn lemma_pow64_pos(n: nat)
    ensures
        pow64(n) >= 1,
    decreases n,
{
    if n > 0 {
        lemma_pow64_pos((n - 1) as nat);
    }
}

/// Decodes a little-endian base-64 string into its value. At most 10
/// characters (60 bits) are accepted; a longer string or one holding a
/// character outside the alphabet is rejected.
pub fn str_to_int(s: &str) -> (r: Result<u64, Error>)
    ensures
        s@.len() > 10 ==> (r matches Err(e) && e.code == 500),
        s@.len() <= 10 && all_b64(s@) ==> (r matches Ok(v) && v as int == b64_value(s@)),
        s@.len() <= 10 && !all_b64(s@) ==> (r matches Err(e) && e.code == 500),
{
    let n = s.unicode_len();
    if n > 10 {
        return Err(
            Error::new(500).with_message(
                String::from_str("String length cannot exceed 10 characters"),
            ),
        );
    }
    let mut acc: u64 = 0;
    let mut i: usize = n;
    proof {
        assert(s@.skip(n as int) =~= Seq::<char>::empty());
    }
    while i > 0
        invariant
            n == s@.len(),
            n <= 10,
            i <= n,
            all_b64(s@.skip(i as int)),
            acc as int == b64_value(s@.skip(i as int)),
            (acc as int) < pow64((n - i) as nat),
        decreases i,
    {
        let c = s.get_char(i - 1);
        match char_to_u8(c) {
            Err(e) => {
                proof {
                    assert(char_val(s@[i - 1]) < 0);
                    assert(!all_b64(s@));
                }
                return Err(e);
            },
            Ok(v) => {
                proof {
                    assert(s@.skip(i - 1)[0] == s@[i - 1]);
                    assert forall|k: int| 0 <= k < s@.skip(i - 1).len() && k >= 1 implies char_val(
                        #[trigger] s@.skip(i - 1)[k],
                    ) >= 0 by {
                        assert(s@.skip(i - 1)[k] == s@.skip(i as int)[k - 1]);
                    }
                    assert(s@.skip(i - 1).skip(1) =~= s@.skip(i as int));
                    assert(pow64((n - i + 1) as nat) == 64 * pow64((n - i) as nat));
                    lemma_pow64_mono((n - i) as nat, 9);
                    lemma_pow64_ten();
                }
                acc = acc * 64 + (v as u64);
                i = i - 1;
            },
        }
    }
    proof {
        assert(s@.skip(0) =~= s@);
    }
    Ok(acc)
}

/// Encodes `n` as a little-endian base-64 string; zero becomes the empty
/// string.
pub fn int_to_str(n: u64) -> (r: String)
    ensures
        r@ == b64_str(n as nat),
{
    let mut out = String::new();
    let mut m = n;
    while m != 0
        invariant
            b64_str(n as nat) == out@ + b64_str(m as nat),
        decreases m,
    {
        let ghost m0 = m as nat;
        let ghost out0 = out@;
        let d = (m % 64) as u8;
        let c = u6_to_char(d).unwrap();
        out.push(c);
        m = m / 64;
        proof {
            assert(b64_str(m0) == seq![u6_char((m0 % 64) as int)] + b64_str(m0 / 64));
            assert(out@ =~= out0 + seq![u6_char((m0 % 64) as int)]);
            assert(out@ + b64_str(m as nat) =~= out0 + b64_str(m0));
        }
    }
    proof {
        assert(b64_str(0) == Seq::<char>::empty());
        assert(out@ + Seq::<char>::empty() =~= out@);
    }
    out
}

/// Relies on rand::rng and rand::Rng::random_range: a sampled index below
/// `bound`; nothing more is promised of a random value.
#[verifier::external_body]
fn random_below(bound: usize) -> (r: usize)
    requires
        bound > 0,
    ensures
        r < bound,
{
    let mut rng = rand::rng();
    rand::Rng::random_range(&mut rng, 0..bound)
}

/// An API-key character: an ASCII letter or digit.
pub open spec fn is_api_key_char(c: char) -> bool {
    (65 <= c as u32 <= 90) || (97 <= c as u32 <= 122) || (48 <= c as u32 <= 57)
}

/// Generates a random API key of the given length over `A`-`Z`, `a`-`z` and
/// `0`-`9`. Which characters come out depends on the random source; every
/// outcome has exactly `length` characters from that alphabet.
pub fn generate_api_key(length: usize) -> (r: String)
    ensures
        r@.len() == length,
        forall|k: int| 0 <= k < length ==> is_api_key_char(#[trigger] r@[k]),
{
    let mut out = String::new();
    let mut i: usize = 0;
    while i < length
        invariant
            i <= length,
            out@.len() == i,
            forall|k: int| 0 <= k < i ==> is_api_key_char(#[trigger] out@[k]),
        decreases length - i,
    {
        let idx = random_below(62);
        let c: char = if idx < 26 {
            ((65 + idx as u32) as u8) as char
        } else if idx < 52 {
            ((97 + (idx - 26) as u32) as u8) as char
        } else {
            ((48 + (idx - 52) as u32) as u8) as char
        };
        out.push(c);
        i = i + 1;
    }
    out
}

} // verus!
