//! Character-level string helpers shared by the parser, the negotiator and
//! the renderer: first-occurrence search, splitting, trimming, ASCII case
//! folding and decimal formatting, each with an exact functional contract.

use vstd::prelude::*;
use vstd::string::StrSliceExecFns;
use vstd::string::StringExecFns;

verus! {

/// Appends one character; `String::push` has no specification in vstd.
pub assume_specification[ String::push ](s: &mut String, ch: char)
    ensures
        final(s)@ == old(s)@.push(ch),
;

/// Index of the first occurrence of `c` in `s`, if any.
pub open spec fn first_index_of(s: Seq<char>, c: char) -> Option<int>
    decreases s.len(),
{
    if s.len() == 0 {
        None
    } else if s[0] == c {
        Some(0int)
    } else {
        match first_index_of(s.skip(1), c) {
            None => None,
            Some(i) => Some(i + 1),
        }
    }
}

/// What `first_index_of` returns: the first position holding `c`, or `None`
/// when `c` does not occur.
pub proof fn lemma_first_index_of(s: Seq<char>, c: char)
    ensures
        match first_index_of(s, c) {
            Some(i) => 0 <= i < s.len() && s[i] == c && (forall|k: int| 0 <= k < i ==> s[k] != c),
            None => forall|k: int| 0 <= k < s.len() ==> s[k] != c,
        },
    decreases s.len(),
{
    if s.len() > 0 && s[0] != c {
        lemma_first_index_of(s.skip(1), c);
        match first_index_of(s.skip(1), c) {
            Some(i) => {
                assert(s[i + 1] == s.skip(1)[i]);
                assert forall|k: int| 0 <= k < i + 1 implies s[k] != c by {
                    if k > 0 {
                        assert(s[k] == s.skip(1)[k - 1]);
                    }
                }
            },
            None => {
                assert forall|k: int| 0 <= k < s.len() implies s[k] != c by {
                    if k > 0 {
                        assert(s[k] == s.skip(1)[k - 1]);
                    }
                }
            },
        }
    }
}

/// A position holding `c` with none before it is the first occurrence.
pub proof fn lemma_first_index_of_is(s: Seq<char>, c: char, i: int)
    requires
        0 <= i < s.len(),
        s[i] == c,
        forall|k: int| 0 <= k < i ==> s[k] != c,
    ensures
        first_index_of(s, c) == Some(i),
{
    lemma_first_index_of(s, c);
}

/// When no position holds `c`, there is no first occurrence.
pub proof fn lemma_first_index_of_none(s: Seq<char>, c: char)
    requires
        forall|k: int| 0 <= k < s.len() ==> s[k] != c,
    ensures
        first_index_of(s, c) is None,
{
    lemma_first_index_of(s, c);
}

/// Finds the first occurrence of `c` in `s`.
pub fn find_char(s: &str, c: char) -> (r: Option<usize>)
    ensures
        match r {
            Some(i) => first_index_of(s@, c) == Some(i as int),
            None => first_index_of(s@, c) is None,
        },
{
    let n = s.unicode_len();
    let mut i: usize = 0;
    while i < n
        invariant
            n == s@.len(),
            i <= n,
            forall|k: int| 0 <= k < i ==> s@[k] != c,
        decreases n - i,
    {
        if s.get_char(i) == c {
            proof {
                lemma_first_index_of_is(s@, c, i as int);
            }
            return Some(i);
        }
        i = i + 1;
    }
    proof {
        lemma_first_index_of_none(s@, c);
    }
    None
}

/// Content equality of two owned strings.
pub fn string_eq(a: &String, b: &String) -> (r: bool)
    ensures
        r == (a@ == b@),
{
    a.eq(b)
}

/// The views of a list of key/value string pairs.
pub open spec fn pairs_view(v: Seq<(String, String)>) -> Seq<(Seq<char>, Seq<char>)> {
    v.map_values(|p: (String, String)| (p.0@, p.1@))
}

/// The value of the first pair carrying `key`, if any.
pub open spec fn assoc_lookup(pairs: Seq<(Seq<char>, Seq<char>)>, key: Seq<char>) -> Option<
    Seq<char>,
>
    decreases pairs.len(),
{
    if pairs.len() == 0 {
        None
    } else if pairs[0].0 == key {
        Some(pairs[0].1)
    } else {
        assoc_lookup(pairs.skip(1), key)
    }
}

/// Finds the value of the first pair carrying `key`.
pub fn assoc_get(pairs: &Vec<(String, String)>, key: &String) -> (r: Option<String>)
    ensures
        match r {
            Some(v) => assoc_lookup(pairs_view(pairs@), key@) == Some(v@),
            None => assoc_lookup(pairs_view(pairs@), key@) is None,
        },
{
    let n = pairs.len();
    let mut i: usize = 0;
    proof {
        assert(pairs_view(pairs@).skip(0) =~= pairs_view(pairs@));
    }
    while i < n
        invariant
            n == pairs@.len(),
            i <= n,
            assoc_lookup(pairs_view(pairs@), key@) == assoc_lookup(
                pairs_view(pairs@).skip(i as int),
                key@,
            ),
        decreases n - i,
    {
        proof {
            assert(pairs_view(pairs@).skip(i as int)[0] == pairs_view(pairs@)[i as int]);
        }
        if string_eq(&pairs[i].0, key) {
            return Some(pairs[i].1.clone());
        }
        proof {
            assert(pairs_view(pairs@).skip(i as int).skip(1) =~= pairs_view(pairs@).skip(
                i as int + 1,
            ));
        }
        i = i + 1;
    }
    proof {
        assert(pairs_view(pairs@).skip(n as int) =~= Seq::<(Seq<char>, Seq<char>)>::empty());
    }
    None
}

/// The whitespace characters stripped from the ends of a header entry.
pub open spec fn is_space(c: char) -> bool {
    c == ' ' || c == '\t' || c == '\r' || c == '\n'
}

pub open spec fn trim_start_spec(s: Seq<char>) -> Seq<char>
    decreases s.len(),
{
    if s.len() > 0 && is_space(s[0]) {
        trim_start_spec(s.skip(1))
    } else {
        s
    }
}

pub open spec fn trim_end_spec(s: Seq<char>) -> Seq<char>
    decreases s.len(),
{
    if s.len() > 0 && is_space(s[s.len() - 1]) {
        trim_end_spec(s.take(s.len() - 1))
    } else {
        s
    }
}

/// `s` with leading and trailing whitespace removed.
pub open spec fn trim_spec(s: Seq<char>) -> Seq<char> {
    trim_end_spec(trim_start_spec(s))
}

proof fn lemma_trim_start_skip(s: Seq<char>, a: int)
    requires
        0 <= a <= s.len(),
        forall|k: int| 0 <= k < a ==> is_space(s[k]),
        a < s.len() ==> !is_space(s[a]),
    ensures
        trim_start_spec(s) == s.skip(a),
    decreases a,
{
    if a > 0 {
        assert(is_space(s[0]));
        lemma_trim_start_skip(s.skip(1), a - 1);
        assert forall|k: int| 0 <= k < a - 1 implies is_space(s.skip(1)[k]) by {
            assert(s.skip(1)[k] == s[k + 1]);
        }
        assert(s.skip(1).skip(a - 1) =~= s.skip(a));
    } else {
        assert(s.skip(0) =~= s);
    }
}

proof fn lemma_trim_end_take(s: Seq<char>, b: int)
    requires
        0 <= b <= s.len(),
        forall|k: int| b <= k < s.len() ==> is_space(s[k]),
        b > 0 ==> !is_space(s[b - 1]),
    ensures
        trim_end_spec(s) == s.take(b),
    decreases s.len(),
{
    if b < s.len() {
        assert(is_space(s[s.len() - 1]));
        lemma_trim_end_take(s.take(s.len() - 1), b);
        assert(s.take(s.len() - 1).take(b) =~= s.take(b));
    } else {
        assert(s.take(b) =~= s);
    }
}

pub fn is_space_char(c: char) -> (b: bool)
    ensures
        b == is_space(c),
{
    c == ' ' || c == '\t' || c == '\r' || c == '\n'
}

/// `s` with leading and trailing whitespace removed.
pub fn trim_str(s: &str) -> (r: String)
    ensures
        r@ == trim_spec(s@),
{
    let n = s.unicode_len();
    let mut a: usize = 0;
    while a < n
        invariant
            n == s@.len(),
            a <= n,
            forall|k: int| 0 <= k < a ==> is_space(s@[k]),
        ensures
            n == s@.len(),
            a <= n,
            forall|k: int| 0 <= k < a ==> is_space(s@[k]),
            a < n ==> !is_space(s@[a as int]),
        decreases n - a,
    {
        if !is_space_char(s.get_char(a)) {
            break;
        }
        a = a + 1;
    }
    let mut b: usize = n;
    while b > a
        invariant
            n == s@.len(),
            a <= b <= n,
            forall|k: int| b <= k < n ==> is_space(s@[k]),
        ensures
            n == s@.len(),
            a <= b <= n,
            forall|k: int| b <= k < n ==> is_space(s@[k]),
            b > a ==> !is_space(s@[b - 1]),
        decreases b,
    {
        if !is_space_char(s.get_char(b - 1)) {
            break;
        }
        b = b - 1;
    }
    proof {
        lemma_trim_start_skip(s@, a as int);
        let t = s@.skip(a as int);
        assert forall|k: int| b - a <= k < t.len() implies is_space(t[k]) by {
            assert(t[k] == s@[k + a]);
        }
        if b > a {
            assert(t[b - a - 1] == s@[b - 1]);
        }
        lemma_trim_end_take(t, b - a);
        assert(t.take(b - a) =~= s@.subrange(a as int, b as int));
    }
    String::from_str(s.substring_char(a, b))
}

/// ASCII case folding of one character.
pub open spec fn lower_char(c: char) -> char {
    if 65 <= c as u32 && c as u32 <= 90 {
        ((c as u32 + 32) as u8) as char
    } else {
        c
    }
}

/// ASCII case folding of a whole string.
pub open spec fn lower_seq(s: Seq<char>) -> Seq<char> {
    s.map_values(|c: char| lower_char(c))
}

pub fn to_lower_char(c: char) -> (r: char)
    ensures
        r == lower_char(c),
{
    let u = c as u32;
    if 65 <= u && u <= 90 {
        ((u + 32) as u8) as char
    } else {
        c
    }
}

/// Whether two strings are equal after ASCII case folding.
pub fn eq_ignore_case(a: &str, b: &str) -> (r: bool)
    ensures
        r == (lower_seq(a@) == lower_seq(b@)),
{
    let na = a.unicode_len();
    let nb = b.unicode_len();
    if na != nb {
        proof {
            assert(lower_seq(a@).len() != lower_seq(b@).len());
        }
        return false;
    }
    let mut i: usize = 0;
    while i < na
        invariant
            na == a@.len(),
            na == b@.len(),
            i <= na,
            forall|k: int| 0 <= k < i ==> lower_char(a@[k]) == lower_char(b@[k]),
        decreases na - i,
    {
        if to_lower_char(a.get_char(i)) != to_lower_char(b.get_char(i)) {
            proof {
                assert(lower_seq(a@)[i as int] != lower_seq(b@)[i as int]);
            }
            return false;
        }
        i = i + 1;
    }
    proof {
        assert(lower_seq(a@) =~= lower_seq(b@));
    }
    true
}

/// `s` split on `c`; a string with no separator yields itself alone.
pub open spec fn split_spec(s: Seq<char>, c: char) -> Seq<Seq<char>>
    decreases s.len() via split_spec_dec
{
    match first_index_of(s, c) {
        None => seq![s],
        Some(i) => seq![s.take(i)] + split_spec(s.skip(i + 1), c),
    }
}

#[via_fn]
proof fn split_spec_dec(s: Seq<char>, c: char) {
    lemma_first_index_of(s, c);
}

/// Splits `s` on `c`.
pub fn split_str(s: &str, c: char) -> (parts: Vec<String>)
    ensures
        parts.deep_view() == split_spec(s@, c),
    decreases s@.len(),
{
    match find_char(s, c) {
        None => {
            let mut v: Vec<String> = Vec::new();
            v.push(String::from_str(s));
            proof {
                assert(v.deep_view() =~= seq![s@]);
            }
            v
        },
        Some(i) => {
            proof {
                lemma_first_index_of(s@, c);
            }
            let n = s.unicode_len();
            let head = s.substring_char(0, i);
            let tail = s.substring_char(i + 1, n);
            proof {
                assert(head@ =~= s@.take(i as int));
                assert(tail@ =~= s@.skip(i + 1));
            }
            let mut v: Vec<String> = Vec::new();
            v.push(String::from_str(head));
            let mut rest = split_str(tail, c);
            v.append(&mut rest);
            proof {
                assert(v.deep_view() =~= seq![s@.take(i as int)] + split_spec(s@.skip(i + 1), c));
            }
            v
        },
    }
}

/// The decimal digit character for `d`.
pub open spec fn digit_char(d: int) -> char {
    ((48 + d) as u8) as char
}

/// The decimal digits of `n`, most significant first.
pub open spec fn dec_str(n: nat) -> Seq<char>
    decreases n,
{
    if n < 10 {
        seq![digit_char(n as int)]
    } else {
        dec_str(n / 10).push(digit_char((n % 10) as int))
    }
}

/// The decimal rendering of `n`, with a leading minus sign when negative.
pub open spec fn int_dec_str(n: int) -> Seq<char> {
    if n < 0 {
        seq!['-'] + dec_str((-n) as nat)
    } else {
        dec_str(n as nat)
    }
}

fn push_dec(n: u64, out: &mut String)
    ensures
        final(out)@ == old(out)@ + dec_str(n as nat),
    decreases n,
{
    if n < 10 {
        let d: u8 = 48 + n as u8;
        out.push(d as char);
        proof {
            assert(old(out)@ + dec_str(n as nat) =~= old(out)@.push(digit_char(n as int)));
        }
    } else {
        push_dec(n / 10, out);
        let d: u8 = 48 + (n % 10) as u8;
        out.push(d as char);
        proof {
            assert(old(out)@ + dec_str(n as nat) =~= (old(out)@ + dec_str((n / 10) as nat)).push(
                digit_char((n % 10) as int),
            ));
        }
    }
}

/// Renders `n` in decimal, as the catalog keys do for numeric codes.
pub fn i32_to_dec_string(n: i32) -> (r: String)
    ensures
        r@ == int_dec_str(n as int),
{
    let mut out = String::new();
    if n < 0 {
        out.push('-');
        let m: u64 = (-(n as i64)) as u64;
        push_dec(m, &mut out);
        proof {
            assert(out@ =~= int_dec_str(n as int));
        }
    } else {
        push_dec(n as u64, &mut out);
        proof {
            assert(out@ =~= int_dec_str(n as int));
        }
    }
    out
}

} // verus!
