//! Substitution of environment placeholders in configuration text: each
//! `${NAME}` or `${NAME:default}` reference (NAME made of ASCII capitals,
//! digits and underscores) is replaced by the environment's value for NAME,
//! else by the default, else by nothing; all other text is kept verbatim.
//! The environment is handed in as plain pairs, so the result is a pure
//! function of the text and that snapshot.

use vstd::prelude::*;
use vstd::string::StrSliceExecFns;
use vstd::string::StringExecFns;
use crate::strutil::assoc_get;
use crate::strutil::assoc_lookup;
use crate::strutil::first_index_of;
use crate::strutil::lemma_first_index_of_is;
use crate::strutil::lemma_first_index_of_none;
use crate::strutil::lemma_first_index_of;
use crate::strutil::pairs_view;

verus! {

/// A variable-name character: an ASCII capital, digit or underscore.
pub open spec fn is_name_char(c: char) -> bool {
    (65 <= c as u32 <= 90) || (48 <= c as u32 <= 57) || c == '_'
}

/// How many name characters stand at position `i` and directly after it.
pub open spec fn name_len_from(s: Seq<char>, i: int) -> int
    decreases s.len() - i,
{
    if i < 0 || i >= s.len() || !is_name_char(s[i]) {
        0
    } else {
        1 + name_len_from(s, i + 1)
    }
}

proof fn lemma_name_len(s: Seq<char>, i: int, l: int)
    requires
        0 <= i,
        0 <= l,
        i + l <= s.len(),
        forall|k: int| i <= k < i + l ==> is_name_char(#[trigger] s[k]),
        i + l == s.len() || !is_name_char(s[i + l]),
    ensures
        name_len_from(s, i) == l,
    decreases l,
{
    if l > 0 {
        assert(is_name_char(s[i]));
        lemma_name_len(s, i + 1, l - 1);
    }
}

/// The variable reference standing at the start of `u`, if any: its name,
/// its default text if one is given, and how many characters it spans.
pub open spec fn var_match(u: Seq<char>) -> Option<(Seq<char>, Option<Seq<char>>, int)> {
    if u.len() >= 2 && u[0] == '$' && u[1] == '{' {
        let nl = name_len_from(u, 2);
        let after = 2 + nl;
        if nl == 0 {
            None
        } else if after < u.len() && u[after] == '}' {
            Some((u.subrange(2, after), None, after + 1))
        } else if after < u.len() && u[after] == ':' {
            match first_index_of(u.skip(after + 1), '}') {
                None => None,
                Some(j) => Some((u.subrange(2, after), Some(u.skip(after + 1).take(j)), after + 2
                    + j)),
            }
        } else {
            None
        }
    } else {
        None
    }
}

proof fn lemma_name_len_nonneg(s: Seq<char>, i: int)
    ensures
        name_len_from(s, i) >= 0,
    decreases s.len() - i,
{
    if !(i < 0 || i >= s.len() || !is_name_char(s[i])) {
        lemma_name_len_nonneg(s, i + 1);
    }
}

proof fn lemma_var_match_len(u: Seq<char>)
    ensures
        var_match(u) matches Some(m) ==> 1 <= m.2 <= u.len(),
{
    if u.len() >= 2 && u[0] == '$' && u[1] == '{' {
        lemma_name_len_nonneg(u, 2);
        let nl = name_len_from(u, 2);
        let after = 2 + nl;
        if nl > 0 && after < u.len() && u[after] == ':' {
            lemma_first_index_of(u.skip(after + 1), '}');
        }
    }
}

/// `s` with every variable reference replaced: by the first environment
/// value for its name, else by its default, else by nothing.
pub open spec fn subst_spec(s: Seq<char>, env: Seq<(Seq<char>, Seq<char>)>) -> Seq<char>
    decreases s.len() via subst_spec_dec
{
    if s.len() == 0 {
        Seq::empty()
    } else {
        match var_match(s) {
            Some(m) => {
                let rep = match assoc_lookup(env, m.0) {
                    Some(v) => v,
                    None => match m.1 {
                        Some(d) => d,
                        None => Seq::empty(),
                    },
                };
                rep + subst_spec(s.skip(m.2), env)
            },
            None => seq![s[0]] + subst_spec(s.skip(1), env),
        }
    }
}

#[via_fn]
proof fn subst_spec_dec(s: Seq<char>, env: Seq<(Seq<char>, Seq<char>)>) {
    lemma_var_match_len(s);
}

/// The view of an optional owned default text.
pub open spec fn opt_text_view(o: Option<String>) -> Option<Seq<char>> {
    match o {
        Some(d) => Some(d@),
        None => None,
    }
}

fn is_name_char_exec(c: char) -> (b: bool)
    ensures
        b == is_name_char(c),
{
    let u = c as u32;
    (65 <= u && u <= 90) || (48 <= u && u <= 57) || c == '_'
}

fn match_var_at(s: &str, p: usize) -> (r: Option<(String, Option<String>, usize)>)
    requires
        p < s@.len(),
    ensures
        match r {
            Some(m) => var_match(s@.skip(p as int)) == Some((m.0@, opt_text_view(m.1), m.2 as int))
                && 1 <= m.2 && p + m.2 <= s@.len(),
            None => var_match(s@.skip(p as int)) is None,
        },
{
    let ghost u = s@.skip(p as int);
    let n = s.unicode_len();
    if p + 1 >= n {
        return None;
    }
    proof {
        assert(u[0] == s@[p as int]);
        assert(u[1] == s@[p + 1]);
    }
    if s.get_char(p) != '$' || s.get_char(p + 1) != '{' {
        return None;
    }
    let mut q: usize = p + 2;
    while q < n
        invariant
            n == s@.len(),
            p + 2 <= q <= n,
            forall|k: int| p + 2 <= k < q ==> is_name_char(#[trigger] s@[k]),
        ensures
            n == s@.len(),
            p + 2 <= q <= n,
            forall|k: int| p + 2 <= k < q ==> is_name_char(#[trigger] s@[k]),
            q < n ==> !is_name_char(s@[q as int]),
        decreases n - q,
    {
        if !is_name_char_exec(s.get_char(q)) {
            break;
        }
        q = q + 1;
    }
    proof {
        assert forall|k: int| 2 <= k < 2 + (q - p - 2) implies is_name_char(#[trigger] u[k]) by {
            assert(u[k] == s@[k + p]);
        }
        if q < n {
            assert(u[q - p] == s@[q as int]);
        }
        lemma_name_len(u, 2, q - p - 2);
    }
    let nl = q - p - 2;
    if nl == 0 {
        return None;
    }
    if q >= n {
        return None;
    }
    let ch = s.get_char(q);
    let name_str = s.substring_char(p + 2, q);
    proof {
        assert(name_str@ =~= u.subrange(2, 2 + nl as int));
    }
    if ch == '}' {
        Some((String::from_str(name_str), None, nl + 3))
    } else if ch == ':' {
        let mut j: usize = q + 1;
        while j < n
            invariant
                n == s@.len(),
                q + 1 <= j <= n,
                forall|k: int| q + 1 <= k < j ==> s@[k] != '}',
            ensures
                n == s@.len(),
                q + 1 <= j <= n,
                forall|k: int| q + 1 <= k < j ==> s@[k] != '}',
                j < n ==> s@[j as int] == '}',
            decreases n - j,
        {
            if s.get_char(j) == '}' {
                break;
            }
            j = j + 1;
        }
        let ghost rest = u.skip(2 + nl as int + 1);
        proof {
            assert forall|k: int| 0 <= k < j - q - 1 implies rest[k] != '}' by {
                assert(rest[k] == s@[k + q + 1]);
            }
        }
        if j >= n {
            proof {
                assert forall|k: int| 0 <= k < rest.len() implies rest[k] != '}' by {
                    assert(rest[k] == s@[k + q + 1]);
                }
                lemma_first_index_of_none(rest, '}');
            }
            return None;
        }
        proof {
            assert(rest[j - q - 1] == s@[j as int]);
            lemma_first_index_of_is(rest, '}', j - q - 1);
        }
        let dflt = s.substring_char(q + 1, j);
        proof {
            assert(dflt@ =~= rest.take(j - q - 1));
        }
        Some((String::from_str(name_str), Some(String::from_str(dflt)), j + 1 - p))
    } else {
        None
    }
}

/// Replaces every `${NAME}` / `${NAME:default}` reference in `content`,
/// preferring the environment's value, then the default, then nothing.
pub fn replace_vars(content: &str, env: &Vec<(String, String)>) -> (r: String)
    ensures
        r@ == subst_spec(content@, pairs_view(env@)),
{
    let n = content.unicode_len();
    let mut out = String::new();
    let mut p: usize = 0;
    proof {
        assert(content@.skip(0) =~= content@);
    }
    while p < n
        invariant
            n == content@.len(),
            p <= n,
            subst_spec(content@, pairs_view(env@)) == out@ + subst_spec(
                content@.skip(p as int),
                pairs_view(env@),
            ),
        decreases n - p,
    {
        let ghost out0 = out@;
        let ghost tail = content@.skip(p as int);
        match match_var_at(content, p) {
            Some(m) => {
                let step = m.2;
                let rep: String = match assoc_get(env, &m.0) {
                    Some(v) => v,
                    None => match m.1 {
                        Some(d) => d,
                        None => String::new(),
                    },
                };
                out.append(rep.as_str());
                proof {
                    assert(tail.skip(m.2 as int) =~= content@.skip(p + m.2));
                    assert(out@ + subst_spec(content@.skip(p + m.2), pairs_view(env@)) =~= out0
                        + subst_spec(tail, pairs_view(env@)));
                }
                p = p + step;
            },
            None => {
                let c = content.get_char(p);
                out.push(c);
                proof {
                    assert(tail[0] == content@[p as int]);
                    assert(tail.skip(1) =~= content@.skip(p as int + 1));
                    assert(out@ + subst_spec(content@.skip(p as int + 1), pairs_view(env@)) =~= out0
                        + subst_spec(tail, pairs_view(env@)));
                }
                p = p + 1;
            },
        }
    }
    proof {
        assert(content@.skip(n as int) =~= Seq::<char>::empty());
        assert(out@ + Seq::<char>::empty() =~= out@);
    }
    out
}

} // verus!
