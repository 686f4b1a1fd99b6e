//! Message templates: a raw string with `{name}` placeholders parsed into an
//! ordered sequence of literal and placeholder segments. An unterminated
//! `{` degrades to literal text — the remainder of the input, the orphan
//! brace included, stays literal instead of failing; no escape syntax for a
//! literal `{` is defined.

use vstd::prelude::*;
use vstd::string::StrSliceExecFns;
use vstd::string::StringExecFns;
use crate::strutil::find_char;
use crate::strutil::first_index_of;
use crate::strutil::lemma_first_index_of;

verus! {

/// One piece of a parsed message template.
#[derive(Debug, Clone, PartialEq)]
pub enum I18nPart {
    Static(String),
    Placeholder(String),
}

/// The mathematical model of a template piece.
pub enum Seg {
    Lit(Seq<char>),
    Ph(Seq<char>),
}

impl View for I18nPart {
    type V = Seg;

    open spec fn view(&self) -> Seg {
        match self {
            I18nPart::Static(s) => Seg::Lit(s@),
            I18nPart::Placeholder(p) => Seg::Ph(p@),
        }
    }
}

impl DeepView for I18nPart {
    type V = Seg;

    open spec fn deep_view(&self) -> Seg {
        self.view()
    }
}

/// The segments of `s`: literal text up to each `{`, placeholder names up to
/// the matching `}`; from an open brace with no later close brace, the
/// whole remainder (that brace included) is one literal segment.
pub open spec fn parse_spec(s: Seq<char>) -> Seq<Seg>
    decreases s.len() via parse_spec_dec
{
    match first_index_of(s, '{') {
        None => if s.len() == 0 {
            Seq::empty()
        } else {
            seq![Seg::Lit(s)]
        },
        Some(i) => {
            let pre: Seq<Seg> = if i > 0 {
                seq![Seg::Lit(s.take(i))]
            } else {
                Seq::empty()
            };
            let rest = s.skip(i + 1);
            match first_index_of(rest, '}') {
                None => pre + seq![Seg::Lit(s.skip(i))],
                Some(j) => pre + seq![Seg::Ph(rest.take(j))] + parse_spec(rest.skip(j + 1)),
            }
        },
    }
}

#[via_fn]
proof fn parse_spec_dec(s: Seq<char>) {
    lemma_first_index_of(s, '{');
    match first_index_of(s, '{') {
        None => {},
        Some(i) => {
            lemma_first_index_of(s.skip(i + 1), '}');
        },
    }
}

/// Parses a raw message into its literal and placeholder segments.
pub fn parse_template(raw: &str) -> (parts: Vec<I18nPart>)
    ensures
        parts.deep_view() == parse_spec(raw@),
    decreases raw@.len(),
{
    match find_char(raw, '{') {
        None => {
            let mut v: Vec<I18nPart> = Vec::new();
            if raw.unicode_len() > 0 {
                v.push(I18nPart::Static(String::from_str(raw)));
            }
            proof {
                assert(v.deep_view() =~= parse_spec(raw@));
            }
            v
        },
        Some(i) => {
            proof {
                lemma_first_index_of(raw@, '{');
            }
            let n = raw.unicode_len();
            let rest = raw.substring_char(i + 1, n);
            proof {
                assert(rest@ =~= raw@.skip(i + 1));
            }
            let mut v: Vec<I18nPart> = Vec::new();
            if i > 0 {
                v.push(I18nPart::Static(String::from_str(raw.substring_char(0, i))));
            }
            match find_char(rest, '}') {
                None => {
                    let tail = raw.substring_char(i, n);
                    proof {
                        assert(tail@ =~= raw@.skip(i as int));
                    }
                    v.push(I18nPart::Static(String::from_str(tail)));
                    proof {
                        assert(v.deep_view() =~= parse_spec(raw@));
                    }
                    v
                },
                Some(j) => {
                    proof {
                        lemma_first_index_of(rest@, '}');
                    }
                    let m = rest.unicode_len();
                    let name = rest.substring_char(0, j);
                    let after = rest.substring_char(j + 1, m);
                    proof {
                        assert(name@ =~= raw@.skip(i + 1).take(j as int));
                        assert(after@ =~= raw@.skip(i + 1).skip(j + 1));
                    }
                    v.push(I18nPart::Placeholder(String::from_str(name)));
                    let mut tail = parse_template(after);
                    v.append(&mut tail);
                    proof {
                        assert(v.deep_view() =~= parse_spec(raw@));
                    }
                    v
                },
            }
        },
    }
}

/// The source text one segment stands for: a literal verbatim, a placeholder
/// with its braces put back.
pub open spec fn rejoin_seg(g: Seg) -> Seq<char> {
    match g {
        Seg::Lit(t) => t,
        Seg::Ph(p) => seq!['{'] + p + seq!['}'],
    }
}

/// The source text a whole segment sequence stands for.
pub open spec fn rejoin(parts: Seq<Seg>) -> Seq<char>
    decreases parts.len(),
{
    if parts.len() == 0 {
        Seq::empty()
    } else {
        rejoin_seg(parts[0]) + rejoin(parts.skip(1))
    }
}

pub proof fn lemma_rejoin_add(a: Seq<Seg>, b: Seq<Seg>)
    ensures
        rejoin(a + b) == rejoin(a) + rejoin(b),
    decreases a.len(),
{
    if a.len() == 0 {
        assert(a + b =~= b);
        assert(rejoin(a) + rejoin(b) =~= rejoin(b));
    } else {
        assert((a + b).skip(1) =~= a.skip(1) + b);
        lemma_rejoin_add(a.skip(1), b);
        assert((a + b)[0] == a[0]);
        assert(rejoin_seg(a[0]) + (rejoin(a.skip(1)) + rejoin(b)) =~= (rejoin_seg(a[0]) + rejoin(
            a.skip(1),
        )) + rejoin(b));
    }
}

pub proof fn lemma_rejoin_one(g: Seg)
    ensures
        rejoin(seq![g]) == rejoin_seg(g),
{
    assert(seq![g].skip(1) =~= Seq::<Seg>::empty());
    assert(rejoin(Seq::<Seg>::empty()) == Seq::<char>::empty());
    assert(rejoin(seq![g]) =~= rejoin_seg(g));
}

/// The source text a parsed template stands for, braces restored.
pub fn template_text(parts: &Vec<I18nPart>) -> (r: String)
    ensures
        r@ == rejoin(parts.deep_view()),
{
    let n = parts.len();
    let mut out = String::new();
    let mut i: usize = 0;
    while i < n
        invariant
            n == parts@.len(),
            i <= n,
            out@ == rejoin(parts.deep_view().take(i as int)),
        decreases n - i,
    {
        match &parts[i] {
            I18nPart::Static(s) => {
                out.append(s.as_str());
            },
            I18nPart::Placeholder(p) => {
                out.push('{');
                out.append(p.as_str());
                out.push('}');
            },
        }
        proof {
            let pv = parts.deep_view();
            assert(pv.take(i as int + 1) =~= pv.take(i as int) + seq![pv[i as int]]);
            lemma_rejoin_add(pv.take(i as int), seq![pv[i as int]]);
            lemma_rejoin_one(pv[i as int]);
            assert(out@ =~= rejoin(pv.take(i as int + 1)));
        }
        i = i + 1;
    }
    proof {
        assert(parts.deep_view().take(n as int) =~= parts.deep_view());
    }
    out
}

/// Parsing is lossless: re-joining the parsed segments' literal text and
/// placeholder names, in order and with placeholder braces restored,
/// reconstructs the text exactly — on every input, texts with no dangling
/// open brace included.
pub proof fn lemma_parse_lossless(s: Seq<char>)
    ensures
        rejoin(parse_spec(s)) == s,
    decreases s.len(),
{
    lemma_first_index_of(s, '{');
    match first_index_of(s, '{') {
        None => {
            if s.len() > 0 {
                lemma_rejoin_one(Seg::Lit(s));
            }
        },
        Some(i) => {
            let pre: Seq<Seg> = if i > 0 {
                seq![Seg::Lit(s.take(i))]
            } else {
                Seq::empty()
            };
            if i > 0 {
                lemma_rejoin_one(Seg::Lit(s.take(i)));
            } else {
                assert(rejoin(Seq::<Seg>::empty()) == Seq::<char>::empty());
            }
            let rest = s.skip(i + 1);
            lemma_first_index_of(rest, '}');
            match first_index_of(rest, '}') {
                None => {
                    let mid: Seq<Seg> = seq![Seg::Lit(s.skip(i))];
                    lemma_rejoin_add(pre, mid);
                    lemma_rejoin_one(Seg::Lit(s.skip(i)));
                    assert(rejoin(pre) + s.skip(i) =~= s);
                },
                Some(j) => {
                    let name = rest.take(j);
                    let after = rest.skip(j + 1);
                    lemma_parse_lossless(after);
                    let mid: Seq<Seg> = seq![Seg::Ph(name)];
                    lemma_rejoin_add(pre + mid, parse_spec(after));
                    lemma_rejoin_add(pre, mid);
                    lemma_rejoin_one(Seg::Ph(name));
                    assert(rejoin(pre) + rejoin(mid) + after =~= s);
                },
            }
        },
    }
}

} // verus!
