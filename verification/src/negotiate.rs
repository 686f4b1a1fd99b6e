//! Content negotiation over an `Accept-Language`-style header: entries are
//! split on `,`; each entry's tag stands before its first `;`, an optional
//! `q=` parameter follows it. Qualities are held in thousandths, clamped to
//! [0, 1000]; an absent or unparseable quality counts as 1.0. The entry with
//! the highest quality whose tag (or its dash-delimited primary subtag)
//! matches a supported tag ASCII-case-insensitively wins, ties going to
//! header order, and the matched supported tag itself is returned; with no
//! match the default tag is returned.

use vstd::prelude::*;
use vstd::string::StrSliceExecFns;
use vstd::string::StringExecFns;
use crate::strutil::find_char;
use crate::strutil::first_index_of;
use crate::strutil::lemma_first_index_of;
use crate::strutil::lower_seq;
use crate::strutil::eq_ignore_case;
use crate::strutil::split_spec;
use crate::strutil::split_str;
use crate::strutil::trim_spec;
use crate::strutil::trim_str;

verus! {

/// A decimal digit.
pub open spec fn is_digit(c: char) -> bool {
    48 <= c as u32 <= 57
}

/// Whether every character of `s` is a decimal digit.
pub open spec fn all_digits(s: Seq<char>) -> bool {
    forall|k: int| 0 <= k < s.len() ==> is_digit(#[trigger] s[k])
}

/// The value of a digit string read left to right, capped at 10000.
pub open spec fn digits_value_capped(s: Seq<char>) -> int
    decreases s.len(),
{
    if s.len() == 0 {
        0
    } else {
        let prev = digits_value_capped(s.take(s.len() - 1));
        let v = prev * 10 + (s[s.len() - 1] as u32 - 48);
        if v > 10000 {
            10000
        } else {
            v
        }
    }
}

/// The thousandths contributed by up to three fraction digits.
pub open spec fn frac_milli(s: Seq<char>) -> int {
    (if s.len() >= 1 {
        (s[0] as u32 - 48) * 100
    } else {
        0
    }) + (if s.len() >= 2 {
        (s[1] as u32 - 48) * 10
    } else {
        0
    }) + (if s.len() >= 3 {
        (s[2] as u32 - 48) as int
    } else {
        0
    })
}

/// The quality a `q=` value stands for, in thousandths clamped to 1000:
/// digits, optionally followed by a point and fraction digits; any other
/// shape counts as 1.0.
pub open spec fn parse_q_spec(s: Seq<char>) -> int {
    match first_index_of(s, '.') {
        None => if s.len() > 0 && all_digits(s) {
            let v = digits_value_capped(s) * 1000;
            if v > 1000 {
                1000
            } else {
                v
            }
        } else {
            1000
        },
        Some(i) => {
            let ip = s.take(i);
            let fp = s.skip(i + 1);
            if ip.len() > 0 && all_digits(ip) && all_digits(fp) {
                let v = digits_value_capped(ip) * 1000 + frac_milli(fp);
                if v > 1000 {
                    1000
                } else {
                    v
                }
            } else {
                1000
            }
        },
    }
}

/// The tag text of one header entry: what stands before its first `;`.
pub open spec fn tag_part(chunk: Seq<char>) -> Seq<char> {
    match first_index_of(chunk, ';') {
        None => chunk,
        Some(i) => chunk.take(i),
    }
}

/// The parameter section of one header entry: what stands between its first
/// and second `;` (or its end).
pub open spec fn q_section(rest: Seq<char>) -> Seq<char> {
    match first_index_of(rest, ';') {
        None => rest,
        Some(j) => rest.take(j),
    }
}

/// The quality of a parameter section: its `q=` value, or 1.0 when it does
/// not start with `q=` after trimming.
pub open spec fn section_quality(sec: Seq<char>) -> int {
    let t = trim_spec(sec);
    if t.len() >= 2 && t[0] == 'q' && t[1] == '=' {
        parse_q_spec(t.skip(2))
    } else {
        1000
    }
}

/// The quality of one header entry: 1.0 with no `;`, else the quality of
/// the first parameter section.
pub open spec fn entry_quality(chunk: Seq<char>) -> int {
    match first_index_of(chunk, ';') {
        None => 1000,
        Some(i) => section_quality(q_section(chunk.skip(i + 1))),
    }
}

/// One header entry parsed: its quality and trimmed tag, or `None` when the
/// trimmed tag is empty (such entries are discarded).
pub open spec fn entry_spec(chunk: Seq<char>) -> Option<(int, Seq<char>)> {
    let tag = trim_spec(tag_part(chunk));
    if tag.len() == 0 {
        None
    } else {
        Some((entry_quality(chunk), tag))
    }
}

/// All usable entries of the split header, in header order.
pub open spec fn pref_entries(chunks: Seq<Seq<char>>) -> Seq<(int, Seq<char>)>
    decreases chunks.len(),
{
    if chunks.len() == 0 {
        Seq::empty()
    } else {
        let front = pref_entries(chunks.drop_last());
        match entry_spec(chunks.last()) {
            None => front,
            Some(e) => front.push(e),
        }
    }
}

/// The first supported tag equal to `tag` after ASCII case folding.
pub open spec fn ci_lookup(supported: Seq<Seq<char>>, tag: Seq<char>) -> Option<Seq<char>>
    decreases supported.len(),
{
    if supported.len() == 0 {
        None
    } else if lower_seq(supported[0]) == lower_seq(tag) {
        Some(supported[0])
    } else {
        ci_lookup(supported.skip(1), tag)
    }
}

/// The supported tag one entry resolves to: by its full tag first, then by
/// its dash-delimited primary subtag.
pub open spec fn resolve_spec(tag: Seq<char>, supported: Seq<Seq<char>>) -> Option<Seq<char>> {
    match ci_lookup(supported, tag) {
        Some(s) => Some(s),
        None => match first_index_of(tag, '-') {
            None => None,
            Some(i) => ci_lookup(supported, tag.take(i)),
        },
    }
}

/// The winning entry: highest quality whose tag resolves to a supported
/// tag, earliest in header order on ties, as (quality, resolved tag).
pub open spec fn pick_best(entries: Seq<(int, Seq<char>)>, supported: Seq<Seq<char>>) -> Option<
    (int, Seq<char>),
>
    decreases entries.len(),
{
    if entries.len() == 0 {
        None
    } else {
        let front = pick_best(entries.drop_last(), supported);
        let e = entries.last();
        match resolve_spec(e.1, supported) {
            None => front,
            Some(res) => match front {
                None => Some((e.0, res)),
                Some(b) => if e.0 > b.0 {
                    Some((e.0, res))
                } else {
                    front
                },
            },
        }
    }
}

/// The view of an optional borrowed header value.
pub open spec fn opt_view(header: Option<&String>) -> Option<Seq<char>> {
    match header {
        None => None,
        Some(h) => Some(h@),
    }
}

/// What negotiation returns: the default tag with no header or no match,
/// else the supported tag the best-quality matching entry resolves to.
pub open spec fn negotiate_spec(
    header: Option<Seq<char>>,
    supported: Seq<Seq<char>>,
    default_tag: Seq<char>,
) -> Seq<char> {
    match header {
        None => default_tag,
        Some(h) => match pick_best(pref_entries(split_spec(h, ',')), supported) {
            None => default_tag,
            Some(b) => b.1,
        },
    }
}

fn all_digits_exec(s: &str) -> (b: bool)
    ensures
        b == all_digits(s@),
{
    let n = s.unicode_len();
    let mut i: usize = 0;
    while i < n
        invariant
            n == s@.len(),
            i <= n,
            forall|k: int| 0 <= k < i ==> is_digit(#[trigger] s@[k]),
        decreases n - i,
    {
        let u = s.get_char(i) as u32;
        if u < 48 || u > 57 {
            return false;
        }
        i = i + 1;
    }
    true
}

fn capped_value(s: &str) -> (v: u32)
    requires
        all_digits(s@),
    ensures
        v as int == digits_value_capped(s@),
        v <= 10000,
{
    let n = s.unicode_len();
    let mut acc: u32 = 0;
    let mut i: usize = 0;
    proof {
        assert(s@.take(0) =~= Seq::<char>::empty());
    }
    while i < n
        invariant
            n == s@.len(),
            i <= n,
            all_digits(s@),
            acc <= 10000,
            acc as int == digits_value_capped(s@.take(i as int)),
        decreases n - i,
    {
        let d = s.get_char(i) as u32 - 48;
        let mut next = acc * 10 + d;
        if next > 10000 {
            next = 10000;
        }
        proof {
            assert(s@.take(i as int + 1).take(i as int) =~= s@.take(i as int));
            assert(s@.take(i as int + 1).last() == s@[i as int]);
        }
        acc = next;
        i = i + 1;
    }
    proof {
        assert(s@.take(n as int) =~= s@);
    }
    acc
}

fn frac_value(s: &str) -> (v: u32)
    requires
        all_digits(s@),
    ensures
        v as int == frac_milli(s@),
        v <= 999,
{
    let n = s.unicode_len();
    let mut v: u32 = 0;
    if n >= 1 {
        v = v + (s.get_char(0) as u32 - 48) * 100;
    }
    if n >= 2 {
        v = v + (s.get_char(1) as u32 - 48) * 10;
    }
    if n >= 3 {
        v = v + (s.get_char(2) as u32 - 48);
    }
    v
}

fn parse_q(s: &str) -> (r: u32)
    ensures
        r as int == parse_q_spec(s@),
        r <= 1000,
{
    let n = s.unicode_len();
    match find_char(s, '.') {
        None => {
            if n > 0 && all_digits_exec(s) {
                let v = capped_value(s);
                let q = v * 1000;
                if q > 1000 {
                    1000
                } else {
                    q
                }
            } else {
                1000
            }
        },
        Some(i) => {
            proof {
                lemma_first_index_of(s@, '.');
            }
            let ip = s.substring_char(0, i);
            let fp = s.substring_char(i + 1, n);
            proof {
                assert(ip@ =~= s@.take(i as int));
                assert(fp@ =~= s@.skip(i + 1));
            }
            if i > 0 && all_digits_exec(ip) && all_digits_exec(fp) {
                let v = capped_value(ip);
                let f = frac_value(fp);
                let q = v * 1000 + f;
                if q > 1000 {
                    1000
                } else {
                    q
                }
            } else {
                1000
            }
        },
    }
}

fn entry_of(chunk: &str) -> (r: Option<(u32, String)>)
    ensures
        match r {
            Some(e) => entry_spec(chunk@) == Some((e.0 as int, e.1@)) && e.0 <= 1000,
            None => entry_spec(chunk@) is None,
        },
{
    let n = chunk.unicode_len();
    let tag_text;
    let mut quality: u32 = 1000;
    match find_char(chunk, ';') {
        None => {
            tag_text = trim_str(chunk);
        },
        Some(i) => {
            proof {
                lemma_first_index_of(chunk@, ';');
            }
            let head = chunk.substring_char(0, i);
            proof {
                assert(head@ =~= chunk@.take(i as int));
            }
            tag_text = trim_str(head);
            let rest = chunk.substring_char(i + 1, n);
            proof {
                assert(rest@ =~= chunk@.skip(i + 1));
            }
            let sec = match find_char(rest, ';') {
                None => rest,
                Some(j) => {
                    proof {
                        lemma_first_index_of(rest@, ';');
                    }
                    let cut = rest.substring_char(0, j);
                    proof {
                        assert(cut@ =~= rest@.take(j as int));
                    }
                    cut
                },
            };
            let tsec = trim_str(sec);
            let m = tsec.as_str().unicode_len();
            if m >= 2 && tsec.as_str().get_char(0) == 'q' && tsec.as_str().get_char(1) == '=' {
                let val = tsec.as_str().substring_char(2, m);
                proof {
                    assert(val@ =~= tsec@.skip(2));
                }
                quality = parse_q(val);
            }
        },
    }
    if tag_text.as_str().unicode_len() == 0 {
        None
    } else {
        Some((quality, tag_text))
    }
}

fn ci_find(supported: &Vec<String>, tag: &str) -> (r: Option<String>)
    ensures
        match r {
            Some(s) => ci_lookup(supported.deep_view(), tag@) == Some(s@),
            None => ci_lookup(supported.deep_view(), tag@) is None,
        },
{
    let n = supported.len();
    let mut i: usize = 0;
    proof {
        assert(supported.deep_view().skip(0) =~= supported.deep_view());
    }
    while i < n
        invariant
            n == supported@.len(),
            i <= n,
            ci_lookup(supported.deep_view(), tag@) == ci_lookup(
                supported.deep_view().skip(i as int),
                tag@,
            ),
        decreases n - i,
    {
        proof {
            assert(supported.deep_view().skip(i as int)[0] == supported.deep_view()[i as int]);
        }
        if eq_ignore_case(supported[i].as_str(), tag) {
            return Some(supported[i].clone());
        }
        proof {
            assert(supported.deep_view().skip(i as int).skip(1) =~= supported.deep_view().skip(
                i as int + 1,
            ));
        }
        i = i + 1;
    }
    proof {
        assert(supported.deep_view().skip(n as int) =~= Seq::<Seq<char>>::empty());
    }
    None
}

fn resolve_tag(tag: &String, supported: &Vec<String>) -> (r: Option<String>)
    ensures
        match r {
            Some(s) => resolve_spec(tag@, supported.deep_view()) == Some(s@),
            None => resolve_spec(tag@, supported.deep_view()) is None,
        },
{
    match ci_find(supported, tag.as_str()) {
        Some(s) => Some(s),
        None => {
            match find_char(tag.as_str(), '-') {
                None => None,
                Some(i) => {
                    proof {
                        lemma_first_index_of(tag@, '-');
                    }
                    let primary = tag.as_str().substring_char(0, i);
                    proof {
                        assert(primary@ =~= tag@.take(i as int));
                    }
                    ci_find(supported, primary)
                },
            }
        },
    }
}

/// Negotiates the response language: parses the header's ranked entries and
/// returns the supported tag the best matching entry resolves to, or the
/// default tag when the header is absent or nothing matches.
pub fn negotiate(header: Option<&String>, supported: &Vec<String>, default_tag: &String) -> (r:
    String)
    ensures
        r@ == negotiate_spec(opt_view(header), supported.deep_view(), default_tag@),
{
    let h = match header {
        None => {
            return default_tag.clone();
        },
        Some(h) => h,
    };
    let chunks = split_str(h.as_str(), ',');
    let nc = chunks.len();
    let mut entries: Vec<(u32, String)> = Vec::new();
    let mut i: usize = 0;
    proof {
        assert(chunks.deep_view().take(0) =~= Seq::<Seq<char>>::empty());
    }
    while i < nc
        invariant
            nc == chunks@.len(),
            i <= nc,
            forall|k: int| 0 <= k < entries@.len() ==> (#[trigger] entries@[k]).0 <= 1000,
            entries.deep_view().map_values(|e: (u32, Seq<char>)| (e.0 as int, e.1))
                =~= pref_entries(chunks.deep_view().take(i as int)),
        decreases nc - i,
    {
        let ghost e0 = entries.deep_view();
        match entry_of(chunks[i].as_str()) {
            None => {
                proof {
                    assert(chunks.deep_view().take(i as int + 1).drop_last() =~= chunks.deep_view()
                        .take(i as int));
                    assert(chunks.deep_view().take(i as int + 1).last() == chunks.deep_view()[
                        i as int
                    ]);
                }
            },
            Some(e) => {
                let ghost gv = (e.0, e.1@);
                entries.push(e);
                proof {
                    assert(chunks.deep_view().take(i as int + 1).drop_last() =~= chunks.deep_view()
                        .take(i as int));
                    assert(chunks.deep_view().take(i as int + 1).last() == chunks.deep_view()[
                        i as int
                    ]);
                    assert(entries.deep_view() =~= e0.push(gv));
                    assert(entries.deep_view().map_values(|e: (u32, Seq<char>)| (e.0 as int, e.1))
                        =~= pref_entries(chunks.deep_view().take(i as int + 1)));
                }
            },
        }
        i = i + 1;
    }
    proof {
        assert(chunks.deep_view().take(nc as int) =~= chunks.deep_view());
    }
    let ghost eview = entries.deep_view().map_values(|e: (u32, Seq<char>)| (e.0 as int, e.1));
    let ne = entries.len();
    let mut best: Option<(u32, String)> = None;
    let mut j: usize = 0;
    proof {
        assert(eview.take(0) =~= Seq::<(int, Seq<char>)>::empty());
    }
    while j < ne
        invariant
            ne == entries@.len(),
            j <= ne,
            eview == entries.deep_view().map_values(|e: (u32, Seq<char>)| (e.0 as int, e.1)),
            forall|k: int| 0 <= k < entries@.len() ==> (#[trigger] entries@[k]).0 <= 1000,
            match best {
                None => pick_best(eview.take(j as int), supported.deep_view()) is None,
                Some(b) => pick_best(eview.take(j as int), supported.deep_view()) == Some(
                    (b.0 as int, b.1@),
                ),
            },
        decreases ne - j,
    {
        proof {
            assert(eview.take(j as int + 1).drop_last() =~= eview.take(j as int));
            assert(eview.take(j as int + 1).last() == eview[j as int]);
        }
        match resolve_tag(&entries[j].1, supported) {
            None => {},
            Some(res) => {
                let q = entries[j].0;
                match &best {
                    None => {
                        best = Some((q, res));
                    },
                    Some(b) => {
                        if q > b.0 {
                            best = Some((q, res));
                        }
                    },
                }
            },
        }
        j = j + 1;
    }
    proof {
        assert(eview.take(ne as int) =~= eview);
    }
    match best {
        None => default_tag.clone(),
        Some(b) => b.1,
    }
}

/// Negotiation is idempotent on a header holding one supported tag and no
/// quality parameter: when the header is exactly a tag without comma,
/// semicolon or surrounding whitespace, and the first supported tag equal
/// to it under ASCII case folding is the tag itself, negotiation returns
/// that tag unchanged.
pub proof fn lemma_negotiate_idempotent(
    tag: Seq<char>,
    supported: Seq<Seq<char>>,
    default_tag: Seq<char>,
)
    requires
        tag.len() > 0,
        forall|k: int| 0 <= k < tag.len() ==> (#[trigger] tag[k]) != ',' && tag[k] != ';',
        !crate::strutil::is_space(tag[0]),
        !crate::strutil::is_space(tag[tag.len() - 1]),
        ci_lookup(supported, tag) == Some(tag),
    ensures
        negotiate_spec(Some(tag), supported, default_tag) == tag,
{
    crate::strutil::lemma_first_index_of_none(tag, ',');
    assert(split_spec(tag, ',') == seq![tag]);
    crate::strutil::lemma_first_index_of_none(tag, ';');
    assert(tag_part(tag) == tag);
    assert(crate::strutil::trim_start_spec(tag) == tag);
    assert(crate::strutil::trim_end_spec(tag) == tag);
    assert(trim_spec(tag) == tag);
    assert(entry_quality(tag) == 1000);
    assert(entry_spec(tag) == Some((1000int, tag)));
    let chunks = seq![tag];
    assert(chunks.drop_last() =~= Seq::<Seq<char>>::empty());
    assert(chunks.last() == tag);
    assert(pref_entries(Seq::<Seq<char>>::empty()) == Seq::<(int, Seq<char>)>::empty());
    let entries = pref_entries(chunks);
    assert(entries == Seq::<(int, Seq<char>)>::empty().push((1000int, tag)));
    assert(entries.drop_last() =~= Seq::<(int, Seq<char>)>::empty());
    assert(entries.last() == (1000int, tag));
    assert(pick_best(Seq::<(int, Seq<char>)>::empty(), supported) is None);
    assert(resolve_spec(tag, supported) == Some(tag));
    assert(pick_best(entries, supported) == Some((1000int, tag)));
}

} // verus!
