//! The message catalog: language tag -> message key -> parsed template,
//! built exactly once per store (the first successful build wins, later
//! builds are no-ops), read-only afterwards; and the renderer that resolves
//! (language, key, arguments) to a final string with sentinel text for a
//! missing language or key.

use vstd::prelude::*;
use vstd::string::StrSliceExecFns;
use vstd::string::StringExecFns;
use crate::template::I18nPart;
use crate::template::Seg;
use crate::template::parse_spec;
use crate::template::parse_template;
use crate::template::rejoin;
use crate::strutil::pairs_view;
use crate::strutil::string_eq;
use crate::errors::Error;

verus! {

/// One message: its key and its parsed template.
#[derive(Debug, Clone, PartialEq)]
pub struct MessageEntry {
    pub key: String,
    pub template: Vec<I18nPart>,
}

/// All messages of one language.
#[derive(Debug, Clone, PartialEq)]
pub struct LangPack {
    pub tag: String,
    pub entries: Vec<MessageEntry>,
}

/// The process-wide message store: built once, then read-only.
#[derive(Debug, Clone, PartialEq)]
pub struct Catalog {
    pub built: bool,
    pub langs: Vec<LangPack>,
}

/// The model of a language's entries: key and template segments, in order.
pub open spec fn entries_model(entries: Seq<MessageEntry>) -> Seq<(Seq<char>, Seq<Seg>)> {
    entries.map_values(|e: MessageEntry| (e.key@, e.template.deep_view()))
}

/// The model of the whole store: tag and entry model per language, in order.
pub open spec fn langs_model(langs: Seq<LangPack>) -> Seq<(Seq<char>, Seq<(Seq<char>, Seq<Seg>)>)> {
    langs.map_values(|lp: LangPack| (lp.tag@, entries_model(lp.entries@)))
}

/// The entries of the first language pack carrying `tag`, if any.
pub open spec fn lang_lookup(langs: Seq<LangPack>, tag: Seq<char>) -> Option<Seq<MessageEntry>>
    decreases langs.len(),
{
    if langs.len() == 0 {
        None
    } else if langs[0].tag@ == tag {
        Some(langs[0].entries@)
    } else {
        lang_lookup(langs.skip(1), tag)
    }
}

/// The template of the first entry carrying `key`, if any.
pub open spec fn entry_lookup(entries: Seq<MessageEntry>, key: Seq<char>) -> Option<Seq<Seg>>
    decreases entries.len(),
{
    if entries.len() == 0 {
        None
    } else if entries[0].key@ == key {
        Some(entries[0].template.deep_view())
    } else {
        entry_lookup(entries.skip(1), key)
    }
}

/// The parsed template the store holds for (`lang`, `key`), if any.
pub open spec fn cat_template(cat: Catalog, lang: Seq<char>, key: Seq<char>) -> Option<Seq<Seg>> {
    match lang_lookup(cat.langs@, lang) {
        None => None,
        Some(entries) => entry_lookup(entries, key),
    }
}

impl Catalog {
    /// An empty, not-yet-built store.
    pub fn new() -> (r: Catalog)
        ensures
            !r.built,
            r.langs@ =~= Seq::<LangPack>::empty(),
    {
        Catalog { built: false, langs: Vec::new() }
    }
}

fn find_lang<'a>(langs: &'a Vec<LangPack>, tag: &String) -> (r: Option<&'a Vec<MessageEntry>>)
    ensures
        match r {
            Some(entries) => lang_lookup(langs@, tag@) == Some(entries@),
            None => lang_lookup(langs@, tag@) is None,
        },
{
    let n = langs.len();
    let mut i: usize = 0;
    proof {
        assert(langs@.skip(0) =~= langs@);
    }
    while i < n
        invariant
            n == langs@.len(),
            i <= n,
            lang_lookup(langs@, tag@) == lang_lookup(langs@.skip(i as int), tag@),
        decreases n - i,
    {
        proof {
            assert(langs@.skip(i as int)[0] == langs@[i as int]);
        }
        if string_eq(&langs[i].tag, tag) {
            return Some(&langs[i].entries);
        }
        proof {
            assert(langs@.skip(i as int).skip(1) =~= langs@.skip(i as int + 1));
        }
        i = i + 1;
    }
    proof {
        assert(langs@.skip(n as int) =~= Seq::<LangPack>::empty());
    }
    None
}

fn find_entry<'a>(entries: &'a Vec<MessageEntry>, key: &String) -> (r: Option<
    &'a Vec<I18nPart>,
>)
    ensures
        match r {
            Some(tpl) => entry_lookup(entries@, key@) == Some(tpl.deep_view()),
            None => entry_lookup(entries@, key@) is None,
        },
{
    let n = entries.len();
    let mut i: usize = 0;
    proof {
        assert(entries@.skip(0) =~= entries@);
    }
    while i < n
        invariant
            n == entries@.len(),
            i <= n,
            entry_lookup(entries@, key@) == entry_lookup(entries@.skip(i as int), key@),
        decreases n - i,
    {
        proof {
            assert(entries@.skip(i as int)[0] == entries@[i as int]);
        }
        if string_eq(&entries[i].key, key) {
            return Some(&entries[i].template);
        }
        proof {
            assert(entries@.skip(i as int).skip(1) =~= entries@.skip(i as int + 1));
        }
        i = i + 1;
    }
    proof {
        assert(entries@.skip(n as int) =~= Seq::<MessageEntry>::empty());
    }
    None
}

/// The parsed template stored for (`lang`, `key`), if any.
pub fn get_template<'a>(cat: &'a Catalog, lang: &str, key: &str) -> (r: Option<
    &'a Vec<I18nPart>,
>)
    ensures
        match r {
            Some(tpl) => cat_template(*cat, lang@, key@) == Some(tpl.deep_view()),
            None => cat_template(*cat, lang@, key@) is None,
        },
{
    let lang_s = String::from_str(lang);
    match find_lang(&cat.langs, &lang_s) {
        None => None,
        Some(entries) => {
            let key_s = String::from_str(key);
            find_entry(entries, &key_s)
        },
    }
}

/// The value substituted for a placeholder: the first argument with that
/// name, or the empty string when none matches.
pub open spec fn arg_lookup(args: Seq<(Seq<char>, Seq<char>)>, name: Seq<char>) -> Seq<char>
    decreases args.len(),
{
    if args.len() == 0 {
        Seq::empty()
    } else if args[0].0 == name {
        args[0].1
    } else {
        arg_lookup(args.skip(1), name)
    }
}

/// What one segment renders to under the given arguments.
pub open spec fn render_seg(g: Seg, args: Seq<(Seq<char>, Seq<char>)>) -> Seq<char> {
    match g {
        Seg::Lit(t) => t,
        Seg::Ph(p) => arg_lookup(args, p),
    }
}

/// What a whole template renders to under the given arguments.
pub open spec fn render_parts(parts: Seq<Seg>, args: Seq<(Seq<char>, Seq<char>)>) -> Seq<char>
    decreases parts.len(),
{
    if parts.len() == 0 {
        Seq::empty()
    } else {
        render_seg(parts[0], args) + render_parts(parts.skip(1), args)
    }
}

proof fn lemma_render_parts_snoc(parts: Seq<Seg>, g: Seg, args: Seq<(Seq<char>, Seq<char>)>)
    ensures
        render_parts(parts.push(g), args) == render_parts(parts, args) + render_seg(g, args),
    decreases parts.len(),
{
    if parts.len() == 0 {
        assert(parts.push(g)[0] == g);
        assert(parts.push(g).skip(1) =~= Seq::<Seg>::empty());
        assert(render_parts(Seq::<Seg>::empty(), args) == Seq::<char>::empty());
        assert(render_parts(parts.push(g), args) =~= render_seg(g, args));
        assert(render_parts(parts, args) + render_seg(g, args) =~= render_seg(g, args));
    } else {
        assert(parts.push(g).skip(1) =~= parts.skip(1).push(g));
        lemma_render_parts_snoc(parts.skip(1), g, args);
        assert(render_seg(parts.push(g)[0], args) + (render_parts(parts.skip(1), args)
            + render_seg(g, args)) =~= (render_seg(parts[0], args) + render_parts(
            parts.skip(1),
            args,
        )) + render_seg(g, args));
    }
}

fn lookup_arg(args: &Vec<(String, String)>, name: &String) -> (r: String)
    ensures
        r@ == arg_lookup(pairs_view(args@), name@),
{
    let n = args.len();
    let mut i: usize = 0;
    proof {
        assert(pairs_view(args@).skip(0) =~= pairs_view(args@));
    }
    while i < n
        invariant
            n == args@.len(),
            i <= n,
            arg_lookup(pairs_view(args@), name@) == arg_lookup(
                pairs_view(args@).skip(i as int),
                name@,
            ),
        decreases n - i,
    {
        proof {
            assert(pairs_view(args@).skip(i as int)[0] == pairs_view(args@)[i as int]);
        }
        if string_eq(&args[i].0, name) {
            return args[i].1.clone();
        }
        proof {
            assert(pairs_view(args@).skip(i as int).skip(1) =~= pairs_view(args@).skip(
                i as int + 1,
            ));
        }
        i = i + 1;
    }
    proof {
        assert(pairs_view(args@).skip(n as int) =~= Seq::<(Seq<char>, Seq<char>)>::empty());
    }
    String::new()
}

fn render_template(tpl: &Vec<I18nPart>, args: &Vec<(String, String)>) -> (r: String)
    ensures
        r@ == render_parts(tpl.deep_view(), pairs_view(args@)),
{
    let n = tpl.len();
    let mut out = String::new();
    let mut i: usize = 0;
    while i < n
        invariant
            n == tpl@.len(),
            i <= n,
            out@ == render_parts(tpl.deep_view().take(i as int), pairs_view(args@)),
        decreases n - i,
    {
        match &tpl[i] {
            I18nPart::Static(s) => {
                out.append(s.as_str());
            },
            I18nPart::Placeholder(p) => {
                let v = lookup_arg(args, p);
                out.append(v.as_str());
            },
        }
        proof {
            assert(tpl.deep_view().take(i as int + 1) =~= tpl.deep_view().take(i as int).push(
                tpl.deep_view()[i as int],
            ));
            lemma_render_parts_snoc(
                tpl.deep_view().take(i as int),
                tpl.deep_view()[i as int],
                pairs_view(args@),
            );
        }
        i = i + 1;
    }
    proof {
        assert(tpl.deep_view().take(n as int) =~= tpl.deep_view());
    }
    out
}

/// The sentinel text for a language absent from the store.
pub open spec fn missing_lang_text(lang: Seq<char>) -> Seq<char> {
    "[Missing Lang: "@ + lang + "]"@
}

/// The sentinel text for a key absent from a present language.
pub open spec fn missing_key_text(key: Seq<char>) -> Seq<char> {
    "[Missing Key: "@ + key + "]"@
}

/// What rendering resolves to: sentinel text for a missing language or key,
/// otherwise the template's literals with each placeholder replaced by the
/// first matching argument (or nothing).
pub open spec fn t_spec(
    cat: Catalog,
    lang: Seq<char>,
    key: Seq<char>,
    args: Seq<(Seq<char>, Seq<char>)>,
) -> Seq<char> {
    match lang_lookup(cat.langs@, lang) {
        None => missing_lang_text(lang),
        Some(entries) => match entry_lookup(entries, key) {
            None => missing_key_text(key),
            Some(parts) => render_parts(parts, args),
        },
    }
}

/// Renders (`lang`, `key`, `args`) against the store. The result is a pure
/// function of the store and the three inputs: identical inputs always
/// produce identical output.
pub fn t(cat: &Catalog, lang: &str, key: &str, args: &Vec<(String, String)>) -> (r: String)
    ensures
        r@ == t_spec(*cat, lang@, key@, pairs_view(args@)),
{
    let lang_s = String::from_str(lang);
    match find_lang(&cat.langs, &lang_s) {
        None => {
            let mut out = String::from_str("[Missing Lang: ");
            out.append(lang);
            out.append("]");
            out
        },
        Some(entries) => {
            let key_s = String::from_str(key);
            match find_entry(entries, &key_s) {
                None => {
                    let mut out = String::from_str("[Missing Key: ");
                    out.append(key);
                    out.append("]");
                    out
                },
                Some(tpl) => render_template(tpl, args),
            }
        },
    }
}

/// Installs pre-parsed language packs. The store is built exactly once:
/// when it is already built the call is a no-op that reports `false` and
/// leaves the first installation in place.
pub fn internal_init_i18n(cat: &mut Catalog, data: Vec<LangPack>) -> (installed: bool)
    ensures
        old(cat).built ==> *final(cat) == *old(cat) && !installed,
        !old(cat).built ==> final(cat).built && final(cat).langs == data && installed,
{
    if cat.built {
        false
    } else {
        cat.langs = data;
        cat.built = true;
        true
    }
}

fn make_entries(pairs: &Vec<(String, String)>) -> (v: Vec<MessageEntry>)
    ensures
        entries_model(v@) == pairs_view(pairs@).map_values(
            |p: (Seq<char>, Seq<char>)| (p.0, parse_spec(p.1)),
        ),
{
    let n = pairs.len();
    let ghost target = pairs_view(pairs@).map_values(
        |p: (Seq<char>, Seq<char>)| (p.0, parse_spec(p.1)),
    );
    let mut v: Vec<MessageEntry> = Vec::new();
    let mut i: usize = 0;
    while i < n
        invariant
            i <= n,
            n == pairs@.len(),
            target == pairs_view(pairs@).map_values(
                |p: (Seq<char>, Seq<char>)| (p.0, parse_spec(p.1)),
            ),
            entries_model(v@) =~= target.take(i as int),
        decreases n - i,
    {
        let tpl = parse_template(pairs[i].1.as_str());
        let ghost v0 = v@;
        let entry = MessageEntry { key: pairs[i].0.clone(), template: tpl };
        let ghost ge = entry;
        v.push(entry);
        proof {
            assert(entries_model(v0).len() == i);
            assert(v@ == v0.push(ge));
            assert(v@[i as int] == ge);
            assert(ge.key@ == pairs@[i as int].0@);
            assert(ge.template.deep_view() == parse_spec(pairs@[i as int].1@));
            assert(pairs_view(pairs@)[i as int] == (pairs@[i as int].0@, pairs@[i as int].1@));
            assert(target[i as int] == (pairs@[i as int].0@, parse_spec(pairs@[i as int].1@)));
            assert(entries_model(v@)[i as int] == target[i as int]);
            assert forall|k: int| 0 <= k < i implies entries_model(v@)[k] == target.take(
                i as int + 1,
            )[k] by {
                assert(v@[k] == v0[k]);
                assert(entries_model(v0)[k] == target.take(i as int)[k]);
            }
            assert(entries_model(v@) =~= target.take(i as int + 1));
        }
        i = i + 1;
    }
    proof {
        assert(target.take(n as int) =~= target);
    }
    v
}

/// The model of raw (tag, key->raw-template) sources after parsing.
pub open spec fn sources_model(sources: Seq<(String, Vec<(String, String)>)>) -> Seq<
    (Seq<char>, Seq<(Seq<char>, Seq<Seg>)>),
> {
    sources.map_values(
        |s: (String, Vec<(String, String)>)|
            (
                s.0@,
                pairs_view(s.1@).map_values(|p: (Seq<char>, Seq<char>)| (p.0, parse_spec(p.1))),
            ),
    )
}

/// Builds the store from raw sources, parsing every template. The first
/// build wins; on a store already built this is a no-op reporting `false`.
pub fn build(cat: &mut Catalog, sources: &Vec<(String, Vec<(String, String)>)>) -> (installed:
    bool)
    ensures
        old(cat).built ==> *final(cat) == *old(cat) && !installed,
        !old(cat).built ==> final(cat).built && installed && langs_model(final(cat).langs@)
            == sources_model(sources@),
{
    if cat.built {
        return false;
    }
    let n = sources.len();
    let mut langs: Vec<LangPack> = Vec::new();
    let mut i: usize = 0;
    while i < n
        invariant
            i <= n,
            n == sources@.len(),
            langs_model(langs@) =~= sources_model(sources@).take(i as int),
        decreases n - i,
    {
        let entries = make_entries(&sources[i].1);
        let ghost l0 = langs@;
        let pack = LangPack { tag: sources[i].0.clone(), entries };
        let ghost gp = pack;
        langs.push(pack);
        proof {
            assert(langs_model(l0).len() == i);
            assert(langs@ == l0.push(gp));
            assert(langs@[i as int] == gp);
            assert(entries_model(gp.entries@) =~= pairs_view(sources@[i as int].1@).map_values(
                |p: (Seq<char>, Seq<char>)| (p.0, parse_spec(p.1)),
            ));
            assert(sources_model(sources@)[i as int] == (
                sources@[i as int].0@,
                pairs_view(sources@[i as int].1@).map_values(
                    |p: (Seq<char>, Seq<char>)| (p.0, parse_spec(p.1)),
                ),
            ));
            assert(langs_model(langs@)[i as int] == sources_model(sources@)[i as int]);
            assert forall|k: int| 0 <= k < i implies langs_model(langs@)[k] == sources_model(
                sources@,
            ).take(i as int + 1)[k] by {
                assert(langs@[k] == l0[k]);
                assert(langs_model(l0)[k] == sources_model(sources@).take(i as int)[k]);
            }
            assert(langs_model(langs@) =~= sources_model(sources@).take(i as int + 1));
        }
        i = i + 1;
    }
    proof {
        assert(sources_model(sources@).take(n as int) =~= sources_model(sources@));
    }
    internal_init_i18n(cat, langs)
}

/// What a TOML table of string keys and string values holds, as ordered
/// pairs, or `None` when the text is not such a table. A function of the
/// text alone.
pub uninterp spec fn toml_table_of(s: Seq<char>) -> Option<Seq<(Seq<char>, Seq<char>)>>;

/// Relies on toml::from_str: parses the text as a TOML table of string keys
/// to string values. The result depends on the text alone; the pairs come
/// out in sorted key order.
#[verifier::external_body]
fn parse_toml_table(content: &str) -> (r: Option<Vec<(String, String)>>)
    ensures
        match r {
            Some(v) => toml_table_of(content@) == Some(pairs_view(v@)),
            None => toml_table_of(content@) is None,
        },
{
    match toml::from_str::<std::collections::BTreeMap<String, String>>(content) {
        Ok(m) => Some(m.into_iter().collect()),
        Err(_) => None,
    }
}

/// The entry model of one parsed TOML table, empty when parsing failed.
pub open spec fn toml_pairs_model(o: Option<Seq<(Seq<char>, Seq<char>)>>) -> Seq<
    (Seq<char>, Seq<Seg>),
> {
    match o {
        Some(pairs) => pairs.map_values(|p: (Seq<char>, Seq<char>)| (p.0, parse_spec(p.1))),
        None => Seq::empty(),
    }
}

/// The language tag a locale file name stands for: the name with its
/// `.toml` suffix removed, or `None` for any other name.
pub open spec fn toml_stem(name: Seq<char>) -> Option<Seq<char>> {
    if name.len() > 5 && name.skip(name.len() - 5) == ".toml"@ {
        Some(name.take(name.len() - 5))
    } else {
        None
    }
}

/// One file of a locale directory, by name and content. A name without the
/// `.toml` suffix or content that is no TOML table yields `None`: the
/// directory builder skips such files instead of failing the build.
pub fn load_locale_entry(file_name: &str, content: &str) -> (r: Option<LangPack>)
    ensures
        match toml_stem(file_name@) {
            None => r is None,
            Some(stem) => match toml_table_of(content@) {
                None => r is None,
                Some(pairs) => r matches Some(lp) && lp.tag@ == stem && entries_model(lp.entries@)
                    == pairs.map_values(|p: (Seq<char>, Seq<char>)| (p.0, parse_spec(p.1))),
            },
        },
{
    let n = file_name.unicode_len();
    if n <= 5 {
        return None;
    }
    let ext = file_name.substring_char(n - 5, n);
    proof {
        assert(file_name@.skip(n - 5) =~= ext@);
    }
    let ext_s = String::from_str(ext);
    let dot_toml = String::from_str(".toml");
    if !string_eq(&ext_s, &dot_toml) {
        return None;
    }
    let stem = file_name.substring_char(0, n - 5);
    proof {
        assert(file_name@.take(n - 5) =~= stem@);
    }
    match parse_toml_table(content) {
        None => None,
        Some(pairs) => {
            let entries = make_entries(&pairs);
            Some(LangPack { tag: String::from_str(stem), entries })
        },
    }
}

/// The model of (tag, TOML text) sources after parsing tables and templates.
pub open spec fn toml_sources_model(sources: Seq<(String, String)>) -> Seq<
    (Seq<char>, Seq<(Seq<char>, Seq<Seg>)>),
> {
    sources.map_values(|s: (String, String)| (s.0@, toml_pairs_model(toml_table_of(s.1@))))
}

/// Builds the store from (language tag, TOML text) sources. Unlike the
/// directory loader, one malformed source fails the whole build and leaves
/// the store untouched; on success the first build wins as in `build`.
pub fn build_from_toml_sources(cat: &mut Catalog, sources: &Vec<(String, String)>) -> (r: Result<
    bool,
    Error,
>)
    ensures
        r is Ok <==> (forall|k: int|
            0 <= k < sources@.len() ==> toml_table_of(#[trigger] sources@[k].1@) is Some),
        r is Err ==> *final(cat) == *old(cat),
        r matches Err(e) ==> e.code == 500,
        r matches Ok(installed) ==> {
            &&& old(cat).built ==> *final(cat) == *old(cat) && !installed
            &&& !old(cat).built ==> final(cat).built && installed && langs_model(
                final(cat).langs@,
            ) == toml_sources_model(sources@)
        },
{
    let n = sources.len();
    let mut langs: Vec<LangPack> = Vec::new();
    let mut i: usize = 0;
    while i < n
        invariant
            i <= n,
            n == sources@.len(),
            langs_model(langs@) =~= toml_sources_model(sources@).take(i as int),
            forall|k: int| 0 <= k < i ==> toml_table_of(#[trigger] sources@[k].1@) is Some,
        decreases n - i,
    {
        match parse_toml_table(sources[i].1.as_str()) {
            None => {
                return Err(
                    Error::new(500).with_message(String::from_str("malformed catalog source")),
                );
            },
            Some(pairs) => {
                let entries = make_entries(&pairs);
                let ghost l0 = langs@;
                let pack = LangPack { tag: sources[i].0.clone(), entries };
                let ghost gp = pack;
                langs.push(pack);
                proof {
                    assert(langs_model(l0).len() == i);
                    assert(langs@ == l0.push(gp));
                    assert(langs@[i as int] == gp);
                    assert(entries_model(gp.entries@) =~= toml_pairs_model(
                        toml_table_of(sources@[i as int].1@),
                    ));
                    assert(toml_sources_model(sources@)[i as int] == (
                        sources@[i as int].0@,
                        toml_pairs_model(toml_table_of(sources@[i as int].1@)),
                    ));
                    assert(langs_model(langs@)[i as int] == toml_sources_model(sources@)[
                        i as int
                    ]);
                    assert forall|k: int| 0 <= k < i implies langs_model(langs@)[k]
                        == toml_sources_model(sources@).take(i as int + 1)[k] by {
                        assert(langs@[k] == l0[k]);
                        assert(langs_model(l0)[k] == toml_sources_model(sources@).take(
                            i as int,
                        )[k]);
                    }
                    assert(langs_model(langs@) =~= toml_sources_model(sources@).take(
                        i as int + 1,
                    ));
                }
            },
        }
        i = i + 1;
    }
    proof {
        assert(toml_sources_model(sources@).take(n as int) =~= toml_sources_model(sources@));
    }
    Ok(internal_init_i18n(cat, langs))
}

/// The plain message text a numeric code stands for: the stored template
/// text under the code's decimal key, or that key itself when absent.
pub open spec fn message_of_spec(cat: Catalog, lang: Seq<char>, code: int) -> Seq<char> {
    match cat_template(cat, lang, crate::strutil::int_dec_str(code)) {
        Some(parts) => rejoin(parts),
        None => crate::strutil::int_dec_str(code),
    }
}

/// Looks up the text a numeric code stands for, falling back to the decimal
/// key itself when the store has nothing for it.
pub fn message_of(cat: &Catalog, lang: &str, code: i32) -> (r: String)
    ensures
        r@ == message_of_spec(*cat, lang@, code as int),
{
    let key = crate::strutil::i32_to_dec_string(code);
    match translate(cat, lang, key.as_str()) {
        Some(text) => text,
        None => key,
    }
}

/// Rendering is a pure function of the store and its three inputs: the
/// renderer's contract pins every result to `t_spec`, so any two results it
/// admits for the same store, language, key and arguments are the same
/// string.
pub proof fn lemma_render_pure(
    cat: Catalog,
    lang: Seq<char>,
    key: Seq<char>,
    args: Seq<(Seq<char>, Seq<char>)>,
    r1: Seq<char>,
    r2: Seq<char>,
)
    requires
        r1 == t_spec(cat, lang, key, args),
        r2 == t_spec(cat, lang, key, args),
    ensures
        r1 == r2,
{
}

/// With the language absent from the store, rendering returns exactly the
/// sentinel `[Missing Lang: <lang>]`, whatever the key and arguments.
pub proof fn lemma_missing_lang_sentinel(
    cat: Catalog,
    lang: Seq<char>,
    key: Seq<char>,
    args: Seq<(Seq<char>, Seq<char>)>,
)
    requires
        lang_lookup(cat.langs@, lang) is None,
    ensures
        t_spec(cat, lang, key, args) == "[Missing Lang: "@ + lang + "]"@,
{
}

/// With the language present but the key absent, rendering returns exactly
/// the sentinel `[Missing Key: <key>]`, whatever the arguments.
pub proof fn lemma_missing_key_sentinel(
    cat: Catalog,
    lang: Seq<char>,
    key: Seq<char>,
    args: Seq<(Seq<char>, Seq<char>)>,
)
    requires
        lang_lookup(cat.langs@, lang) matches Some(entries) && entry_lookup(entries, key) is None,
    ensures
        t_spec(cat, lang, key, args) == "[Missing Key: "@ + key + "]"@,
{
}

/// The language tags the store holds, in installation order.
pub fn languages(cat: &Catalog) -> (r: Vec<String>)
    ensures
        r.deep_view() == cat.langs@.map_values(|lp: LangPack| lp.tag@),
{
    let n = cat.langs.len();
    let ghost target = cat.langs@.map_values(|lp: LangPack| lp.tag@);
    let mut r: Vec<String> = Vec::new();
    let mut i: usize = 0;
    while i < n
        invariant
            n == cat.langs@.len(),
            i <= n,
            target == cat.langs@.map_values(|lp: LangPack| lp.tag@),
            r.deep_view() =~= target.take(i as int),
        decreases n - i,
    {
        let ghost r0 = r.deep_view();
        let tag_c = cat.langs[i].tag.clone();
        let ghost gv = tag_c@;
        r.push(tag_c);
        proof {
            assert(r.deep_view() =~= r0.push(gv));
            assert(target.take(i as int + 1) =~= target.take(i as int).push(target[i as int]));
            assert(r.deep_view() =~= target.take(i as int + 1));
        }
        i = i + 1;
    }
    proof {
        assert(target.take(n as int) =~= target);
    }
    r
}

/// Looks up the raw template text stored for (`lang`, `key`): the parsed
/// segments joined back into source form.
pub fn translate(cat: &Catalog, lang: &str, key: &str) -> (r: Option<String>)
    ensures
        r is Some <==> cat_template(*cat, lang@, key@) is Some,
        r matches Some(text) ==> cat_template(*cat, lang@, key@) matches Some(parts) && text@
            == rejoin(parts),
{
    match get_template(cat, lang, key) {
        None => None,
        Some(tpl) => Some(crate::template::template_text(tpl)),
    }
}

} // verus!
