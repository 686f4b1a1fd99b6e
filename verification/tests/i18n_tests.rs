use rivus::catalog::build;
use rivus::catalog::get_template;
use rivus::catalog::languages;
use rivus::catalog::build_from_toml_sources;
use rivus::catalog::internal_init_i18n;
use rivus::catalog::load_locale_entry;
use rivus::catalog::t;
use rivus::catalog::translate;
use rivus::catalog::Catalog;
use rivus::catalog::LangPack;
use rivus::catalog::MessageEntry;
use rivus::negotiate::negotiate;
use rivus::template::parse_template;

fn pack(tag: &str, entries: &[(&str, &str)]) -> LangPack {
    LangPack {
        tag: tag.to_string(),
        entries: entries
            .iter()
            .map(|(k, raw)| MessageEntry {
                key: k.to_string(),
                template: parse_template(raw),
            })
            .collect(),
    }
}

fn test_catalog() -> Catalog {
    let mut cat = Catalog::new();
    let data = vec![
        pack(
            "en",
            &[("hello", "Hello, world!"), ("welcome", "Welcome, {name}!")],
        ),
        pack(
            "zh",
            &[("hello", "你好，世界！"), ("welcome", "欢迎，{name}！")],
        ),
    ];
    internal_init_i18n(&mut cat, data);
    cat
}

#[test]
fn test_i18n_assets_loading() {
    let cat = test_catalog();

    // Static translation (English)
    let en_hello = t(&cat, "en", "hello", &vec![]);
    assert_eq!(en_hello, "Hello, world!");

    // Static translation (Chinese)
    let zh_hello = t(&cat, "zh", "hello", &vec![]);
    assert_eq!(zh_hello, "你好，世界！");

    // Placeholder translation (English)
    let args = vec![("name".to_string(), "Jason".to_string())];
    let en_welcome = t(&cat, "en", "welcome", &args);
    assert_eq!(en_welcome, "Welcome, Jason!");

    // Placeholder translation (Chinese)
    let zh_welcome = t(&cat, "zh", "welcome", &args);
    assert_eq!(zh_welcome, "欢迎，Jason！");

    // Missing key
    let missing_key = t(&cat, "en", "non_existent_key", &vec![]);
    assert_eq!(missing_key, "[Missing Key: non_existent_key]");

    // Missing language
    let missing_lang = t(&cat, "fr", "hello", &vec![]);
    assert_eq!(missing_lang, "[Missing Lang: fr]");
}

#[test]
fn test_resolve_language() {
    let supported = vec!["en".to_string(), "zh-CN".to_string()];
    let default_tag = "zh-CN".to_string();

    let header = "fr;q=0.9, en;q=0.8".to_string();
    assert_eq!(negotiate(Some(&header), &supported, &default_tag), "en");

    let header = "fr;q=1.0".to_string();
    assert_eq!(negotiate(Some(&header), &supported, &default_tag), "zh-CN");

    let header = "zh-CN".to_string();
    assert_eq!(negotiate(Some(&header), &supported, &default_tag), "zh-CN");
}

#[test]
fn test_negotiate_prefers_supported_entry() {
    // fr ranks higher but is unsupported, so the en entry wins.
    let supported = vec!["en".to_string()];
    let default_tag = "zh".to_string();
    let header = "fr;q=0.9, en;q=0.8".to_string();
    assert_eq!(negotiate(Some(&header), &supported, &default_tag), "en");
}

#[test]
fn test_negotiate_falls_back_to_default() {
    let supported = vec!["en".to_string()];
    let default_tag = "zh".to_string();
    let header = "fr;q=1.0".to_string();
    assert_eq!(negotiate(Some(&header), &supported, &default_tag), "zh");
}

#[test]
fn test_negotiate_single_supported_tag_is_identity() {
    let supported = vec!["en".to_string()];
    let default_tag = "zh".to_string();
    let header = "en".to_string();
    assert_eq!(negotiate(Some(&header), &supported, &default_tag), "en");
}

#[test]
fn test_negotiate_absent_header_and_case_folding() {
    let supported = vec!["en".to_string(), "zh".to_string()];
    let default_tag = "zh".to_string();
    assert_eq!(negotiate(None, &supported, &default_tag), "zh");

    // Case-insensitive full match, then primary-subtag match.
    let header = "EN-US,en;q=0.9".to_string();
    assert_eq!(negotiate(Some(&header), &supported, &default_tag), "en");
}

#[test]
fn test_render_named_placeholder() {
    let mut cat = Catalog::new();
    internal_init_i18n(&mut cat, vec![pack("en", &[("200", "Hello, {name}!")])]);
    let args = vec![("name".to_string(), "Jason".to_string())];
    assert_eq!(t(&cat, "en", "200", &args), "Hello, Jason!");

    // A missing argument substitutes silently to nothing.
    assert_eq!(t(&cat, "en", "200", &vec![]), "Hello, !");

    // Identical inputs always produce identical output.
    assert_eq!(t(&cat, "en", "200", &args), t(&cat, "en", "200", &args));
}

#[test]
fn test_missing_sentinels_exact() {
    let cat = test_catalog();
    assert_eq!(t(&cat, "de", "hello", &vec![]), "[Missing Lang: de]");
    assert_eq!(t(&cat, "en", "999", &vec![]), "[Missing Key: 999]");
}

#[test]
fn test_catalog_double_build_keeps_first() {
    let mut cat = Catalog::new();
    let first = internal_init_i18n(&mut cat, vec![pack("en", &[("200", "Ok")])]);
    assert!(first);
    let second = internal_init_i18n(&mut cat, vec![pack("en", &[("200", "Overridden")])]);
    assert!(!second);
    assert_eq!(translate(&cat, "en", "200").as_deref(), Some("Ok"));

    let mut cat2 = Catalog::new();
    let sources = vec![("en".to_string(), vec![("200".to_string(), "Ok".to_string())])];
    assert!(build(&mut cat2, &sources));
    let sources2 = vec![(
        "en".to_string(),
        vec![("200".to_string(), "Overridden".to_string())],
    )];
    assert!(!build(&mut cat2, &sources2));
    assert_eq!(translate(&cat2, "en", "200").as_deref(), Some("Ok"));
}

#[test]
fn test_translate_reconstructs_template_text() {
    let cat = test_catalog();
    assert_eq!(
        translate(&cat, "en", "welcome").as_deref(),
        Some("Welcome, {name}!")
    );
    assert_eq!(translate(&cat, "en", "404"), None);
    assert_eq!(translate(&cat, "fr", "hello"), None);
}

#[test]
fn test_load_locale_entry_skips_bad_files() {
    // A proper locale file parses.
    let lp = load_locale_entry("en.toml", "200 = \"Ok\"\n").expect("locale file should load");
    assert_eq!(lp.tag, "en");
    let mut cat = Catalog::new();
    internal_init_i18n(&mut cat, vec![lp]);
    assert_eq!(translate(&cat, "en", "200").as_deref(), Some("Ok"));

    // The wrong suffix and malformed content are skipped.
    assert!(load_locale_entry("ignore.txt", "200 = \"Ignored\"\n").is_none());
    assert!(load_locale_entry("bad.toml", "200 = ").is_none());
}

#[test]
fn test_build_from_toml_sources_strictness() {
    // One malformed source fails the whole build and leaves the store
    // untouched.
    let mut cat = Catalog::new();
    let bad = vec![
        ("en".to_string(), "200 = \"Ok\"\n".to_string()),
        ("zh".to_string(), "200 = ".to_string()),
    ];
    let r = build_from_toml_sources(&mut cat, &bad);
    assert!(r.is_err());
    assert_eq!(r.unwrap_err().code, 500);
    assert_eq!(translate(&cat, "en", "200"), None);

    // All-valid sources install once; the first build wins.
    let good = vec![
        ("en".to_string(), "200 = \"Ok\"\n".to_string()),
        ("zh".to_string(), "200 = \"成功\"\n".to_string()),
    ];
    assert_eq!(build_from_toml_sources(&mut cat, &good), Ok(true));
    assert_eq!(translate(&cat, "en", "200").as_deref(), Some("Ok"));
    assert_eq!(translate(&cat, "zh", "200").as_deref(), Some("成功"));
    let again = vec![("en".to_string(), "200 = \"Overridden\"\n".to_string())];
    assert_eq!(build_from_toml_sources(&mut cat, &again), Ok(false));
    assert_eq!(translate(&cat, "en", "200").as_deref(), Some("Ok"));
}

#[test]
fn test_languages_and_get_template() {
    let cat = test_catalog();
    assert_eq!(languages(&cat), vec!["en".to_string(), "zh".to_string()]);
    let tpl = get_template(&cat, "en", "welcome").expect("template should be present");
    assert_eq!(tpl, &parse_template("Welcome, {name}!"));
    assert!(get_template(&cat, "en", "999").is_none());
    assert!(get_template(&cat, "fr", "hello").is_none());
}
