use rivus::template::parse_template;
use rivus::template::template_text;
use rivus::template::I18nPart;

#[test]
fn test_parse_template() {
    // Plain text
    assert_eq!(
        parse_template("Hello world"),
        vec![I18nPart::Static("Hello world".to_string())]
    );

    // Single placeholder
    assert_eq!(
        parse_template("Hello {name}!"),
        vec![
            I18nPart::Static("Hello ".to_string()),
            I18nPart::Placeholder("name".to_string()),
            I18nPart::Static("!".to_string())
        ]
    );

    // Multiple placeholders
    assert_eq!(
        parse_template("{first} and {second}"),
        vec![
            I18nPart::Placeholder("first".to_string()),
            I18nPart::Static(" and ".to_string()),
            I18nPart::Placeholder("second".to_string())
        ]
    );

    // Placeholder at start
    assert_eq!(
        parse_template("{name} hello"),
        vec![
            I18nPart::Placeholder("name".to_string()),
            I18nPart::Static(" hello".to_string())
        ]
    );

    // Placeholder at end
    assert_eq!(
        parse_template("hello {name}"),
        vec![
            I18nPart::Static("hello ".to_string()),
            I18nPart::Placeholder("name".to_string())
        ]
    );

    // Empty string
    assert_eq!(parse_template(""), vec![]);

    // Unclosed brace degrades to literal text, the orphan brace included
    assert_eq!(
        parse_template("Hello {name"),
        vec![
            I18nPart::Static("Hello ".to_string()),
            I18nPart::Static("{name".to_string())
        ]
    );
}

#[test]
fn test_parse_rejoin_roundtrip() {
    // Re-joining the parsed segments reconstructs every text exactly, a
    // dangling open brace included.
    for s in [
        "",
        "plain text",
        "Hello {name}!",
        "{a}{b}{c}",
        "{first} and {second}",
        "nested {out{in} rest",
        "unicode 你好 {名字} 世界",
        "Hello {name",
        "{",
        "a{bc{d",
    ] {
        assert_eq!(template_text(&parse_template(s)), s);
    }
}

#[test]
fn test_parse_keeps_orphan_brace_literal() {
    // From an orphan open brace on, the whole remainder is literal text.
    assert_eq!(
        parse_template("{"),
        vec![I18nPart::Static("{".to_string())]
    );
    assert_eq!(
        parse_template("a{bc{d"),
        vec![
            I18nPart::Static("a".to_string()),
            I18nPart::Static("{bc{d".to_string())
        ]
    );
}
