use rivus::catalog::internal_init_i18n;
use rivus::catalog::message_of;
use rivus::catalog::Catalog;
use rivus::catalog::LangPack;
use rivus::catalog::MessageEntry;
use rivus::envelope::http_status_for;
use rivus::envelope::R;
use rivus::errors::format_validation_errors;
use rivus::errors::map_err;
use rivus::errors::Error;
use rivus::errors::FieldError;
use rivus::errors::RuleError;
use rivus::errors::E;
use rivus::template::parse_template;
use rivus::Code;

fn pack_of(tag: &str, entries: &[(&str, &str)]) -> LangPack {
    LangPack {
        tag: tag.to_string(),
        entries: entries
            .iter()
            .map(|(k, raw)| MessageEntry {
                key: k.to_string(),
                template: parse_template(raw),
            })
            .collect(),
    }
}

fn business_catalog() -> Catalog {
    let mut cat = Catalog::new();
    internal_init_i18n(
        &mut cat,
        vec![
            pack_of(
                "en",
                &[
                    ("200", "Ok"),
                    ("400", "Request Parameter Error"),
                    ("500", "Internal Server Error"),
                    ("902", "Illegal Parameter"),
                    ("903", "Hello, {name}!"),
                ],
            ),
            pack_of("zh", &[("200", "成功"), ("400", "请求参数错误")]),
        ],
    );
    cat
}

fn rule(kind: &str, params: &[(&str, &str)], message: Option<&str>) -> RuleError {
    RuleError {
        kind: kind.to_string(),
        params: params
            .iter()
            .map(|(k, v)| (k.to_string(), v.to_string()))
            .collect(),
        message: message.map(|m| m.to_string()),
    }
}

#[test]
fn test_map_err_code_only() {
    let cat = business_catalog();
    let (code, msg) = map_err(&cat, "en", E::Code(400));
    assert_eq!(code, 400);
    assert_eq!(msg, "Request Parameter Error");
    let (code, msg) = map_err(&cat, "zh", E::Code(400));
    assert_eq!(code, 400);
    assert_eq!(msg, "请求参数错误");
}

#[test]
fn test_map_err_code_with_params() {
    let cat = business_catalog();
    let params = vec![("name".to_string(), "Jason".to_string())];
    let (code, msg) = map_err(&cat, "en", E::Msg(903, params));
    assert_eq!(code, 903);
    assert_eq!(msg, "Hello, Jason!");
}

#[test]
fn test_map_err_system_failure_is_opaque() {
    let cat = business_catalog();
    let (code, msg) = map_err(&cat, "en", E::Sys("db connection dropped".to_string()));
    assert_eq!(code, 500);
    assert_eq!(msg, "Internal Server Error");
    assert!(!msg.contains("db connection dropped"));
}

#[test]
fn test_map_err_validation_required() {
    let cat = business_catalog();
    let fields = vec![FieldError {
        field: "name".to_string(),
        rules: vec![rule("required", &[], None)],
    }];
    let (code, msg) = map_err(&cat, "en", E::Val(fields));
    assert_eq!(code, Code::IllegalParam.as_i32());
    assert!(msg.contains("name: is required"));
    assert_eq!(msg, "name: is required");
}

#[test]
fn test_validation_rule_table() {
    let cat = business_catalog();
    let cases: Vec<(RuleError, &str)> = vec![
        (rule("required", &[], None), "f: is required"),
        (
            rule("length", &[("min", "1"), ("max", "10")], None),
            "f: length must be between 1 and 10",
        ),
        (rule("length", &[("min", "1")], None), "f: length must be at least 1"),
        (rule("length", &[("max", "10")], None), "f: length must be at most 10"),
        (rule("length", &[], None), "f: length is invalid"),
        (
            rule("range", &[("min", "0"), ("max", "150")], None),
            "f: must be between 0 and 150",
        ),
        (rule("range", &[("min", "0")], None), "f: must be at least 0"),
        (rule("range", &[("max", "150")], None), "f: must be at most 150"),
        (rule("range", &[], None), "f: value is out of range"),
        (rule("email", &[], None), "f: must be a valid email"),
        (rule("custom", &[], Some("explicit text")), "f: explicit text"),
        (rule("custom", &[], None), "f: invalid (custom)"),
    ];
    for (r, expected) in cases {
        let fields = vec![FieldError { field: "f".to_string(), rules: vec![r] }];
        assert_eq!(format_validation_errors(&cat, "en", &fields), expected);
    }
}

#[test]
fn test_validation_lines_joined_in_order() {
    let cat = business_catalog();
    let fields = vec![
        FieldError {
            field: "name".to_string(),
            rules: vec![rule("required", &[], None), rule("length", &[("min", "1")], None)],
        },
        FieldError {
            field: "age".to_string(),
            rules: vec![rule("range", &[("max", "150")], None)],
        },
    ];
    assert_eq!(
        format_validation_errors(&cat, "en", &fields),
        "name: is required; name: length must be at least 1; age: must be at most 150"
    );
}

#[test]
fn test_validation_without_field_errors_falls_back() {
    let cat = business_catalog();
    let (code, msg) = map_err(&cat, "en", E::Val(vec![]));
    assert_eq!(code, 902);
    assert_eq!(msg, "Illegal Parameter");
}

#[test]
fn test_envelope_ok_and_err() {
    let cat = business_catalog();
    let r = R::ok(&cat, "en", 123);
    assert_eq!(r.code, Code::Success.as_i32());
    assert_eq!(r.message, "Ok");
    assert_eq!(r.data, Some(123));

    let r: R<i32> = R::err(&cat, "en", E::Code(400));
    assert_eq!(r.code, 400);
    assert_eq!(r.message, "Request Parameter Error");
    assert_eq!(r.data, None);

    let r = R::from(&cat, "zh", Ok::<i32, E>(7));
    assert_eq!(r.code, 200);
    assert_eq!(r.message, "成功");
    assert_eq!(r.data, Some(7));

    let r: R<i32> = R::from(&cat, "en", Err(E::Sys("boom".to_string())));
    assert_eq!(r.code, 500);
    assert_eq!(r.message, "Internal Server Error");
    assert_eq!(r.data, None);

    let r = R::void(&cat, "en");
    assert_eq!((r.code, r.data), (200, Some(())));
    let r = R::from_unit(&cat, "en", Err(E::Code(400)));
    assert_eq!((r.code, r.data), (400, None));
}

#[test]
fn test_http_status_mapping() {
    assert_eq!(http_status_for(500), 500);
    assert_eq!(http_status_for(200), 200);
    assert_eq!(http_status_for(400), 200);
    assert_eq!(http_status_for(902), 200);
}

#[test]
fn test_message_of_falls_back_to_key() {
    let cat = business_catalog();
    assert_eq!(message_of(&cat, "en", 400), "Request Parameter Error");
    assert_eq!(message_of(&cat, "en", 404), "404");
    assert_eq!(message_of(&cat, "fr", -7), "-7");
}

#[test]
fn test_error_builder() {
    let e = Error::new(500)
        .with_message("boom".to_string())
        .with_arg("k".to_string(), "v".to_string());
    assert_eq!(e.code, 500);
    assert_eq!(e.message, "boom");
    assert_eq!(e.args, vec![("k".to_string(), "v".to_string())]);
}

#[test]
fn test_code_values() {
    assert_eq!(Code::Success.as_i32(), 200);
    assert_eq!(Code::BadRequest.as_i32(), 400);
    assert_eq!(Code::Forbidden.as_i32(), 403);
    assert_eq!(Code::InternalServerError.as_i32(), 500);
    assert_eq!(Code::MissingParam.as_i32(), 901);
    assert_eq!(Code::IllegalParam.as_i32(), 902);
}

#[test]
fn test_missing_catalog_messages_use_sentinels() {
    // Before any build the store is empty: the mapper surfaces sentinel
    // text rather than failing.
    let cat = Catalog::new();
    let (code, msg) = map_err(&cat, "en", E::Code(400));
    assert_eq!(code, 400);
    assert_eq!(msg, "[Missing Lang: en]");
}
