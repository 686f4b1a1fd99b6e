use rivus::yamlvars::replace_vars;

#[test]
fn test_replace_vars_basic() {
    let env = vec![("TEST_VAR_BASIC".to_string(), "basic_value".to_string())];
    let input = "key: ${TEST_VAR_BASIC}";
    let output = replace_vars(input, &env);
    assert_eq!(output, "key: basic_value");
}

#[test]
fn test_replace_vars_default() {
    let input = "key: ${TEST_VAR_MISSING:default}";
    let output = replace_vars(input, &vec![]);
    assert_eq!(output, "key: default");
}

#[test]
fn test_replace_vars_no_default() {
    let input = "key: ${TEST_VAR_MISSING_NO_DEFAULT}";
    let output = replace_vars(input, &vec![]);
    assert_eq!(output, "key: ");
}

#[test]
fn test_replace_vars_env_beats_default() {
    let env = vec![("APP_PORT".to_string(), "9090".to_string())];
    assert_eq!(replace_vars("port: ${APP_PORT:8080}", &env), "port: 9090");
    assert_eq!(replace_vars("port: ${APP_PORT2:8080}", &env), "port: 8080");
}

#[test]
fn test_replace_vars_leaves_non_references() {
    // A lowercase name, an empty name and an unterminated reference are no
    // references at all: the text stays as it is.
    assert_eq!(replace_vars("key: ${lower}", &vec![]), "key: ${lower}");
    assert_eq!(replace_vars("key: ${}", &vec![]), "key: ${}");
    assert_eq!(replace_vars("key: ${ABC", &vec![]), "key: ${ABC");
    assert_eq!(replace_vars("plain $ text { }", &vec![]), "plain $ text { }");
}

#[test]
fn test_replace_vars_multiple_references() {
    let env = vec![
        ("APP_HOST".to_string(), "localhost".to_string()),
        ("APP_HOST".to_string(), "shadowed".to_string()),
    ];
    // The first binding wins; the second reference takes its default.
    assert_eq!(
        replace_vars("host: ${APP_HOST} port: ${APP_PORT:8080}", &env),
        "host: localhost port: 8080"
    );
}
