use usml_core::ast::{Import, Usecase, UsmlDocument};
use usml_core::parser::{check_version, ParseError};
use usml_core::report::{
    diagnostic_json, escape_json_string, has_rule_error, parse_failure_json, safe_file_name,
    validation_json,
};
use usml_core::text::{split_once, split_whitespace, strip_prefix, strip_suffix, trim_end_of, trim_of};
use usml_core::validator::mapping::extract_table_refs;
use usml_core::validator::ValidationError;

fn document(version: &str) -> UsmlDocument {
    UsmlDocument {
        version: version.to_string(),
        import: Import { openapi: None, dbml: None },
        usecase: Usecase {
            name: "test".to_string(),
            summary: None,
            output: None,
            response_mapping: Vec::new(),
            filters: Vec::new(),
            transforms: Vec::new(),
        },
    }
}

#[test]
fn version_one_tenth_is_accepted() {
    let doc = check_version(document("0.1")).unwrap();
    assert_eq!(doc.version, "0.1");
    assert_eq!(doc.usecase.name, "test");
}

#[test]
fn another_version_is_refused_with_the_version() {
    match check_version(document("9.9")) {
        Err(ParseError::InvalidVersion(version)) => assert_eq!(version, "9.9"),
        other => panic!("accepted: {:?}", other),
    }
    assert!(check_version(document("0.10")).is_err());
    assert!(check_version(document("")).is_err());
}

#[test]
fn parse_errors_have_their_messages() {
    assert_eq!(
        ParseError::InvalidVersion("9.9".to_string()).message(),
        "invalid version: expected '0.1', got '9.9'"
    );
    assert_eq!(ParseError::YamlError("bad".to_string()).message(), "YAML parse error: bad");
}

#[test]
fn json_escapes_quotes_backslashes_and_line_ends() {
    assert_eq!(escape_json_string("a\"b\\c\nd\re\tf"), "a\\\"b\\\\c\\nd\\re\\tf");
    assert_eq!(escape_json_string("テーブル 'x'"), "テーブル 'x'");
    assert_eq!(escape_json_string(""), "");
}

#[test]
fn findings_have_their_lines() {
    assert_eq!(
        ValidationError::Rule("join.on".to_string(), "m".to_string()).message(),
        "バリデーション[join.on]: m"
    );
    assert_eq!(
        ValidationError::Warning("aggregate.group_by".to_string(), "m".to_string()).message(),
        "警告[aggregate.group_by]: m"
    );
}

#[test]
fn finding_as_json_has_severity_rule_and_message() {
    assert_eq!(
        diagnostic_json(&ValidationError::Rule("join.on".to_string(), "a \"b\"".to_string())),
        r#"{"severity":"error","rule":"join.on","message":"a \"b\""}"#
    );
    assert_eq!(
        diagnostic_json(&ValidationError::Warning("w".to_string(), "m".to_string())),
        r#"{"severity":"warning","rule":"w","message":"m"}"#
    );
}

#[test]
fn status_is_error_where_a_finding_blocks() {
    let warning = ValidationError::Warning("w".to_string(), "m".to_string());
    let rule = ValidationError::Rule("r".to_string(), "n".to_string());
    assert!(!has_rule_error(&Vec::new()));
    assert_eq!(
        validation_json("a.yaml", &Vec::new()),
        r#"{"file":"a.yaml","status":"ok","diagnostics":[]}"#
    );
    let only_warning = vec![warning];
    assert!(!has_rule_error(&only_warning));
    assert_eq!(
        validation_json("a.yaml", &only_warning),
        r#"{"file":"a.yaml","status":"ok","diagnostics":[{"severity":"warning","rule":"w","message":"m"}]}"#
    );
    let both = vec![ValidationError::Warning("w".to_string(), "m".to_string()), rule];
    assert!(has_rule_error(&both));
    assert_eq!(
        validation_json("dir\\a.yaml", &both),
        r#"{"file":"dir\\a.yaml","status":"error","diagnostics":[{"severity":"warning","rule":"w","message":"m"},{"severity":"error","rule":"r","message":"n"}]}"#
    );
}

#[test]
fn parse_failure_is_one_finding_of_the_rule_parse() {
    assert_eq!(
        parse_failure_json("a.yaml", "bad \"x\""),
        r#"{"file":"a.yaml","status":"error","diagnostics":[{"severity":"error","rule":"parse","message":"bad \"x\""}]}"#
    );
}

#[test]
fn file_name_keeps_letters_digits_hyphens_and_underscores() {
    assert_eq!(safe_file_name("Get users/list v2_a-b"), "Get-users-list-v2_a-b");
    assert_eq!(safe_file_name("ユーザー 一覧"), "ユーザー-一覧");
}

#[test]
fn text_is_split_at_the_first_occurrence() {
    assert_eq!(split_once("a.b.c", "."), Some(("a", "b.c")));
    assert_eq!(split_once("abc", "."), None);
    assert_eq!(split_once("x\"].y\"].z", "\"]."), Some(("x", "y\"].z")));
    assert_eq!(strip_prefix("tables[\"x", "tables[\""), Some("x"));
    assert_eq!(strip_prefix("xtables[\"", "tables[\""), None);
    assert_eq!(strip_suffix("x\"]", "\"]"), Some("x"));
    assert_eq!(strip_suffix("]", "\"]"), None);
}

#[test]
fn words_are_what_white_space_separates() {
    assert_eq!(split_whitespace("  a\tb\n c　d  "), vec!["a", "b", "c", "d"]);
    assert_eq!(split_whitespace(""), Vec::<&str>::new());
    assert_eq!(split_whitespace(" \n"), Vec::<&str>::new());
    assert_eq!(split_whitespace("one"), vec!["one"]);
}

#[test]
fn trimming_keeps_the_characters_of_names() {
    assert_eq!(trim_of("(users.id),", true), "users.id");
    assert_eq!(trim_of("=", true), "");
    assert_eq!(trim_of(".a.", true), ".a.");
    assert_eq!(trim_end_of("role);", false), "role");
    assert_eq!(trim_end_of("(role.", false), "(role");
    assert_eq!(trim_end_of("役割!", false), "役割");
}

#[test]
fn table_refs_are_the_words_of_the_form_table_dot_column() {
    assert_eq!(
        extract_table_refs("users.id = (profiles.user_id) AND x = 1 AND a.b.c = .d AND e. = 'f.g'"),
        vec![
            ("users".to_string(), "id".to_string()),
            ("profiles".to_string(), "user_id".to_string()),
            ("f".to_string(), "g".to_string()),
        ]
    );
}
