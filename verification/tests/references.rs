use usml_core::resolver::dbml::parse_dbml_ref;
use usml_core::resolver::openapi::parse_openapi_ref;

#[test]
fn test_parse_dbml_ref() {
    let (path, table) = parse_dbml_ref("./schema.dbml#tables[\"users\"]").unwrap();
    assert_eq!(path, "./schema.dbml");
    assert_eq!(table, "users");
}

#[test]
fn test_parse_dbml_ref_nested_path() {
    let (path, table) = parse_dbml_ref("../shared/db.dbml#tables[\"post_tags\"]").unwrap();
    assert_eq!(path, "../shared/db.dbml");
    assert_eq!(table, "post_tags");
}

#[test]
fn test_parse_dbml_ref_invalid() {
    assert!(parse_dbml_ref("invalid_string").is_none());
    assert!(parse_dbml_ref("./schema.dbml").is_none());
    assert!(parse_dbml_ref("./schema.dbml#columns[\"id\"]").is_none());
}

#[test]
fn test_parse_openapi_ref() {
    let (file, path, method, status) =
        parse_openapi_ref("./api.yaml#paths[\"/users\"].get.responses[\"200\"]").unwrap();
    assert_eq!(file, "./api.yaml");
    assert_eq!(path, "/users");
    assert_eq!(method, "get");
    assert_eq!(status, "200");
}

#[test]
fn test_parse_openapi_ref_with_path_param() {
    let (file, path, method, status) =
        parse_openapi_ref("./api.yaml#paths[\"/posts/{post_id}\"].get.responses[\"200\"]")
            .unwrap();
    assert_eq!(file, "./api.yaml");
    assert_eq!(path, "/posts/{post_id}");
    assert_eq!(method, "get");
    assert_eq!(status, "200");
}

#[test]
fn test_parse_openapi_ref_invalid() {
    assert!(parse_openapi_ref("invalid").is_none());
    assert!(parse_openapi_ref("./api.yaml").is_none());
    assert!(parse_openapi_ref("./api.yaml#paths[\"/users\"].get").is_none());
}

#[test]
fn table_name_with_a_quote_is_no_reference() {
    assert!(parse_dbml_ref("./s.dbml#tables[\"a\"b\"]").is_none());
    assert!(parse_dbml_ref("./s.dbml#tables[\"\"\"]").is_none());
    assert!(parse_dbml_ref("./s.dbml#tables[\"a\"]\"]").is_none());
    assert_eq!(parse_dbml_ref("./s.dbml#tables[\"a]b\"]"), Some(("./s.dbml", "a]b")));
    assert_eq!(parse_dbml_ref("#tables[\"\"]"), Some(("", "")));
    assert!(parse_dbml_ref("a#b#tables[\"x\"]").is_none());
}
