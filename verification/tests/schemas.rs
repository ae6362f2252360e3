use usml_core::ast::{Import, ResponseMapping, Transform, TransformCondition, Usecase, UsmlDocument};
use usml_core::resolver::dbml::{parse_dbml_content, project_tables, resolve_dbml};
use usml_core::resolver::openapi::{
    extract_operation, parse_openapi_content, resolve_openapi, ApiDocument, ApiOperation,
    ApiPathItem, ApiResponse, ApiResponses, ApiSchema, Entry,
};
use usml_core::resolver::{DbmlTable, FileRead, ResolverError};
use usml_core::validator::resolve::{import_files, merge_tables, resolve_imports};
use usml_core::validator::{validate_with_resolve, ValidationError};

const USERS_API: &str = r#"
openapi: "3.0.0"
info:
  title: Test API
  version: "1.0"
paths:
  /users:
    get:
      summary: Test
      parameters:
        - name: status
          in: query
          schema:
            type: string
        - name: page
          in: query
          schema:
            type: integer
      responses:
        "200":
          description: OK
          content:
            application/json:
              schema:
                type: object
                properties:
                  id:
                    type: integer
                  name:
                    type: string
                  email:
                    type: string
"#;

const USERS_DBML: &str = r#"
Table users {
    id integer [pk, increment]
    name varchar [not null]
}
"#;

fn not_found(result: Result<usml_core::resolver::OpenapiResponse, ResolverError>) -> String {
    match result {
        Err(ResolverError::NotFound(what)) => what,
        other => panic!("not a missing element: {:?}", other.map(|r| r.fields)),
    }
}

fn operation(statuses: Option<Vec<Entry<ApiResponse>>>) -> ApiOperation {
    ApiOperation {
        parameters: Some(vec![Some("status".to_string()), None, Some("page".to_string())]),
        responses: Some(ApiResponses { by_status: statuses }),
    }
}

fn json_response(data_type: &str, properties: &[&str]) -> ApiResponse {
    ApiResponse {
        content: Some(vec![
            Entry { key: "text/plain".to_string(), value: None },
            Entry {
                key: "application/json".to_string(),
                value: Some(ApiSchema {
                    data_type: Some(data_type.to_string()),
                    properties: Some(properties.iter().map(|p| p.to_string()).collect()),
                }),
            },
        ]),
    }
}

fn api(item: ApiPathItem) -> ApiDocument {
    ApiDocument { paths: Some(vec![Entry { key: "/users".to_string(), value: item }]) }
}

fn only_get(get: Option<ApiOperation>) -> ApiPathItem {
    ApiPathItem { get, post: None, put: None, delete: None, patch: None }
}

fn field(name: &str, source: &str) -> ResponseMapping {
    ResponseMapping {
        field: name.to_string(),
        source: Some(source.to_string()),
        kind: None,
        source_table: None,
        join: None,
        join_chain: None,
        aggregate: None,
        fields: None,
    }
}

fn document(openapi: Option<&str>, dbml: &[&str], mappings: Vec<ResponseMapping>) -> UsmlDocument {
    UsmlDocument {
        version: "0.1".to_string(),
        import: Import {
            openapi: openapi.map(|r| r.to_string()),
            dbml: Some(dbml.iter().map(|r| r.to_string()).collect()),
        },
        usecase: Usecase {
            name: "テスト".to_string(),
            summary: None,
            output: None,
            response_mapping: mappings,
            filters: Vec::new(),
            transforms: Vec::new(),
        },
    }
}

fn read(path: &str, content: Result<&str, &str>) -> FileRead {
    FileRead {
        path: path.to_string(),
        content: content.map(|t| t.to_string()).map_err(|e| e.to_string()),
    }
}

#[test]
fn test_parse_dbml_content_basic() {
    let dbml = r#"
Project test_db {
  database_type: 'PostgreSQL'
}

Table users {
    id integer [pk, increment]
    name varchar [not null]
    email varchar [unique, not null]
    created_at timestamp [default: `now()`]
}

Table profiles {
    id integer [pk, increment]
    user_id integer [ref: > users.id]
    avatar_url varchar
    bio text
}
"#;
    let tables = parse_dbml_content(dbml, "test.dbml").expect("パースに失敗しました");
    assert_eq!(tables.len(), 2);

    let users = tables.iter().find(|t| t.name == "users").unwrap();
    assert_eq!(users.columns.len(), 4);
    assert!(users.columns.contains(&"id".to_string()));
    assert!(users.columns.contains(&"name".to_string()));
    assert!(users.columns.contains(&"email".to_string()));
    assert!(users.columns.contains(&"created_at".to_string()));

    let profiles = tables.iter().find(|t| t.name == "profiles").unwrap();
    assert_eq!(profiles.columns.len(), 4);
    assert!(profiles.columns.contains(&"user_id".to_string()));
    assert!(profiles.columns.contains(&"avatar_url".to_string()));
}

#[test]
fn test_parse_dbml_content_with_relations() {
    let dbml = r#"
Project test_db {
  database_type: 'PostgreSQL'
}

Table users {
    id integer [pk, increment]
    name varchar [not null]
    email varchar [unique, not null]
}

Table posts {
    id integer [pk, increment]
    user_id integer [ref: > users.id]
    title varchar [not null]
    body text
    status varchar(255) [default: 'draft']
}

Table comments {
    id integer [pk, increment]
    post_id integer [ref: > posts.id]
    user_id integer [ref: > users.id]
    body text [not null]
}

Table likes {
    id integer [pk, increment]
    post_id integer [ref: > posts.id]
    user_id integer [ref: > users.id]
}
"#;
    let tables = parse_dbml_content(dbml, "test.dbml").expect("パースに失敗しました");
    assert_eq!(tables.len(), 4);

    let posts = tables.iter().find(|t| t.name == "posts").unwrap();
    assert!(posts.columns.contains(&"status".to_string()));

    let comments = tables.iter().find(|t| t.name == "comments").unwrap();
    assert!(comments.columns.contains(&"post_id".to_string()));
    assert!(comments.columns.contains(&"user_id".to_string()));
}

#[test]
fn test_parse_openapi_content_basic() {
    let result = parse_openapi_content(USERS_API, "test.yaml", "/users", "get", "200").unwrap();
    assert_eq!(result.parameters.len(), 2);
    assert!(result.parameters.contains(&"status".to_string()));
    assert!(result.parameters.contains(&"page".to_string()));
    assert_eq!(result.fields.len(), 3);
    assert!(result.fields.contains(&"id".to_string()));
    assert!(result.fields.contains(&"name".to_string()));
    assert!(result.fields.contains(&"email".to_string()));
}

#[test]
fn test_parse_openapi_content_path_not_found() {
    let yaml = r#"
openapi: "3.0.0"
info:
  title: Test API
  version: "1.0"
paths:
  /users:
    get:
      responses:
        "200":
          description: OK
"#;
    let result = parse_openapi_content(yaml, "test.yaml", "/posts", "get", "200");
    assert!(result.is_err());
    assert!(matches!(result.unwrap_err(), ResolverError::NotFound(_)));
}

#[test]
fn dbml_tables_come_in_declaration_order_with_their_columns() {
    let dbml = "Table b {\n  y int\n  x int [note: 'n', anything]\n  Note: 'about b'\n}\nTable a {\n  z int\n}\n";
    let tables = parse_dbml_content(dbml, "s.dbml").unwrap();
    let shape: Vec<(String, Vec<String>)> =
        tables.into_iter().map(|t| (t.name, t.columns)).collect();
    assert_eq!(
        shape,
        vec![
            ("b".to_string(), vec!["y".to_string(), "x".to_string()]),
            ("a".to_string(), vec!["z".to_string()]),
        ]
    );
}

#[test]
fn repeated_columns_are_named_once_in_the_order_of_their_first_mention() {
    let parsed = vec![DbmlTable {
        name: "t".to_string(),
        columns: vec!["b".to_string(), "a".to_string(), "b".to_string(), "c".to_string(), "a".to_string()],
    }];
    let tables = project_tables(&parsed);
    assert_eq!(tables.len(), 1);
    assert_eq!(tables[0].name, "t");
    assert_eq!(tables[0].columns, vec!["b".to_string(), "a".to_string(), "c".to_string()]);
    let from_text = parse_dbml_content("Table t {\n  a int\n  b int\n  a text\n}\n", "s.dbml").unwrap();
    assert_eq!(from_text[0].columns, vec!["a".to_string(), "b".to_string()]);
}

#[test]
fn text_outside_the_dbml_grammar_is_a_parse_error_that_names_the_source() {
    match parse_dbml_content("Table users {", "broken.dbml") {
        Err(ResolverError::DbmlParseError(source, detail)) => {
            assert_eq!(source, "broken.dbml");
            assert!(!detail.is_empty());
            assert_ne!(detail, "Table users {");
        }
        other => panic!("no parse error: {:?}", other),
    }
}

#[test]
fn text_that_is_no_openapi_document_is_a_parse_error_that_names_the_source() {
    match parse_openapi_content("paths: [1, 2", "broken.yaml", "/users", "get", "200") {
        Err(ResolverError::OpenapiParseError(source, detail)) => {
            assert_eq!(source, "broken.yaml");
            assert!(!detail.is_empty());
            assert_ne!(detail, "paths: [1, 2");
        }
        other => panic!("no parse error: {:?}", other),
    }
}

#[test]
fn each_missing_element_of_an_openapi_document_has_its_message() {
    assert_eq!(
        not_found(extract_operation(&ApiDocument { paths: None }, "/users", "get", "200")),
        "OpenAPI に paths が定義されていません"
    );
    let doc = api(only_get(None));
    assert_eq!(
        not_found(extract_operation(&doc, "/posts", "get", "200")),
        "パス /posts が見つかりません"
    );
    assert_eq!(
        not_found(extract_operation(&doc, "/users", "head", "200")),
        "メソッド head は未対応です"
    );
    assert_eq!(
        not_found(extract_operation(&doc, "/posts", "head", "200")),
        "パス /posts が見つかりません"
    );
    assert_eq!(
        not_found(extract_operation(&doc, "/users", "get", "200")),
        "パス /users に メソッド get が定義されていません"
    );
    let doc = api(only_get(Some(ApiOperation { parameters: None, responses: None })));
    assert_eq!(
        not_found(extract_operation(&doc, "/users", "get", "200")),
        "パス /users .get に responses が定義されていません"
    );
    let doc = api(only_get(Some(operation(None))));
    assert_eq!(
        not_found(extract_operation(&doc, "/users", "get", "200")),
        "パス /users .get に レスポンスが定義されていません"
    );
    let doc = api(only_get(Some(operation(Some(Vec::new())))));
    assert_eq!(
        not_found(extract_operation(&doc, "/users", "get", "404")),
        "パス /users .get のレスポンス 404 が見つかりません"
    );
}

#[test]
fn fields_are_the_properties_of_an_object_schema_of_the_json_content() {
    let statuses = vec![
        Entry { key: "200".to_string(), value: json_response("object", &["id", "name"]) },
        Entry { key: "201".to_string(), value: json_response("array", &["id"]) },
        Entry { key: "204".to_string(), value: ApiResponse { content: None } },
    ];
    let doc = api(ApiPathItem {
        get: None,
        post: Some(operation(Some(statuses))),
        put: None,
        delete: None,
        patch: None,
    });
    let ok = extract_operation(&doc, "/users", "post", "200").unwrap();
    assert_eq!(ok.fields, vec!["id".to_string(), "name".to_string()]);
    assert_eq!(ok.parameters, vec!["status".to_string(), "page".to_string()]);
    let created = extract_operation(&doc, "/users", "post", "201").unwrap();
    assert_eq!(created.fields, Vec::<String>::new());
    let empty = extract_operation(&doc, "/users", "post", "204").unwrap();
    assert_eq!(empty.fields, Vec::<String>::new());
    assert!(extract_operation(&doc, "/users", "get", "200").is_err());
}

#[test]
fn each_field_of_a_response_is_named_once() {
    let statuses = vec![Entry {
        key: "200".to_string(),
        value: json_response("object", &["id", "name", "id", "email", "name"]),
    }];
    let doc = api(only_get(Some(operation(Some(statuses)))));
    let found = extract_operation(&doc, "/users", "get", "200").unwrap();
    assert_eq!(found.fields, vec!["id".to_string(), "name".to_string(), "email".to_string()]);
}

#[test]
fn reference_with_a_quote_in_the_table_name_imports_nothing() {
    let doc = document(
        None,
        &["./a.dbml#tables[\"us\"ers\"]", "./b.dbml#tables[\"posts\"]"],
        vec![field("id", "us\"ers.id")],
    );
    assert_eq!(import_files(&doc), vec!["./b.dbml".to_string()]);
    assert_eq!(
        usml_core::validator::validate(&doc),
        vec![ValidationError::Rule(
            "import.dbml".to_string(),
            "テーブル 'us\"ers' が import.dbml に含まれていません".to_string()
        )]
    );
}

#[test]
fn every_method_that_a_reference_can_name_is_looked_up() {
    let yaml = r#"
paths:
  /x:
    put:
      responses:
        "200":
          description: OK
    delete:
      parameters:
        - name: force
      responses:
        "204":
          description: gone
    patch:
      responses:
        "200":
          description: OK
"#;
    assert!(parse_openapi_content(yaml, "a.yaml", "/x", "put", "200").is_ok());
    let deleted = parse_openapi_content(yaml, "a.yaml", "/x", "delete", "204").unwrap();
    assert_eq!(deleted.parameters, vec!["force".to_string()]);
    assert!(parse_openapi_content(yaml, "a.yaml", "/x", "patch", "200").is_ok());
    assert!(parse_openapi_content(yaml, "a.yaml", "/x", "post", "200").is_err());
    assert!(parse_openapi_content(yaml, "a.yaml", "/x", "options", "200").is_err());
}

#[test]
fn resolver_errors_have_their_messages() {
    assert_eq!(
        ResolverError::IoError("a.dbml".to_string(), "gone".to_string()).message(),
        "ファイル読み込みエラー 'a.dbml': gone"
    );
    assert_eq!(
        ResolverError::DbmlParseError("a.dbml".to_string(), "bad".to_string()).message(),
        "DBML パースエラー 'a.dbml': bad"
    );
    assert_eq!(
        ResolverError::OpenapiParseError("a.yaml".to_string(), "bad".to_string()).message(),
        "OpenAPI パースエラー 'a.yaml': bad"
    );
    assert_eq!(
        ResolverError::NotFound("x".to_string()).message(),
        "参照先が見つかりません: 'x'"
    );
}

#[test]
fn a_file_that_could_not_be_read_is_an_io_error() {
    match resolve_dbml(&read("dir/a.dbml", Err("No such file"))) {
        Err(ResolverError::IoError(path, cause)) => {
            assert_eq!(path, "dir/a.dbml");
            assert_eq!(cause, "No such file");
        }
        other => panic!("no I/O error: {:?}", other),
    }
    match resolve_openapi(&read("dir/a.yaml", Err("denied")), "/users", "get", "200") {
        Err(ResolverError::IoError(path, cause)) => {
            assert_eq!(path, "dir/a.yaml");
            assert_eq!(cause, "denied");
        }
        other => panic!("no I/O error: {:?}", other.map(|r| r.fields)),
    }
    assert_eq!(resolve_dbml(&read("a.dbml", Ok(USERS_DBML))).unwrap().len(), 1);
}

#[test]
fn import_files_are_those_of_the_references_that_parse() {
    let doc = document(
        Some("./api.yaml#paths[\"/users\"].get.responses[\"200\"]"),
        &["./a.dbml#tables[\"users\"]", "nonsense", "./a.dbml#tables[\"posts\"]", "b.dbml#tables[\"x\"]"],
        Vec::new(),
    );
    assert_eq!(
        import_files(&doc),
        vec!["./api.yaml".to_string(), "./a.dbml".to_string(), "./a.dbml".to_string(), "b.dbml".to_string()]
    );
    let doc = document(Some("./api.yaml"), &["./a.dbml#tables[\"users\"]"], Vec::new());
    assert_eq!(import_files(&doc), vec!["./a.dbml".to_string()]);
    let doc = document(None, &[], Vec::new());
    assert_eq!(import_files(&doc), Vec::<String>::new());
}

#[test]
fn of_two_tables_of_one_name_the_first_stays() {
    let mut known = vec![DbmlTable { name: "users".to_string(), columns: vec!["id".to_string()] }];
    let more = vec![
        DbmlTable { name: "posts".to_string(), columns: vec!["p".to_string()] },
        DbmlTable { name: "users".to_string(), columns: vec!["other".to_string()] },
        DbmlTable { name: "posts".to_string(), columns: vec!["q".to_string()] },
    ];
    merge_tables(&mut known, &more);
    let shape: Vec<(String, Vec<String>)> =
        known.into_iter().map(|t| (t.name, t.columns)).collect();
    assert_eq!(
        shape,
        vec![
            ("users".to_string(), vec!["id".to_string()]),
            ("posts".to_string(), vec!["p".to_string()]),
        ]
    );
}

#[test]
fn resolution_keeps_what_resolved_and_warns_of_the_rest() {
    let doc = document(
        Some("./api.yaml#paths[\"/users\"].get.responses[\"200\"]"),
        &["./a.dbml#tables[\"users\"]", "./b.dbml#tables[\"posts\"]", "./a.dbml#tables[\"users\"]"],
        Vec::new(),
    );
    let reads = vec![
        read("base/./api.yaml", Ok(USERS_API)),
        read("base/./a.dbml", Ok(USERS_DBML)),
        read("base/./b.dbml", Err("No such file")),
        read("base/./a.dbml", Ok("Table users {\n  other int\n}\nTable extra {\n  e int\n}\n")),
    ];
    let (ctx, warnings) = resolve_imports(&doc, &reads);
    let openapi = ctx.openapi.unwrap();
    assert_eq!(openapi.parameters, vec!["status".to_string(), "page".to_string()]);
    assert_eq!(openapi.fields.len(), 3);
    let shape: Vec<(String, Vec<String>)> =
        ctx.dbml_tables.into_iter().map(|t| (t.name, t.columns)).collect();
    assert_eq!(
        shape,
        vec![
            ("users".to_string(), vec!["id".to_string(), "name".to_string()]),
            ("extra".to_string(), vec!["e".to_string()]),
        ]
    );
    assert_eq!(
        warnings,
        vec![ValidationError::Warning(
            "import.dbml".to_string(),
            "DBML解決に失敗しました: ファイル読み込みエラー 'base/./b.dbml': No such file".to_string()
        )]
    );
}

#[test]
fn validation_with_resolved_schemas_runs_all_rules() {
    let mut conditional = Transform {
        target: "id".to_string(),
        kind: "CONDITIONAL_SOURCE".to_string(),
        source: None,
        sources: None,
        fallback: None,
        separator: None,
        when: None,
        else_value: None,
        mask_pattern: None,
        condition: None,
        then_source: None,
        else_source: None,
    };
    conditional.condition = Some(vec![TransformCondition {
        param: Some("role".to_string()),
        field: None,
        source: None,
        operator: "=".to_string(),
        value: "admin".to_string(),
    }]);
    let mut doc = document(
        Some("./api.yaml#paths[\"/users\"].get.responses[\"200\"]"),
        &["./a.dbml#tables[\"users\"]"],
        vec![field("id", "users.id"), field("phone", "users.phone")],
    );
    doc.usecase.transforms = vec![conditional];
    let reads = vec![read("api.yaml", Ok(USERS_API)), read("a.dbml", Ok(USERS_DBML))];
    assert_eq!(
        validate_with_resolve(&doc, &reads),
        vec![
            ValidationError::Rule(
                "response_mapping.field".to_string(),
                "フィールド phone がOpenAPIレスポンスのプロパティに存在しません".to_string()
            ),
            ValidationError::Rule(
                "response_mapping.source".to_string(),
                "カラム phone がテーブル users に存在しません".to_string()
            ),
            ValidationError::Rule(
                "transforms.condition.param".to_string(),
                "transform id の condition.param role がOpenAPIパラメータに存在しません".to_string()
            ),
        ]
    );
}

#[test]
fn validation_goes_on_without_the_schemas_that_did_not_resolve() {
    let mut doc = document(
        Some("./api.yaml#paths[\"/missing\"].get.responses[\"200\"]"),
        &["./a.dbml#tables[\"users\"]"],
        vec![field("phone", "users.phone")],
    );
    doc.usecase.transforms = vec![Transform {
        target: "phone".to_string(),
        kind: "MASK".to_string(),
        source: None,
        sources: None,
        fallback: None,
        separator: None,
        when: None,
        else_value: None,
        mask_pattern: None,
        condition: Some(vec![TransformCondition {
            param: Some("role".to_string()),
            field: None,
            source: None,
            operator: "=".to_string(),
            value: "admin".to_string(),
        }]),
        then_source: None,
        else_source: None,
    }];
    let reads = vec![read("api.yaml", Ok(USERS_API)), read("a.dbml", Ok("Table users {"))];
    let found = validate_with_resolve(&doc, &reads);
    assert_eq!(found.len(), 3);
    assert_eq!(
        found[0],
        ValidationError::Warning(
            "transforms.condition.param".to_string(),
            "transform 'phone' の condition に param が使われていますが、OpenAPI解析が未実装のためパラメータの存在確認はスキップされます".to_string()
        )
    );
    assert_eq!(
        found[1],
        ValidationError::Warning(
            "import.openapi".to_string(),
            "OpenAPI解決に失敗しました: 参照先が見つかりません: 'パス /missing が見つかりません'".to_string()
        )
    );
    match &found[2] {
        ValidationError::Warning(rule, message) => {
            assert_eq!(rule, "import.dbml");
            assert!(message.starts_with("DBML解決に失敗しました: DBML パースエラー 'a.dbml': "));
        }
        other => panic!("no warning: {:?}", other),
    }
}
