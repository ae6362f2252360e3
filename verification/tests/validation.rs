use usml_core::ast::{
    Aggregate, Filter, Import, Join, JoinChainEntry, ResponseMapping, Transform,
    TransformCondition, Usecase, UsmlDocument,
};
use usml_core::resolver::{DbmlTable, OpenapiResponse};
use usml_core::validator::schema::{
    validate_dbml_columns, validate_openapi_fields, validate_transform_params,
};
use usml_core::validator::{validate, validate_with_context, ResolveContext, ValidationError};

fn table_ref(table: &str) -> String {
    format!("./schema.dbml#tables[\"{}\"]", table)
}

fn field(name: &str, source: &str) -> ResponseMapping {
    ResponseMapping {
        field: name.to_string(),
        source: Some(source.to_string()),
        kind: None,
        source_table: None,
        join: None,
        join_chain: None,
        aggregate: None,
        fields: None,
    }
}

fn join(table: &str, on: &str) -> Join {
    Join { table: table.to_string(), on: on.to_string(), kind: None, alias: None }
}

fn joined(name: &str, source: &str, join: Join) -> ResponseMapping {
    let mut m = field(name, source);
    m.join = Some(join);
    m
}

fn filter(param: &str, maps_to: &str) -> Filter {
    Filter {
        param: param.to_string(),
        maps_to: maps_to.to_string(),
        condition: None,
        strategy: None,
        page_size: None,
        limit_param: None,
        max_page_size: None,
        cursor_field: None,
        default_column: None,
        default_direction: None,
        allowed_columns: None,
        allowed_directions: None,
    }
}

fn transform(target: &str, kind: &str) -> Transform {
    Transform {
        target: target.to_string(),
        kind: kind.to_string(),
        source: None,
        sources: None,
        fallback: None,
        separator: None,
        when: None,
        else_value: None,
        mask_pattern: None,
        condition: None,
        then_source: None,
        else_source: None,
    }
}

fn param_condition(param: &str) -> TransformCondition {
    TransformCondition {
        param: Some(param.to_string()),
        field: None,
        source: None,
        operator: "=".to_string(),
        value: "active".to_string(),
    }
}

fn document(
    api_path: &str,
    tables: &[&str],
    mappings: Vec<ResponseMapping>,
    filters: Vec<Filter>,
    transforms: Vec<Transform>,
) -> UsmlDocument {
    UsmlDocument {
        version: "0.1".to_string(),
        import: Import {
            openapi: Some(format!("./api.yaml#paths[\"{}\"].get.responses[\"200\"]", api_path)),
            dbml: Some(tables.iter().map(|t| table_ref(t)).collect()),
        },
        usecase: Usecase {
            name: "テスト".to_string(),
            summary: None,
            output: None,
            response_mapping: mappings,
            filters,
            transforms,
        },
    }
}

fn rule(id: &str, message: &str) -> ValidationError {
    ValidationError::Rule(id.to_string(), message.to_string())
}

fn warning(id: &str, message: &str) -> ValidationError {
    ValidationError::Warning(id.to_string(), message.to_string())
}

fn has_rule(errors: &[ValidationError], id: &str) -> bool {
    errors.iter().any(|e| matches!(e, ValidationError::Rule(r, _) if r == id))
}

fn hard_errors(errors: &[ValidationError]) -> Vec<&ValidationError> {
    errors.iter().filter(|e| matches!(e, ValidationError::Rule(..))).collect()
}

#[test]
fn test_valid_document_no_errors() {
    let mut coalesce = transform("avatar_url", "COALESCE");
    coalesce.sources = Some(vec!["profiles.avatar_url".to_string()]);
    coalesce.fallback = Some("/default.png".to_string());
    let doc = document(
        "/users",
        &["users", "profiles"],
        vec![
            field("id", "users.id"),
            joined(
                "avatar_url",
                "profiles.avatar_url",
                join("profiles", "users.id = profiles.user_id"),
            ),
        ],
        Vec::new(),
        vec![coalesce],
    );
    let errors = validate(&doc);
    let hard = hard_errors(&errors);
    assert!(hard.is_empty(), "エラーがありました: {:?}", hard);
}

#[test]
fn test_missing_import_table() {
    let doc = document(
        "/users",
        &["users"],
        vec![joined(
            "avatar_url",
            "profiles.avatar_url",
            join("profiles", "users.id = profiles.user_id"),
        )],
        Vec::new(),
        Vec::new(),
    );
    let errors = validate(&doc);
    assert!(errors.iter().any(|e| matches!(e, ValidationError::Rule(rule, _) if rule == "import.dbml")));
}

#[test]
fn test_duplicate_join_without_alias() {
    let doc = document(
        "/posts",
        &["posts", "users"],
        vec![
            joined("author_name", "users.name", join("users", "posts.user_id = users.id")),
            joined("editor_name", "users.name", join("users", "posts.editor_id = users.id")),
        ],
        Vec::new(),
        Vec::new(),
    );
    let errors = validate(&doc);
    assert!(errors.iter().any(|e| matches!(e, ValidationError::Rule(rule, _) if rule == "join.alias")));
}

#[test]
fn test_transform_target_not_in_mapping() {
    let mut coalesce = transform("nonexistent_field", "COALESCE");
    coalesce.sources = Some(vec!["users.name".to_string()]);
    let doc = document(
        "/users",
        &["users"],
        vec![field("id", "users.id")],
        Vec::new(),
        vec![coalesce],
    );
    let errors = validate(&doc);
    assert!(errors.iter().any(|e| {
        matches!(e, ValidationError::Rule(rule, _) if rule == "transforms.target")
    }));
}

#[test]
fn test_rule6_join_on_references_non_imported_table() {
    let doc = document(
        "/posts",
        &["posts"],
        vec![joined("author_name", "users.name", join("users", "posts.user_id = users.id"))],
        Vec::new(),
        Vec::new(),
    );
    let errors = validate(&doc);
    assert!(errors
        .iter()
        .any(|e| matches!(e, ValidationError::Rule(rule, _) if rule == "join.on" || rule == "import.dbml")));
}

#[test]
fn test_rule8_aggregate_without_group_by_warns() {
    let mut like_count = joined("like_count", "likes.id", join("likes", "posts.id = likes.post_id"));
    like_count.aggregate = Some(Aggregate { kind: "COUNT".to_string(), group_by: None });
    let doc = document("/posts", &["posts", "likes"], vec![like_count], Vec::new(), Vec::new());
    let errors = validate(&doc);
    assert!(errors.iter().any(
        |e| matches!(e, ValidationError::Warning(rule, _) if rule == "aggregate.group_by")
    ));
}

#[test]
fn test_rule9_undeclared_param_in_condition() {
    let mut status = filter("status", "WHERE");
    status.condition = Some("users.status = :status AND users.role = :role".to_string());
    let doc = document(
        "/users",
        &["users"],
        vec![field("id", "users.id")],
        vec![status],
        Vec::new(),
    );
    let errors = validate(&doc);
    assert!(errors.iter().any(
        |e| matches!(e, ValidationError::Rule(rule, _) if rule == "filters.condition")
    ));
}

#[test]
fn test_rule11_source_table_mismatch() {
    let mut comments = ResponseMapping {
        field: "comments".to_string(),
        source: None,
        kind: Some("array".to_string()),
        source_table: Some("wrong_table".to_string()),
        join: Some(join("comments", "posts.id = comments.post_id")),
        join_chain: None,
        aggregate: None,
        fields: None,
    };
    comments.fields = Some(vec![field("id", "comments.id")]);
    let doc = document("/posts", &["posts", "comments"], vec![comments], Vec::new(), Vec::new());
    let errors = validate(&doc);
    assert!(errors.iter().any(|e| matches!(e, ValidationError::Rule(rule, _) if rule == "source_table")));
}

#[test]
fn test_rule12_default_column_not_in_allowed() {
    let mut sort = filter("sort", "ORDER_BY");
    sort.default_column = Some("users.secret_field".to_string());
    sort.allowed_columns = Some(vec!["users.created_at".to_string(), "users.name".to_string()]);
    let doc = document(
        "/users",
        &["users"],
        vec![field("id", "users.id")],
        vec![sort],
        Vec::new(),
    );
    let errors = validate(&doc);
    assert!(errors.iter().any(
        |e| matches!(e, ValidationError::Rule(rule, _) if rule == "filters.allowed_columns")
    ));
}

#[test]
fn test_rule11_source_table_with_join_chain() {
    let tags = ResponseMapping {
        field: "tags".to_string(),
        source: None,
        kind: Some("array".to_string()),
        source_table: Some("tags".to_string()),
        join: Some(join("post_tags", "posts.id = post_tags.post_id")),
        join_chain: Some(vec![JoinChainEntry {
            table: "tags".to_string(),
            on: "post_tags.tag_id = tags.id".to_string(),
        }]),
        aggregate: None,
        fields: Some(vec![field("id", "tags.id")]),
    };
    let doc = document(
        "/posts",
        &["posts", "post_tags", "tags"],
        vec![tags],
        Vec::new(),
        Vec::new(),
    );
    let errors = validate(&doc);
    let hard = hard_errors(&errors);
    assert!(hard.is_empty(), "エラーがありました: {:?}", hard);
}

#[test]
fn test_validate_openapi_fields_mismatch() {
    let openapi = OpenapiResponse {
        fields: vec!["id".to_string(), "name".to_string(), "email".to_string()],
        parameters: vec!["status".to_string()],
    };
    let doc = document(
        "/users",
        &["users"],
        vec![field("nonexistent", "users.id")],
        Vec::new(),
        Vec::new(),
    );
    let mappings = &doc.usecase.response_mapping;
    let mut errors = Vec::new();
    validate_openapi_fields(mappings, &openapi, &mut errors);
    assert!(errors.iter().any(
        |e| matches!(e, ValidationError::Rule(rule, _) if rule == "response_mapping.field")
    ));
}

#[test]
fn test_validate_dbml_columns_missing() {
    let tables = vec![DbmlTable {
        name: "users".to_string(),
        columns: vec!["id".to_string(), "name".to_string(), "email".to_string()],
    }];
    let doc = document(
        "/users",
        &["users"],
        vec![field("phone", "users.phone")],
        Vec::new(),
        Vec::new(),
    );
    let mappings = &doc.usecase.response_mapping;
    let mut errors = Vec::new();
    validate_dbml_columns(mappings, &tables, &mut errors);
    assert!(errors.iter().any(
        |e| matches!(e, ValidationError::Rule(rule, _) if rule == "response_mapping.source")
    ));
}

#[test]
fn test_validate_transform_params_missing() {
    let openapi = OpenapiResponse {
        fields: vec!["id".to_string()],
        parameters: vec!["status".to_string()],
    };
    let mut conditional = transform("id", "CONDITIONAL_SOURCE");
    conditional.condition = Some(vec![param_condition("undeclared_param")]);
    conditional.then_source = Some("users.id".to_string());
    conditional.else_source = Some("users.name".to_string());
    let doc = document(
        "/users",
        &["users"],
        vec![field("id", "users.id")],
        Vec::new(),
        vec![conditional],
    );
    let mut errors = Vec::new();
    validate_transform_params(&doc.usecase.transforms, &openapi, &mut errors);
    assert!(errors.iter().any(
        |e| matches!(e, ValidationError::Rule(rule, _) if rule == "transforms.condition.param")
    ));
}

#[test]
fn single_source_is_valid() {
    let doc = document("/users", &["users"], vec![field("id", "users.id")], Vec::new(), Vec::new());
    assert_eq!(validate(&doc), Vec::new());
}

#[test]
fn join_of_table_that_is_not_imported() {
    let mut avatar = joined("avatar", "users.avatar", join("profiles", "users.id = users.pid"));
    avatar.source = None;
    let doc = document("/users", &["users"], vec![avatar], Vec::new(), Vec::new());
    assert_eq!(
        validate(&doc),
        vec![rule("import.dbml", "テーブル 'profiles' が import.dbml に含まれていません")]
    );
}

#[test]
fn same_table_joined_on_two_conditions() {
    let doc = document(
        "/posts",
        &["posts", "users"],
        vec![
            joined("author_name", "users.name", join("users", "posts.user_id = users.id")),
            joined("editor_name", "users.name", join("users", "posts.editor_id = users.id")),
        ],
        Vec::new(),
        Vec::new(),
    );
    assert_eq!(
        validate(&doc),
        vec![rule(
            "join.alias",
            "テーブル 'users' が異なる結合条件で複数参照されていますが、alias が指定されていません"
        )]
    );
}

#[test]
fn array_with_wrong_source_table() {
    let comments = ResponseMapping {
        field: "comments".to_string(),
        source: None,
        kind: Some("array".to_string()),
        source_table: Some("wrong".to_string()),
        join: Some(join("comments", "posts.id = comments.post_id")),
        join_chain: None,
        aggregate: None,
        fields: None,
    };
    let doc = document("/posts", &["posts", "comments"], vec![comments], Vec::new(), Vec::new());
    assert_eq!(
        validate(&doc),
        vec![rule(
            "source_table",
            "配列フィールド 'comments' の source_table 'wrong' がjoin の実際のソーステーブル 'comments' と一致しません"
        )]
    );
}

#[test]
fn condition_with_undeclared_param() {
    let mut status = filter("status", "WHERE");
    status.condition = Some("users.status = :status AND users.role = :role".to_string());
    let doc = document(
        "/users",
        &["users"],
        vec![field("id", "users.id")],
        vec![status],
        Vec::new(),
    );
    assert_eq!(
        validate(&doc),
        vec![rule(
            "filters.condition",
            "condition で使用されるパラメータ ':role' が filters[].param で宣言されていません"
        )]
    );
}

#[test]
fn missing_table_is_reported_once_however_often_it_is_used() {
    let doc = document(
        "/users",
        &["users"],
        vec![
            field("a", "profiles.a"),
            field("b", "profiles.b"),
            ResponseMapping {
                field: "list".to_string(),
                source: None,
                kind: Some("array".to_string()),
                source_table: None,
                join: None,
                join_chain: None,
                aggregate: None,
                fields: Some(vec![field("c", "profiles.c"), field("d", "orders.d")]),
            },
        ],
        Vec::new(),
        Vec::new(),
    );
    assert_eq!(
        validate(&doc),
        vec![
            rule("import.dbml", "テーブル 'profiles' が import.dbml に含まれていません"),
            rule("import.dbml", "テーブル 'orders' が import.dbml に含まれていません"),
        ]
    );
}

#[test]
fn validate_gives_the_same_findings_twice() {
    let mut status = filter("status", "WHERE");
    status.condition = Some("users.role = :role".to_string());
    let doc = document(
        "/users",
        &["users"],
        vec![joined("x", "profiles.x", join("profiles", "users.id = profiles.user_id"))],
        vec![status],
        vec![transform("nothing", "MASK")],
    );
    let first = validate(&doc);
    let second = validate(&doc);
    assert_eq!(first.len(), 4);
    assert_eq!(first, second);
}

#[test]
fn alias_on_either_join_suppresses_the_finding() {
    let mut first = join("users", "posts.user_id = users.id");
    let mut second = join("users", "posts.editor_id = users.id");
    second.alias = Some("editors".to_string());
    let doc = document(
        "/posts",
        &["posts", "users"],
        vec![
            joined("author_name", "users.name", first),
            joined("editor_name", "users.name", second),
        ],
        Vec::new(),
        Vec::new(),
    );
    assert_eq!(validate(&doc), Vec::new());
    first = join("users", "posts.user_id = users.id");
    first.alias = Some("authors".to_string());
    second = join("users", "posts.editor_id = users.id");
    let doc = document(
        "/posts",
        &["posts", "users"],
        vec![
            joined("author_name", "users.name", first),
            joined("editor_name", "users.name", second),
        ],
        Vec::new(),
        Vec::new(),
    );
    assert_eq!(validate(&doc), Vec::new());
}

#[test]
fn alias_registry_is_shared_between_a_field_and_the_fields_below_another() {
    let list = ResponseMapping {
        field: "list".to_string(),
        source: None,
        kind: Some("array".to_string()),
        source_table: None,
        join: None,
        join_chain: None,
        aggregate: None,
        fields: Some(vec![joined(
            "editor",
            "users.name",
            join("users", "posts.editor_id = users.id"),
        )]),
    };
    let doc = document(
        "/posts",
        &["posts", "users"],
        vec![joined("author", "users.name", join("users", "posts.user_id = users.id")), list],
        Vec::new(),
        Vec::new(),
    );
    assert!(has_rule(&validate(&doc), "join.alias"));
}

#[test]
fn same_join_twice_is_no_finding() {
    let doc = document(
        "/posts",
        &["posts", "users"],
        vec![
            joined("a", "users.name", join("users", "posts.user_id = users.id")),
            joined("b", "users.email", join("users", "posts.user_id = users.id")),
        ],
        Vec::new(),
        Vec::new(),
    );
    assert_eq!(validate(&doc), Vec::new());
}

#[test]
fn aggregate_without_group_by_is_one_warning_with_exact_text() {
    let mut like_count = joined("like_count", "likes.id", join("likes", "posts.id = likes.post_id"));
    like_count.aggregate = Some(Aggregate { kind: "COUNT".to_string(), group_by: None });
    let doc = document("/posts", &["posts", "likes"], vec![like_count], Vec::new(), Vec::new());
    assert_eq!(
        validate(&doc),
        vec![warning(
            "aggregate.group_by",
            "フィールド 'like_count' に aggregate (COUNT) が使われていますが group_by が指定されていません。省略時はルートテーブルの主キーが自動適用されます"
        )]
    );
}

#[test]
fn aggregate_with_group_by_is_no_finding() {
    let mut like_count = joined("like_count", "likes.id", join("likes", "posts.id = likes.post_id"));
    like_count.aggregate =
        Some(Aggregate { kind: "COUNT".to_string(), group_by: Some("posts.id".to_string()) });
    let doc = document("/posts", &["posts", "likes"], vec![like_count], Vec::new(), Vec::new());
    assert_eq!(validate(&doc), Vec::new());
}

#[test]
fn join_condition_names_tables_in_punctuation() {
    let doc = document(
        "/posts",
        &["posts"],
        vec![joined("n", "posts.n", join("posts", "(posts.user_id) = users.id, AND a.b.c = 1"))],
        Vec::new(),
        Vec::new(),
    );
    assert_eq!(
        validate(&doc),
        vec![rule(
            "join.on",
            "join.on で参照されるテーブル 'users' が import.dbml に含まれていません"
        )]
    );
}

#[test]
fn alias_of_the_join_is_exempt_in_its_condition() {
    let mut j = join("users", "posts.user_id = u.id");
    j.alias = Some("u".to_string());
    let doc = document(
        "/posts",
        &["posts", "users"],
        vec![joined("n", "users.n", j)],
        Vec::new(),
        Vec::new(),
    );
    assert_eq!(validate(&doc), Vec::new());
}

#[test]
fn join_chain_condition_names_table_that_is_not_imported() {
    let mut tags = field("tags", "posts.tags");
    tags.join = Some(join("post_tags", "posts.id = post_tags.post_id"));
    tags.join_chain = Some(vec![JoinChainEntry {
        table: "post_tags".to_string(),
        on: "post_tags.tag_id = labels.id".to_string(),
    }]);
    let doc = document("/posts", &["posts", "post_tags"], vec![tags], Vec::new(), Vec::new());
    assert_eq!(
        validate(&doc),
        vec![rule(
            "join_chain.on",
            "join_chain.on で参照されるテーブル 'labels' が import.dbml に含まれていません"
        )]
    );
}

#[test]
fn undeclared_param_is_reported_each_time_it_is_named() {
    let mut status = filter("status", "WHERE");
    status.condition = Some("a = :role, OR b = :role; : :_x!".to_string());
    let doc = document(
        "/users",
        &["users"],
        vec![field("id", "users.id")],
        vec![status],
        Vec::new(),
    );
    let message = "condition で使用されるパラメータ ':role' が filters[].param で宣言されていません";
    assert_eq!(
        validate(&doc),
        vec![
            rule("filters.condition", message),
            rule("filters.condition", message),
            rule(
                "filters.condition",
                "condition で使用されるパラメータ ':_x' が filters[].param で宣言されていません"
            ),
        ]
    );
}

#[test]
fn default_column_outside_the_allowed_ones_has_exact_text() {
    let mut sort = filter("sort", "ORDER_BY");
    sort.default_column = Some("users.secret_field".to_string());
    sort.allowed_columns = Some(vec!["users.created_at".to_string()]);
    let mut other = filter("page", "PAGINATION");
    other.default_column = Some("users.secret_field".to_string());
    other.allowed_columns = Some(vec!["users.created_at".to_string()]);
    let doc = document(
        "/users",
        &["users"],
        vec![field("id", "users.id")],
        vec![sort, other],
        Vec::new(),
    );
    assert_eq!(
        validate(&doc),
        vec![rule(
            "filters.allowed_columns",
            "ORDER_BY の default_column 'users.secret_field' が allowed_columns リスト外です"
        )]
    );
}

#[test]
fn transform_target_may_be_a_field_of_any_depth() {
    let list = ResponseMapping {
        field: "list".to_string(),
        source: None,
        kind: Some("array".to_string()),
        source_table: None,
        join: None,
        join_chain: None,
        aggregate: None,
        fields: Some(vec![field("deep", "users.deep")]),
    };
    let doc = document(
        "/users",
        &["users"],
        vec![list],
        Vec::new(),
        vec![transform("deep", "MASK"), transform("absent", "MASK")],
    );
    assert_eq!(
        validate(&doc),
        vec![rule(
            "transforms.target",
            "transform の target 'absent' が response_mapping のいずれかの field に対応していません"
        )]
    );
}

#[test]
fn condition_on_a_param_warns_while_no_parameters_are_known() {
    let mut conditional = transform("id", "CONDITIONAL_SOURCE");
    conditional.condition = Some(vec![param_condition("status")]);
    let doc = document(
        "/users",
        &["users"],
        vec![field("id", "users.id")],
        Vec::new(),
        vec![conditional],
    );
    assert_eq!(
        validate(&doc),
        vec![warning(
            "transforms.condition.param",
            "transform 'id' の condition に param が使われていますが、OpenAPI解析が未実装のためパラメータの存在確認はスキップされます"
        )]
    );
}

#[test]
fn known_parameters_replace_the_warning_by_a_check() {
    let mut conditional = transform("id", "CONDITIONAL_SOURCE");
    conditional.condition = Some(vec![param_condition("status"), param_condition("other")]);
    let doc = document(
        "/users",
        &["users"],
        vec![field("id", "users.id"), field("extra", "users.phone")],
        Vec::new(),
        vec![conditional],
    );
    let ctx = ResolveContext {
        openapi: Some(OpenapiResponse {
            fields: vec!["id".to_string()],
            parameters: vec!["status".to_string()],
        }),
        dbml_tables: vec![DbmlTable {
            name: "users".to_string(),
            columns: vec!["id".to_string()],
        }],
    };
    let earlier = vec![warning("import.dbml", "DBML解決に失敗しました: x")];
    assert_eq!(
        validate_with_context(&doc, &ctx, earlier),
        vec![
            warning("import.dbml", "DBML解決に失敗しました: x"),
            rule(
                "response_mapping.field",
                "フィールド extra がOpenAPIレスポンスのプロパティに存在しません"
            ),
            rule("response_mapping.source", "カラム phone がテーブル users に存在しません"),
            rule(
                "transforms.condition.param",
                "transform id の condition.param other がOpenAPIパラメータに存在しません"
            ),
        ]
    );
}

#[test]
fn unknown_tables_are_not_checked_for_columns() {
    let tables = vec![DbmlTable { name: "users".to_string(), columns: vec!["id".to_string()] }];
    let list = ResponseMapping {
        field: "list".to_string(),
        source: Some("nodot".to_string()),
        kind: Some("array".to_string()),
        source_table: None,
        join: None,
        join_chain: None,
        aggregate: None,
        fields: Some(vec![field("deep", "users.deep"), field("other", "orders.x")]),
    };
    let mut errors = Vec::new();
    validate_dbml_columns(&vec![list], &tables, &mut errors);
    assert_eq!(
        errors,
        vec![rule("response_mapping.source", "カラム deep がテーブル users に存在しません")]
    );
}
