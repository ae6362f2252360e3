use usml_core::ast::{
    Aggregate, Import, Join, JoinChainEntry, ResponseMapping, Transform, Usecase, UsmlDocument,
};
use usml_core::visualizer::{
    alias_target, depth_class, escape_html, extract_import_tables, extract_table_identifier,
    extract_table_name, flow_model, transform_kinds,
};

fn field(name: &str, source: Option<&str>) -> ResponseMapping {
    ResponseMapping {
        field: name.to_string(),
        source: source.map(|s| s.to_string()),
        kind: None,
        source_table: None,
        join: None,
        join_chain: None,
        aggregate: None,
        fields: None,
    }
}

fn transform(target: &str, kind: &str) -> Transform {
    Transform {
        target: target.to_string(),
        kind: kind.to_string(),
        source: None,
        sources: None,
        fallback: None,
        separator: None,
        when: None,
        else_value: None,
        mask_pattern: None,
        condition: None,
        then_source: None,
        else_source: None,
    }
}

fn document(dbml: &[&str], mappings: Vec<ResponseMapping>, transforms: Vec<Transform>) -> UsmlDocument {
    UsmlDocument {
        version: "0.1".to_string(),
        import: Import {
            openapi: None,
            dbml: Some(dbml.iter().map(|r| r.to_string()).collect()),
        },
        usecase: Usecase {
            name: "Profiles".to_string(),
            summary: None,
            output: None,
            response_mapping: mappings,
            filters: Vec::new(),
            transforms,
        },
    }
}

fn strings(list: &[&str]) -> Vec<String> {
    list.iter().map(|s| s.to_string()).collect()
}

#[test]
fn html_text_has_entities_for_five_characters() {
    assert_eq!(escape_html("a & b <c> \"d\" 'e'"), "a &amp; b &lt;c&gt; &quot;d&quot; &#39;e&#39;");
    assert_eq!(escape_html("&amp;"), "&amp;amp;");
    assert_eq!(escape_html("テーブル"), "テーブル");
}

#[test]
fn depth_class_stops_at_the_fourth_level() {
    assert_eq!(depth_class(0), "");
    assert_eq!(depth_class(1), " depth-1");
    assert_eq!(depth_class(3), " depth-3");
    assert_eq!(depth_class(4), " depth-4");
    assert_eq!(depth_class(9), " depth-4");
}

#[test]
fn table_name_stands_between_the_marker_and_the_bracket() {
    assert_eq!(extract_table_name("./schema.dbml#tables[\"users\"]"), Some("users".to_string()));
    assert_eq!(extract_table_name("x#tables[\"a\"]#tables[\"b\"]"), Some("a".to_string()));
    assert_eq!(extract_table_name("x#tables[\"a"), None);
    assert_eq!(extract_table_name("tables[\"a\"]"), None);
}

#[test]
fn table_identifier_is_the_start_of_the_first_word() {
    assert_eq!(extract_table_identifier("users.id"), Some("users".to_string()));
    assert_eq!(extract_table_identifier("  users.id + posts.n"), Some("users".to_string()));
    assert_eq!(extract_table_identifier("plain"), Some("plain".to_string()));
    assert_eq!(extract_table_identifier(".id"), None);
    assert_eq!(extract_table_identifier("   "), None);
}

#[test]
fn import_tables_are_named_once() {
    let doc = document(
        &[
            "./schema.dbml#tables[\"users\"]",
            "nonsense",
            "./schema.dbml#tables[\"profiles\"]",
            "./other.dbml#tables[\"users\"]",
        ],
        Vec::new(),
        Vec::new(),
    );
    assert_eq!(extract_import_tables(&doc), strings(&["users", "profiles"]));
}

#[test]
fn transform_kinds_are_those_of_the_field_in_their_order() {
    let transforms =
        vec![transform("a", "MASK"), transform("b", "CASE"), transform("a", "COALESCE")];
    assert_eq!(transform_kinds(&transforms, "a"), strings(&["MASK", "COALESCE"]));
    assert_eq!(transform_kinds(&transforms, "c"), Vec::<String>::new());
}

#[test]
fn flow_of_a_single_source() {
    let doc = document(
        &["./schema.dbml#tables[\"users\"]"],
        vec![field("id", Some("users.id"))],
        Vec::new(),
    );
    let model = flow_model(&doc);
    assert_eq!(model.entries.len(), 1);
    let entry = &model.entries[0];
    assert_eq!(entry.field, "id");
    assert_eq!(entry.field_path, "id");
    assert_eq!(entry.source, Some("users.id".to_string()));
    assert_eq!(entry.badges, Vec::<String>::new());
    assert_eq!(entry.join_lines, Vec::<String>::new());
    assert_eq!(entry.depth, 0);
    assert_eq!(entry.tables, strings(&["users"]));
    assert_eq!(entry.join_type, "simple");
    assert_eq!(model.tables.len(), 1);
    assert_eq!(model.tables[0].name, "users");
    assert_eq!(model.tables[0].columns, strings(&["id"]));
    assert!(model.aliases.is_empty());
}

#[test]
fn flow_of_a_join_with_an_aggregate_and_a_transform() {
    let mut count = field("profile_count", Some("profiles.id"));
    count.kind = Some("array".to_string());
    count.join = Some(Join {
        table: "profiles".to_string(),
        on: "users.id = profiles.user_id".to_string(),
        kind: Some("LEFT JOIN".to_string()),
        alias: None,
    });
    count.aggregate = Some(Aggregate { kind: "COUNT".to_string(), group_by: None });
    let doc = document(
        &["./schema.dbml#tables[\"users\"]", "./schema.dbml#tables[\"profiles\"]"],
        vec![count],
        vec![transform("profile_count", "COALESCE")],
    );
    let model = flow_model(&doc);
    let entry = &model.entries[0];
    assert_eq!(entry.join_lines, strings(&["LEFT JOIN profiles ON users.id = profiles.user_id"]));
    assert_eq!(entry.badges, strings(&["COUNT", "array"]));
    assert_eq!(entry.transforms, strings(&["COALESCE"]));
    assert_eq!(entry.join_type, "aggregate");
    assert_eq!(entry.tables, strings(&["profiles"]));
    let names: Vec<&str> = model.tables.iter().map(|t| t.name.as_str()).collect();
    assert_eq!(names, vec!["users", "profiles"]);
    assert_eq!(model.tables[0].columns, Vec::<String>::new());
    assert_eq!(model.tables[1].columns, strings(&["id"]));
}

#[test]
fn flow_of_nested_fields_with_alias_and_chain() {
    let mut author = field("author", Some("u.name"));
    author.join = Some(Join {
        table: "users".to_string(),
        on: "posts.user_id = u.id".to_string(),
        kind: None,
        alias: Some("u".to_string()),
    });
    let mut tag = field("tag", Some("tags.name"));
    tag.join_chain = Some(vec![
        JoinChainEntry { table: "post_tags".to_string(), on: "posts.id = post_tags.post_id".to_string() },
        JoinChainEntry { table: "tags".to_string(), on: "post_tags.tag_id = tags.id".to_string() },
    ]);
    let mut again = field("tag_id", Some("tags.name"));
    again.source = Some("tags.id".to_string());
    let mut list = field("items", None);
    list.kind = Some("array".to_string());
    list.fields = Some(vec![tag, again]);
    let doc = document(&["./schema.dbml#tables[\"posts\"]"], vec![author, list], Vec::new());
    let model = flow_model(&doc);
    let paths: Vec<(&str, usize)> =
        model.entries.iter().map(|e| (e.field_path.as_str(), e.depth)).collect();
    assert_eq!(paths, vec![("author", 0), ("items", 0), ("items.tag", 1), ("items.tag_id", 1)]);
    assert_eq!(model.entries[0].join_lines, strings(&["JOIN users AS u ON posts.user_id = u.id"]));
    assert_eq!(model.entries[0].join_type, "join");
    assert_eq!(model.entries[0].tables, strings(&["u", "users"]));
    assert_eq!(model.entries[1].badges, strings(&["array"]));
    assert_eq!(
        model.entries[2].join_lines,
        strings(&["JOIN post_tags ON posts.id = post_tags.post_id → JOIN tags ON post_tags.tag_id = tags.id"])
    );
    assert_eq!(model.entries[2].join_type, "join-chain");
    assert_eq!(model.entries[2].tables, strings(&["tags", "post_tags"]));
    let tables: Vec<(&str, Vec<String>)> =
        model.tables.iter().map(|t| (t.name.as_str(), t.columns.clone())).collect();
    assert_eq!(
        tables,
        vec![
            ("posts", Vec::new()),
            ("u", strings(&["name"])),
            ("users", Vec::new()),
            ("tags", strings(&["name", "id"])),
            ("post_tags", Vec::new()),
        ]
    );
    assert_eq!(model.aliases, vec![("u".to_string(), "users".to_string())]);
    assert_eq!(alias_target(&model.aliases, "u"), Some(&"users".to_string()));
    assert_eq!(alias_target(&model.aliases, "users"), None);
}
