use usml_core::ast::{
    Aggregate, CaseWhen, Filter, Import, Join, ResponseMapping, Transform, Usecase, UsmlDocument,
};
use usml_core::visualizer::generate_html;

fn no_transform(target: &str, kind: &str) -> Transform {
    Transform {
        target: target.to_string(),
        kind: kind.to_string(),
        source: None,
        sources: None,
        fallback: None,
        separator: None,
        when: None,
        else_value: None,
        mask_pattern: None,
        condition: None,
        then_source: None,
        else_source: None,
    }
}

#[test]
fn test_generate_html_contains_sections() {
    let doc = UsmlDocument {
        version: "0.1".to_string(),
        import: Import {
            openapi: None,
            dbml: Some(vec!["./schema.dbml#tables[\"users\"]".to_string()]),
        },
        usecase: Usecase {
            name: "Users".to_string(),
            summary: None,
            output: None,
            response_mapping: vec![ResponseMapping {
                field: "id".to_string(),
                source: Some("users.id".to_string()),
                kind: None,
                source_table: None,
                join: None,
                join_chain: None,
                aggregate: None,
                fields: None,
            }],
            filters: Vec::new(),
            transforms: Vec::new(),
        },
    };

    let html = generate_html(&doc);
    assert!(html.contains("Response Fields"));
    assert!(html.contains("Joins &amp; Transforms"));
    assert!(html.contains("Tables"));
}

#[test]
fn test_generate_html_includes_join_and_badges() {
    let doc = UsmlDocument {
        version: "0.1".to_string(),
        import: Import {
            openapi: None,
            dbml: Some(vec![
                "./schema.dbml#tables[\"users\"]".to_string(),
                "./schema.dbml#tables[\"profiles\"]".to_string(),
            ]),
        },
        usecase: Usecase {
            name: "Profiles".to_string(),
            summary: None,
            output: None,
            response_mapping: vec![ResponseMapping {
                field: "profile_count".to_string(),
                source: Some("profiles.id".to_string()),
                kind: Some("array".to_string()),
                source_table: None,
                join: Some(Join {
                    table: "profiles".to_string(),
                    on: "users.id = profiles.user_id".to_string(),
                    kind: Some("LEFT JOIN".to_string()),
                    alias: None,
                }),
                join_chain: None,
                aggregate: Some(Aggregate {
                    kind: "COUNT".to_string(),
                    group_by: None,
                }),
                fields: None,
            }],
            filters: Vec::new(),
            transforms: vec![Transform {
                target: "profile_count".to_string(),
                kind: "COALESCE".to_string(),
                source: None,
                sources: None,
                fallback: None,
                separator: None,
                when: None,
                else_value: None,
                mask_pattern: None,
                condition: None,
                then_source: None,
                else_source: None,
            }],
        },
    };

    let html = generate_html(&doc);
    assert!(html.contains("LEFT JOIN profiles ON users.id = profiles.user_id"));
    assert!(html.contains("COUNT"));
    assert!(html.contains("array"));
    assert!(html.contains("COALESCE"));
    assert!(html.contains("profiles"));
}

#[test]
fn test_generate_html_has_flow_svg_and_legend() {
    let doc = UsmlDocument {
        version: "0.1".to_string(),
        import: Import {
            openapi: None,
            dbml: Some(vec!["./schema.dbml#tables[\"users\"]".to_string()]),
        },
        usecase: Usecase {
            name: "Flow Test".to_string(),
            summary: None,
            output: None,
            response_mapping: vec![ResponseMapping {
                field: "name".to_string(),
                source: Some("users.name".to_string()),
                kind: None,
                source_table: None,
                join: None,
                join_chain: None,
                aggregate: None,
                fields: None,
            }],
            filters: Vec::new(),
            transforms: Vec::new(),
        },
    };
    let html = generate_html(&doc);
    assert!(html.contains("flow-svg"), "SVG overlay missing");
    assert!(html.contains("flow-container"), "flow-container missing");
    assert!(html.contains("legend"), "legend missing");
    assert!(html.contains("data-field=\"name\""), "data-field missing");
    assert!(html.contains("data-table=\"users\""), "data-table missing");
    assert!(html.contains("drawFlows"), "JavaScript missing");
}

#[test]
fn page_of_a_document_without_mappings() {
    let doc = UsmlDocument {
        version: "0.1".to_string(),
        import: Import { openapi: None, dbml: None },
        usecase: Usecase {
            name: "a < b".to_string(),
            summary: Some("\"quoted\" & more".to_string()),
            output: None,
            response_mapping: Vec::new(),
            filters: Vec::new(),
            transforms: Vec::new(),
        },
    };
    let html = generate_html(&doc);
    assert!(html.starts_with("<!DOCTYPE html>\n<html>\n<head>\n<meta charset=\"utf-8\">\n"));
    assert!(html.ends_with("</script>\n</body>\n</html>\n"));
    assert!(html.contains(
        "<div class=\"header\">\n<h1>a &lt; b</h1><p class=\"summary\">&quot;quoted&quot; &amp; more</p><div class=\"tabs\">\n"
    ));
    assert!(html.contains("<div class=\"empty\">No response mappings.</div></div>\n"));
    assert!(html.contains("<div class=\"empty\">No joins or transforms.</div></div>\n"));
    assert!(html.contains("<div class=\"empty\">No tables imported.</div></div>\n</div>\n</div>\n"));
    assert!(!html.contains("<h2>Filters</h2>"));
    assert!(!html.contains("<h2>Transforms</h2>"));
    assert!(!html.contains("api-info\">"));
}

#[test]
fn page_shows_the_operation_the_tables_and_the_details() {
    let mut author = ResponseMapping {
        field: "author".to_string(),
        source: Some("u.name".to_string()),
        kind: None,
        source_table: None,
        join: Some(Join {
            table: "users".to_string(),
            on: "posts.user_id = u.id".to_string(),
            kind: None,
            alias: Some("u".to_string()),
        }),
        join_chain: None,
        aggregate: None,
        fields: None,
    };
    author.fields = Some(vec![
        ResponseMapping {
            field: "b".to_string(),
            source: Some("u.beta".to_string()),
            kind: None,
            source_table: None,
            join: None,
            join_chain: None,
            aggregate: None,
            fields: None,
        },
        ResponseMapping {
            field: "a".to_string(),
            source: Some("u.Zeta".to_string()),
            kind: None,
            source_table: None,
            join: None,
            join_chain: None,
            aggregate: None,
            fields: None,
        },
    ]);
    let mut case = no_transform("author", "CASE");
    case.when = Some(vec![
        CaseWhen { value: "1".to_string(), then: "x".to_string() },
        CaseWhen { value: "2".to_string(), then: "y".to_string() },
    ]);
    case.sources = Some(vec!["u.name".to_string(), "u.nick".to_string()]);
    let doc = UsmlDocument {
        version: "0.1".to_string(),
        import: Import {
            openapi: Some("./api.yaml#paths[\"/posts/{id}\"].patch.responses[\"200\"]".to_string()),
            dbml: Some(vec!["./s.dbml#tables[\"posts\"]".to_string()]),
        },
        usecase: Usecase {
            name: "Posts".to_string(),
            summary: None,
            output: None,
            response_mapping: vec![author],
            filters: vec![Filter {
                param: "page".to_string(),
                maps_to: "PAGINATION".to_string(),
                condition: None,
                strategy: Some("offset".to_string()),
                page_size: Some(120),
                limit_param: None,
                max_page_size: None,
                cursor_field: None,
                default_column: None,
                default_direction: None,
                allowed_columns: None,
                allowed_directions: None,
            }],
            transforms: vec![case],
        },
    };
    let html = generate_html(&doc);
    assert!(html.contains(
        "<div class=\"api-info\">\n<span class=\"method-badge method-patch\">PATCH</span><span class=\"api-path\">/posts/{id}</span><span class=\"status-badge\">Status: 200</span></div>\n"
    ));
    assert!(html.contains(
        "<div class=\"card response-card depth-1\" data-field=\"author.b\" data-tables=\"u\" data-join-type=\"simple\"><div class=\"field-name\">b</div></div>\n"
    ));
    assert!(html.contains(
        "<div class=\"card table-card\" data-table=\"u\"><div class=\"field-name\">users <span style=\"color: #6b7280; font-weight: 400;\">(as u)</span></div><div class=\"join-line\">Columns:</div><div style=\"margin-top: 4px;\"><code style=\"background: #e5e7eb; padding: 2px 6px; border-radius: 4px; font-size: 0.85rem;\">Zeta</code>, <code style=\"background: #e5e7eb; padding: 2px 6px; border-radius: 4px; font-size: 0.85rem;\">beta</code>, <code style=\"background: #e5e7eb; padding: 2px 6px; border-radius: 4px; font-size: 0.85rem;\">name</code></div></div>\n"
    ));
    assert!(html.contains(
        "<tr class=\"indent-1\"><td><code class=\"inline\">  \u{2514}\u{2500} a</code></td><td>u.Zeta</td><td>-</td><td>-</td><td>-</td></tr>\n"
    ));
    assert!(html.contains(
        "<tr><td><code class=\"inline\">page</code></td><td><strong>PAGINATION</strong></td><td>strategy: <code class=\"inline\">offset</code>, page_size: <code class=\"inline\">120</code></td></tr>\n"
    ));
    assert!(html.contains(
        "<tr><td><code class=\"inline\">author</code></td><td><strong>CASE</strong></td><td><code class=\"inline\">u.name</code>, <code class=\"inline\">u.nick</code></td><td>when: 2 conditions</td></tr>\n"
    ));
    assert!(html.contains(
        "<tr><td><strong>users</strong> <span style=\"color: #6b7280; font-weight: 400;\">(as u)</span></td><td><code class=\"inline\">Zeta</code>, <code class=\"inline\">beta</code>, <code class=\"inline\">name</code></td></tr>\n"
    ));
}
