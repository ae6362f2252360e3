//! What holds of the findings of every document.
use crate::ast::{preorder, JoinChainEntry, ResponseMapping, Transform, TransformCondition, UsmlDocument, Filter};
use crate::validator::filters::{
    condition_diagnostics, declared_params, filter_condition_diagnostics, filter_diagnostics,
    filters_diagnostics, named_param, order_by_diagnostics,
};
use crate::validator::imports::{
    all_mentions, import_diagnostics, imported_tables, mentions, missing_imports, used_tables,
};
use crate::text::{lemma_concat_contains, lemma_push_contains, lemma_with_new_holds, with_new};
use crate::validator::mapping::{
    aggregate_diagnostics, alias_diagnostics, chain_diagnostics, join_chain_diagnostics,
    join_diagnostics, mapping_diagnostics, node_diagnostics, reference_diagnostics,
    lemma_walk_concat, registry_after, registry_with, seen_join, source_table_diagnostics,
    table_refs, walk_diagnostics, walk_registry, SeenJoin,
};
use crate::validator::messages::{
    alias_required, default_column_not_allowed, group_by_missing, missing_import,
    param_unchecked, source_table_mismatch, undeclared_param, unknown_join_table, unknown_target,
};
use crate::validator::transforms::{
    condition_warnings, param_warnings, target_diagnostics, transform_diagnostics,
    transforms_diagnostics,
};
use crate::resolver::FileRead;
use crate::validator::resolve::{dbml_reads, dbml_resolution, openapi_resolution, resolution};
use crate::validator::{self_contained, validation, Diagnostic};
use vstd::prelude::*;

verus! {

/// The names of the rules that need no schema differ from one another.
pub proof fn lemma_rule_names()
    ensures
        "import.dbml"@.len() == 11,
        "join.alias"@.len() == 10,
        "join.on"@.len() == 7,
        "join_chain.on"@.len() == 13,
        "aggregate.group_by"@.len() == 18,
        "source_table"@.len() == 12,
        "filters.condition"@.len() == 17,
        "filters.allowed_columns"@.len() == 23,
        "transforms.target"@.len() == 17,
        "transforms.condition.param"@.len() == 26,
        "filters.condition"@[0] == 'f',
        "transforms.target"@[0] == 't',
{
    reveal_strlit("import.dbml");
    reveal_strlit("join.alias");
    reveal_strlit("join.on");
    reveal_strlit("join_chain.on");
    reveal_strlit("aggregate.group_by");
    reveal_strlit("source_table");
    reveal_strlit("filters.condition");
    reveal_strlit("filters.allowed_columns");
    reveal_strlit("transforms.target");
    reveal_strlit("transforms.condition.param");
}

/// `p` holds of every finding of the list.
pub open spec fn all(s: Seq<Diagnostic>, p: spec_fn(Diagnostic) -> bool) -> bool {
    forall|i: int| 0 <= i < s.len() ==> p(#[trigger] s[i])
}

/// The findings of the list that the rule of the given name made, in their
/// order.
pub open spec fn with_rule(s: Seq<Diagnostic>, rule: Seq<char>) -> Seq<Diagnostic>
    decreases s.len(),
{
    if s.len() == 0 {
        Seq::empty()
    } else {
        let before = with_rule(s.drop_last(), rule);
        if s.last().rule() == rule {
            before.push(s.last())
        } else {
            before
        }
    }
}

/// The findings of a rule in two lists are those in the first, followed by
/// those in the second.
pub proof fn lemma_with_rule_concat(a: Seq<Diagnostic>, b: Seq<Diagnostic>, rule: Seq<char>)
    ensures
        with_rule(a + b, rule) == with_rule(a, rule) + with_rule(b, rule),
    decreases b.len(),
{
    if b.len() == 0 {
        assert(a + b =~= a);
        assert(with_rule(a, rule) + Seq::<Diagnostic>::empty() =~= with_rule(a, rule));
    } else {
        lemma_with_rule_concat(a, b.drop_last(), rule);
        assert((a + b).drop_last() =~= a + b.drop_last());
        assert((a + b).last() == b.last());
        if b.last().rule() == rule {
            assert(with_rule(a + b, rule) =~= with_rule(a, rule) + with_rule(b, rule));
        }
    }
}

/// A list that only the rule made holds nothing but its findings.
pub proof fn lemma_with_rule_all(s: Seq<Diagnostic>, rule: Seq<char>)
    requires
        all(s, |d: Diagnostic| d.rule() == rule),
    ensures
        with_rule(s, rule) == s,
    decreases s.len(),
{
    if s.len() > 0 {
        let front = s.drop_last();
        assert forall|i: int| 0 <= i < front.len() implies (|d: Diagnostic| d.rule() == rule)(
            #[trigger] front[i],
        ) by {
            assert(front[i] == s[i]);
        }
        lemma_with_rule_all(front, rule);
        assert((|d: Diagnostic| d.rule() == rule)(s[s.len() - 1]));
        assert(front.push(s.last()) =~= s);
    }
}

/// A list that the rule had no part in holds none of its findings.
pub proof fn lemma_with_rule_none(s: Seq<Diagnostic>, rule: Seq<char>)
    requires
        all(s, |d: Diagnostic| d.rule() != rule),
    ensures
        with_rule(s, rule) == Seq::<Diagnostic>::empty(),
    decreases s.len(),
{
    if s.len() > 0 {
        let front = s.drop_last();
        assert forall|i: int| 0 <= i < front.len() implies (|d: Diagnostic| d.rule() != rule)(
            #[trigger] front[i],
        ) by {
            assert(front[i] == s[i]);
        }
        lemma_with_rule_none(front, rule);
        assert((|d: Diagnostic| d.rule() != rule)(s[s.len() - 1]));
    }
}

/// What holds of all findings of two lists holds of all findings of the two
/// in a row.
pub proof fn lemma_all_concat(a: Seq<Diagnostic>, b: Seq<Diagnostic>, p: spec_fn(Diagnostic) -> bool)
    requires
        all(a, p),
        all(b, p),
    ensures
        all(a + b, p),
{
    assert forall|i: int| 0 <= i < (a + b).len() implies p(#[trigger] (a + b)[i]) by {
        if i < a.len() {
            assert((a + b)[i] == a[i]);
        } else {
            assert((a + b)[i] == b[i - a.len()]);
        }
    }
}

/// What holds of every finding on a missing import holds of all findings of
/// the rule on imports.
pub proof fn lemma_missing_imports_all(
    used: Seq<Seq<char>>,
    imported: Seq<Seq<char>>,
    p: spec_fn(Diagnostic) -> bool,
)
    requires
        forall|t: Seq<char>| p(#[trigger] missing_import(t)),
    ensures
        all(missing_imports(used, imported), p),
    decreases used.len(),
{
    if used.len() > 0 {
        lemma_missing_imports_all(used.drop_last(), imported, p);
    }
}

/// What holds of every finding on an unknown table of a condition holds of
/// all findings on the references of a condition.
pub proof fn lemma_reference_diagnostics_all(
    refs: Seq<(Seq<char>, Seq<char>)>,
    alias: Option<Seq<char>>,
    imported: Seq<Seq<char>>,
    rule: Seq<char>,
    p: spec_fn(Diagnostic) -> bool,
)
    requires
        forall|t: Seq<char>| p(#[trigger] unknown_join_table(rule, t)),
    ensures
        all(reference_diagnostics(refs, alias, imported, rule), p),
    decreases refs.len(),
{
    if refs.len() > 0 {
        lemma_reference_diagnostics_all(refs.drop_last(), alias, imported, rule, p);
    }
}

/// The same for the conditions of a chain of joins.
pub proof fn lemma_chain_diagnostics_all(
    chain: Seq<JoinChainEntry>,
    imported: Seq<Seq<char>>,
    p: spec_fn(Diagnostic) -> bool,
)
    requires
        forall|t: Seq<char>| p(#[trigger] unknown_join_table("join_chain.on"@, t)),
    ensures
        all(chain_diagnostics(chain, imported), p),
    decreases chain.len(),
{
    if chain.len() > 0 {
        lemma_chain_diagnostics_all(chain.drop_last(), imported, p);
        lemma_reference_diagnostics_all(
            crate::validator::mapping::table_refs(chain.last().on@),
            None,
            imported,
            "join_chain.on"@,
            p,
        );
        lemma_all_concat(
            chain_diagnostics(chain.drop_last(), imported),
            reference_diagnostics(
                crate::validator::mapping::table_refs(chain.last().on@),
                None,
                imported,
                "join_chain.on"@,
            ),
            p,
        );
    }
}

/// `p` holds of every finding that the rules on mappings can make.
pub open spec fn holds_of_mapping_findings(p: spec_fn(Diagnostic) -> bool) -> bool {
    &&& forall|t: Seq<char>| p(#[trigger] alias_required(t))
    &&& forall|t: Seq<char>| p(#[trigger] unknown_join_table("join.on"@, t))
    &&& forall|t: Seq<char>| p(#[trigger] unknown_join_table("join_chain.on"@, t))
    &&& forall|f: Seq<char>, k: Seq<char>| p(#[trigger] group_by_missing(f, k))
    &&& forall|f: Seq<char>, d: Seq<char>, a: Seq<char>| p(#[trigger] source_table_mismatch(f, d, a))
}

/// What holds of every finding that the rules on mappings can make holds of
/// all findings on the join of a mapping.
pub proof fn lemma_join_diagnostics_all(
    mapping: ResponseMapping,
    joins: Seq<SeenJoin>,
    imported: Seq<Seq<char>>,
    p: spec_fn(Diagnostic) -> bool,
)
    requires
        holds_of_mapping_findings(p),
    ensures
        all(join_diagnostics(mapping, joins, imported), p),
{
    match mapping.join {
        Some(join) => {
            lemma_reference_diagnostics_all(
                crate::validator::mapping::table_refs(join.on@),
                crate::text::opt_text(join.alias),
                imported,
                "join.on"@,
                p,
            );
            lemma_all_concat(
                alias_diagnostics(joins, join),
                reference_diagnostics(
                    crate::validator::mapping::table_refs(join.on@),
                    crate::text::opt_text(join.alias),
                    imported,
                    "join.on"@,
                ),
                p,
            );
        },
        None => {},
    }
}

/// The same for all findings on one mapping.
pub proof fn lemma_node_diagnostics_all(
    mapping: ResponseMapping,
    joins: Seq<SeenJoin>,
    imported: Seq<Seq<char>>,
    p: spec_fn(Diagnostic) -> bool,
)
    requires
        holds_of_mapping_findings(p),
    ensures
        all(node_diagnostics(mapping, joins, imported), p),
{
    lemma_join_diagnostics_all(mapping, joins, imported, p);
    match mapping.join_chain {
        Some(chain) => {
            lemma_chain_diagnostics_all(chain@, imported, p);
        },
        None => {},
    }
    let a = join_diagnostics(mapping, joins, imported);
    let b = join_chain_diagnostics(mapping, imported);
    let c = aggregate_diagnostics(mapping);
    let d = source_table_diagnostics(mapping);
    lemma_all_concat(a, b, p);
    lemma_all_concat(a + b, c, p);
    lemma_all_concat(a + b + c, d, p);
}

/// The same for all findings of a walk.
pub proof fn lemma_walk_diagnostics_all(
    nodes: Seq<ResponseMapping>,
    joins: Seq<SeenJoin>,
    imported: Seq<Seq<char>>,
    p: spec_fn(Diagnostic) -> bool,
)
    requires
        holds_of_mapping_findings(p),
    ensures
        all(walk_diagnostics(nodes, joins, imported), p),
    decreases nodes.len(),
{
    if nodes.len() > 0 {
        lemma_walk_diagnostics_all(nodes.drop_last(), joins, imported, p);
        lemma_node_diagnostics_all(
            nodes.last(),
            walk_registry(nodes.drop_last(), joins),
            imported,
            p,
        );
        lemma_all_concat(
            walk_diagnostics(nodes.drop_last(), joins, imported),
            node_diagnostics(nodes.last(), walk_registry(nodes.drop_last(), joins), imported),
            p,
        );
    }
}

/// `p` holds of every finding that the rules on filters can make.
pub open spec fn holds_of_filter_findings(p: spec_fn(Diagnostic) -> bool) -> bool {
    &&& forall|x: Seq<char>| p(#[trigger] undeclared_param(x))
    &&& forall|c: Seq<char>| p(#[trigger] default_column_not_allowed(c))
}

/// What holds of every finding on an undeclared parameter holds of all
/// findings on a condition.
pub proof fn lemma_condition_diagnostics_all(
    words: Seq<Seq<char>>,
    declared: Seq<Seq<char>>,
    p: spec_fn(Diagnostic) -> bool,
)
    requires
        forall|x: Seq<char>| p(#[trigger] undeclared_param(x)),
    ensures
        all(condition_diagnostics(words, declared), p),
    decreases words.len(),
{
    if words.len() > 0 {
        lemma_condition_diagnostics_all(words.drop_last(), declared, p);
    }
}

/// What holds of every finding that the rules on filters can make holds of
/// all findings on the given filters.
pub proof fn lemma_filters_diagnostics_all(
    filters: Seq<Filter>,
    declared: Seq<Seq<char>>,
    p: spec_fn(Diagnostic) -> bool,
)
    requires
        holds_of_filter_findings(p),
    ensures
        all(filters_diagnostics(filters, declared), p),
    decreases filters.len(),
{
    if filters.len() > 0 {
        let last = filters.last();
        lemma_filters_diagnostics_all(filters.drop_last(), declared, p);
        match last.condition {
            Some(condition) => {
                lemma_condition_diagnostics_all(crate::text::words(condition@), declared, p);
            },
            None => {},
        }
        let a = filters_diagnostics(filters.drop_last(), declared);
        let b = filter_condition_diagnostics(last, declared);
        lemma_all_concat(a, b, p);
        lemma_all_concat(a + b, order_by_diagnostics(last), p);
    }
}

/// `p` holds of every finding that the rules on transforms can make without
/// a schema.
pub open spec fn holds_of_transform_findings(p: spec_fn(Diagnostic) -> bool) -> bool {
    &&& forall|t: Seq<char>| p(#[trigger] unknown_target(t))
    &&& forall|t: Seq<char>| p(#[trigger] param_unchecked(t))
}

/// What holds of every warning on an unchecked parameter holds of all
/// warnings on the conditions of a transform.
pub proof fn lemma_param_warnings_all(
    target: Seq<char>,
    conditions: Seq<TransformCondition>,
    p: spec_fn(Diagnostic) -> bool,
)
    requires
        forall|t: Seq<char>| p(#[trigger] param_unchecked(t)),
    ensures
        all(param_warnings(target, conditions), p),
    decreases conditions.len(),
{
    if conditions.len() > 0 {
        lemma_param_warnings_all(target, conditions.drop_last(), p);
    }
}

/// What holds of every finding that the rules on transforms can make holds
/// of all findings on the given transforms.
pub proof fn lemma_transforms_diagnostics_all(
    transforms: Seq<Transform>,
    names: Seq<Seq<char>>,
    params_known: bool,
    p: spec_fn(Diagnostic) -> bool,
)
    requires
        holds_of_transform_findings(p),
    ensures
        all(transforms_diagnostics(transforms, names, params_known), p),
    decreases transforms.len(),
{
    if transforms.len() > 0 {
        let last = transforms.last();
        lemma_transforms_diagnostics_all(transforms.drop_last(), names, params_known, p);
        match last.condition {
            Some(conditions) => {
                lemma_param_warnings_all(last.target@, conditions@, p);
            },
            None => {},
        }
        let a = transforms_diagnostics(transforms.drop_last(), names, params_known);
        let b = target_diagnostics(last, names);
        lemma_all_concat(a, b, p);
        lemma_all_concat(a + b, condition_warnings(last, params_known), p);
    }
}

/// What holds of every finding that the rules can make without a schema
/// holds of all findings on a document.
pub proof fn lemma_findings_all(doc: UsmlDocument, params_known: bool, p: spec_fn(Diagnostic) -> bool)
    requires
        forall|t: Seq<char>| p(#[trigger] missing_import(t)),
        holds_of_mapping_findings(p),
        holds_of_filter_findings(p),
        holds_of_transform_findings(p),
    ensures
        all(self_contained(doc, params_known), p),
{
    let tree = doc.usecase.response_mapping@;
    let a = import_diagnostics(doc);
    let b = mapping_diagnostics(tree, imported_tables(doc));
    let c = filter_diagnostics(doc);
    let d = transform_diagnostics(doc, params_known);
    lemma_missing_imports_all(used_tables(tree), imported_tables(doc), p);
    lemma_walk_diagnostics_all(preorder(tree), Seq::empty(), imported_tables(doc), p);
    lemma_filters_diagnostics_all(doc.usecase.filters@, declared_params(doc.usecase.filters@), p);
    lemma_transforms_diagnostics_all(
        doc.usecase.transforms@,
        crate::validator::transforms::all_field_names(tree),
        params_known,
        p,
    );
    lemma_all_concat(a, b, p);
    lemma_all_concat(a + b, c, p);
    lemma_all_concat(a + b + c, d, p);
}

/// The tables among `used` that are not imported, in their order.
pub open spec fn missing_tables(used: Seq<Seq<char>>, imported: Seq<Seq<char>>) -> Seq<Seq<char>>
    decreases used.len(),
{
    if used.len() == 0 {
        Seq::empty()
    } else {
        let before = missing_tables(used.drop_last(), imported);
        if imported.contains(used.last()) {
            before
        } else {
            before.push(used.last())
        }
    }
}

/// The findings of the rule on imports are those on the missing tables, one
/// for each; tables that are named once are missing once; and a table is
/// missing when it is used and not imported.
pub proof fn lemma_missing_tables(used: Seq<Seq<char>>, imported: Seq<Seq<char>>)
    ensures
        missing_imports(used, imported) == missing_tables(used, imported).map_values(
            |t: Seq<char>| missing_import(t),
        ),
        used.no_duplicates() ==> missing_tables(used, imported).no_duplicates(),
        forall|t: Seq<char>| #[trigger]
            missing_tables(used, imported).contains(t) <==> (used.contains(t) && !imported.contains(
                t,
            )),
    decreases used.len(),
{
    let f = |t: Seq<char>| missing_import(t);
    if used.len() == 0 {
        assert(missing_imports(used, imported) =~= missing_tables(used, imported).map_values(f));
        assert forall|t: Seq<char>| !used.contains(t) by {}
    } else {
        let front = used.drop_last();
        let before = missing_tables(front, imported);
        lemma_missing_tables(front, imported);
        assert(front.push(used.last()) =~= used);
        if !imported.contains(used.last()) {
            assert(before.push(used.last()).map_values(f) =~= before.map_values(f).push(
                missing_import(used.last()),
            ));
        }
        assert forall|t: Seq<char>| #[trigger]
            missing_tables(used, imported).contains(t) <==> (used.contains(t) && !imported.contains(
                t,
            )) by {
            lemma_push_contains(front, used.last(), t);
            lemma_push_contains(before, used.last(), t);
            assert(before.contains(t) <==> (front.contains(t) && !imported.contains(t)));
        }
        if used.no_duplicates() {
            assert forall|i: int, j: int|
                0 <= i < front.len() && 0 <= j < front.len() && i != j implies front[i]
                != front[j] by {
                assert(front[i] == used[i] && front[j] == used[j]);
            }
            assert(front.no_duplicates());
            if !imported.contains(used.last()) {
                if front.contains(used.last()) {
                    let i = choose|i: int| 0 <= i < front.len() && front[i] == used.last();
                    assert(used[i] == used[used.len() - 1]);
                }
                assert(!before.contains(used.last()));
            }
        }
    }
}

/// A mapping of the tree names the table: by its source, its join or its
/// chain of joins.
pub open spec fn uses_table(doc: UsmlDocument, table: Seq<char>) -> bool {
    exists|k: int|
        0 <= k < preorder(doc.usecase.response_mapping@).len() && (#[trigger] mentions(
            preorder(doc.usecase.response_mapping@)[k],
        )).contains(table)
}

/// The tables that a run of mappings names are those that one of them
/// names.
pub proof fn lemma_all_mentions_holds(nodes: Seq<ResponseMapping>, table: Seq<char>)
    ensures
        all_mentions(nodes).contains(table) <==> exists|k: int|
            0 <= k < nodes.len() && (#[trigger] mentions(nodes[k])).contains(table),
    decreases nodes.len(),
{
    if nodes.len() == 0 {
        assert(!all_mentions(nodes).contains(table));
    } else {
        let front = nodes.drop_last();
        lemma_all_mentions_holds(front, table);
        lemma_concat_contains(all_mentions(front), mentions(nodes.last()), table);
        if all_mentions(nodes).contains(table) {
            if all_mentions(front).contains(table) {
                let k = choose|k: int|
                    0 <= k < front.len() && (#[trigger] mentions(front[k])).contains(table);
                assert(front[k] == nodes[k]);
                assert(mentions(nodes[k]).contains(table));
            } else {
                assert(mentions(nodes[nodes.len() - 1]).contains(table));
            }
        }
        if exists|k: int| 0 <= k < nodes.len() && (#[trigger] mentions(nodes[k])).contains(table) {
            let k = choose|k: int|
                0 <= k < nodes.len() && (#[trigger] mentions(nodes[k])).contains(table);
            if k < front.len() {
                assert(front[k] == nodes[k]);
                assert(mentions(front[k]).contains(table));
            }
        }
    }
}

/// The tables that a document uses and does not import, each once, in the
/// order in which a walk first meets them.
pub open spec fn missing(doc: UsmlDocument) -> Seq<Seq<char>> {
    missing_tables(used_tables(doc.usecase.response_mapping@), imported_tables(doc))
}

/// For every document, the findings of the rule `import.dbml` are one for
/// each table that a mapping names by its source, its join or its chain and
/// that the document does not import: one for each such table, however many
/// mappings name it, and none else.
pub proof fn law_missing_import_reported_once(doc: UsmlDocument)
    ensures
        with_rule(validation(doc), "import.dbml"@) == missing(doc).map_values(
            |t: Seq<char>| missing_import(t),
        ),
        missing(doc).no_duplicates(),
        forall|t: Seq<char>| #[trigger]
            missing(doc).contains(t) <==> (uses_table(doc, t) && !imported_tables(doc).contains(t)),
{
    let tree = doc.usecase.response_mapping@;
    let name = "import.dbml"@;
    let used = used_tables(tree);
    let imported = imported_tables(doc);
    let a = import_diagnostics(doc);
    let b = mapping_diagnostics(tree, imported);
    let c = filter_diagnostics(doc);
    let d = transform_diagnostics(doc, false);
    let is = |x: Diagnostic| x.rule() == name;
    let is_not = |x: Diagnostic| x.rule() != name;
    lemma_rule_names();
    lemma_missing_imports_all(used, imported, is);
    lemma_with_rule_all(a, name);
    lemma_walk_diagnostics_all(preorder(tree), Seq::empty(), imported, is_not);
    lemma_with_rule_none(b, name);
    lemma_filters_diagnostics_all(
        doc.usecase.filters@,
        declared_params(doc.usecase.filters@),
        is_not,
    );
    lemma_with_rule_none(c, name);
    lemma_transforms_diagnostics_all(
        doc.usecase.transforms@,
        crate::validator::transforms::all_field_names(tree),
        false,
        is_not,
    );
    lemma_with_rule_none(d, name);
    lemma_with_rule_concat(a, b, name);
    lemma_with_rule_concat(a + b, c, name);
    lemma_with_rule_concat(a + b + c, d, name);
    assert(with_rule(validation(doc), name) =~= a);
    lemma_missing_tables(used, imported);
    lemma_with_new_holds(Seq::empty(), all_mentions(preorder(tree)));
    assert(Seq::<Seq<char>>::empty().no_duplicates());
    assert forall|t: Seq<char>| #[trigger]
        missing(doc).contains(t) <==> (uses_table(doc, t) && !imported.contains(t)) by {
        lemma_all_mentions_holds(preorder(tree), t);
        assert(!Seq::<Seq<char>>::empty().contains(t));
        assert(used.contains(t) <==> all_mentions(preorder(tree)).contains(t));
    }
}

/// Two runs of `validate` on one document report the same findings in the
/// same order.
pub proof fn law_validate_is_deterministic(
    doc: UsmlDocument,
    first: Seq<Diagnostic>,
    second: Seq<Diagnostic>,
)
    requires
        first == validation(doc),
        second == validation(doc),
    ensures
        first == second,
{
}

/// The findings that the walk makes at the mapping at position `j` of the
/// preorder of a document: the mapping is judged against the joins of the
/// mappings before it.
pub open spec fn findings_at(doc: UsmlDocument, j: int) -> Seq<Diagnostic> {
    let nodes = preorder(doc.usecase.response_mapping@);
    node_diagnostics(nodes[j], walk_registry(nodes.take(j), Seq::empty()), imported_tables(doc))
}

/// The findings of a walk hold the findings on each of its mappings.
pub proof fn lemma_walk_holds_findings(
    nodes: Seq<ResponseMapping>,
    joins: Seq<SeenJoin>,
    imported: Seq<Seq<char>>,
    j: int,
    d: Diagnostic,
)
    requires
        0 <= j < nodes.len(),
        node_diagnostics(nodes[j], walk_registry(nodes.take(j), joins), imported).contains(d),
    ensures
        walk_diagnostics(nodes, joins, imported).contains(d),
    decreases nodes.len(),
{
    let front = nodes.drop_last();
    let before = walk_diagnostics(front, joins, imported);
    let here = node_diagnostics(nodes.last(), walk_registry(front, joins), imported);
    lemma_concat_contains(before, here, d);
    if j == nodes.len() - 1 {
        assert(nodes.take(j) =~= front);
    } else {
        assert(front.take(j) =~= nodes.take(j));
        assert(front[j] == nodes[j]);
        lemma_walk_holds_findings(front, joins, imported, j, d);
    }
}

/// The findings on a document hold the findings on each of its mappings.
pub proof fn lemma_validation_holds_findings(doc: UsmlDocument, j: int, d: Diagnostic)
    requires
        0 <= j < preorder(doc.usecase.response_mapping@).len(),
        findings_at(doc, j).contains(d),
    ensures
        validation(doc).contains(d),
{
    let tree = doc.usecase.response_mapping@;
    let a = import_diagnostics(doc);
    let b = mapping_diagnostics(tree, imported_tables(doc));
    let c = filter_diagnostics(doc);
    let e = transform_diagnostics(doc, false);
    lemma_walk_holds_findings(preorder(tree), Seq::empty(), imported_tables(doc), j, d);
    lemma_concat_contains(a, b, d);
    lemma_concat_contains(a + b, c, d);
    lemma_concat_contains(a + b + c, e, d);
}

/// The mapping joins the table.
pub open spec fn joins_table(mapping: ResponseMapping, table: Seq<char>) -> bool {
    mapping.join is Some && mapping.join.unwrap().table@ == table
}

/// The mapping at position `i` is the first of the run that joins the
/// table.
pub open spec fn is_first_join(nodes: Seq<ResponseMapping>, i: int, table: Seq<char>) -> bool {
    &&& 0 <= i < nodes.len()
    &&& joins_table(nodes[i], table)
    &&& forall|k: int| 0 <= k < i ==> !joins_table(#[trigger] nodes[k], table)
}

/// The entry of a table in a registry after a push: the one it had, or the
/// pushed one where it had none and the pushed one names it.
pub proof fn lemma_seen_join_push(joins: Seq<SeenJoin>, entry: SeenJoin, table: Seq<char>)
    ensures
        seen_join(joins.push(entry), table) == if seen_join(joins, table) is Some {
            seen_join(joins, table)
        } else if entry.table == table {
            Some(entry)
        } else {
            None
        },
    decreases joins.len(),
{
    let pushed = joins.push(entry);
    if joins.len() == 0 {
        assert(pushed.drop_first() =~= Seq::<SeenJoin>::empty());
        assert(pushed[0] == entry);
        assert(seen_join(Seq::<SeenJoin>::empty(), table) is None);
    } else {
        assert(pushed[0] == joins[0]);
        assert(pushed.drop_first() =~= joins.drop_first().push(entry));
        lemma_seen_join_push(joins.drop_first(), entry, table);
    }
}

/// A walk over mappings that do not join a table leaves the table's entry in
/// the registry as it was.
pub proof fn lemma_registry_untouched(
    nodes: Seq<ResponseMapping>,
    joins: Seq<SeenJoin>,
    table: Seq<char>,
)
    requires
        forall|k: int| 0 <= k < nodes.len() ==> !joins_table(#[trigger] nodes[k], table),
    ensures
        seen_join(walk_registry(nodes, joins), table) == seen_join(joins, table),
    decreases nodes.len(),
{
    if nodes.len() > 0 {
        let front = nodes.drop_last();
        assert forall|k: int| 0 <= k < front.len() implies !joins_table(
            #[trigger] front[k],
            table,
        ) by {
            assert(front[k] == nodes[k]);
        }
        lemma_registry_untouched(front, joins, table);
        let before = walk_registry(front, joins);
        let last = nodes.last();
        assert(!joins_table(nodes[nodes.len() - 1], table));
        match last.join {
            Some(join) => {
                if seen_join(before, join.table@) is None {
                    lemma_seen_join_push(
                        before,
                        SeenJoin {
                            table: join.table@,
                            on: join.on@,
                            alias: crate::text::opt_text(join.alias),
                        },
                        table,
                    );
                }
            },
            None => {},
        }
    }
}

/// A walk keeps the entry that a table has in the registry.
pub proof fn lemma_registry_keeps(
    nodes: Seq<ResponseMapping>,
    joins: Seq<SeenJoin>,
    table: Seq<char>,
)
    requires
        seen_join(joins, table) is Some,
    ensures
        seen_join(walk_registry(nodes, joins), table) == seen_join(joins, table),
    decreases nodes.len(),
{
    if nodes.len() > 0 {
        let front = nodes.drop_last();
        lemma_registry_keeps(front, joins, table);
        let before = walk_registry(front, joins);
        match nodes.last().join {
            Some(join) => {
                if seen_join(before, join.table@) is None {
                    lemma_seen_join_push(
                        before,
                        SeenJoin {
                            table: join.table@,
                            on: join.on@,
                            alias: crate::text::opt_text(join.alias),
                        },
                        table,
                    );
                }
            },
            None => {},
        }
    }
}

/// The entry that the first join of a table leaves in the registry.
pub open spec fn entry_of(mapping: ResponseMapping) -> SeenJoin {
    let join = mapping.join.unwrap();
    SeenJoin { table: join.table@, on: join.on@, alias: crate::text::opt_text(join.alias) }
}

/// After the first join of a table, the registry of a walk from an empty
/// registry holds that join as the table's entry.
pub proof fn lemma_first_join_is_seen(
    nodes: Seq<ResponseMapping>,
    i: int,
    j: int,
    table: Seq<char>,
)
    requires
        is_first_join(nodes, i, table),
        i < j <= nodes.len(),
    ensures
        seen_join(walk_registry(nodes.take(j), Seq::empty()), table) == Some(entry_of(nodes[i])),
{
    let none = Seq::<SeenJoin>::empty();
    let imported = Seq::<Seq<char>>::empty();
    let head = nodes.take(i);
    let one = seq![nodes[i]];
    let tail = nodes.subrange(i + 1, j);
    assert(nodes.take(j) =~= head + one + tail);
    assert forall|k: int| 0 <= k < head.len() implies !joins_table(#[trigger] head[k], table) by {
        assert(head[k] == nodes[k]);
    }
    lemma_registry_untouched(head, none, table);
    let at_first = walk_registry(head, none);
    assert(seen_join(none, table) is None);
    lemma_walk_concat(head, one, none, imported);
    assert(one.drop_last() =~= Seq::<ResponseMapping>::empty());
    assert(walk_registry(Seq::<ResponseMapping>::empty(), at_first) == at_first);
    assert(walk_registry(one, at_first) == registry_after(at_first, nodes[i]));
    lemma_seen_join_push(at_first, entry_of(nodes[i]), table);
    let after_first = walk_registry(head + one, none);
    assert(seen_join(after_first, table) == Some(entry_of(nodes[i])));
    lemma_walk_concat(head + one, tail, none, imported);
    lemma_registry_keeps(tail, after_first, table);
}

/// Where a table is joined a second time on another condition than by its
/// first join, and neither of the two joins has an alias, the findings on the
/// document hold the finding of the rule `join.alias` on that table.
pub proof fn law_alias_required(doc: UsmlDocument, i: int, j: int, table: Seq<char>)
    requires
        is_first_join(preorder(doc.usecase.response_mapping@), i, table),
        i < j < preorder(doc.usecase.response_mapping@).len(),
        joins_table(preorder(doc.usecase.response_mapping@)[j], table),
        preorder(doc.usecase.response_mapping@)[i].join.unwrap().on@ != preorder(
            doc.usecase.response_mapping@,
        )[j].join.unwrap().on@,
        preorder(doc.usecase.response_mapping@)[i].join.unwrap().alias is None,
        preorder(doc.usecase.response_mapping@)[j].join.unwrap().alias is None,
    ensures
        findings_at(doc, j).contains(alias_required(table)),
        validation(doc).contains(alias_required(table)),
{
    let nodes = preorder(doc.usecase.response_mapping@);
    let imported = imported_tables(doc);
    let joins = walk_registry(nodes.take(j), Seq::empty());
    let join = nodes[j].join.unwrap();
    lemma_first_join_is_seen(nodes, i, j, table);
    let found = alias_diagnostics(joins, join);
    assert(found == seq![alias_required(table)]);
    assert(found[0] == alias_required(table));
    let refs = reference_diagnostics(
        table_refs(join.on@),
        crate::text::opt_text(join.alias),
        imported,
        "join.on"@,
    );
    lemma_concat_contains(found, refs, alias_required(table));
    let a = join_diagnostics(nodes[j], joins, imported);
    let b = join_chain_diagnostics(nodes[j], imported);
    let c = aggregate_diagnostics(nodes[j]);
    let e = source_table_diagnostics(nodes[j]);
    lemma_concat_contains(a, b, alias_required(table));
    lemma_concat_contains(a + b, c, alias_required(table));
    lemma_concat_contains(a + b + c, e, alias_required(table));
    lemma_validation_holds_findings(doc, j, alias_required(table));
}

/// Where a table is joined a second time and its first join or this one has
/// an alias, the rule `join.alias` makes no finding at the second join.
pub proof fn law_alias_suppresses(doc: UsmlDocument, i: int, j: int, table: Seq<char>)
    requires
        is_first_join(preorder(doc.usecase.response_mapping@), i, table),
        i < j < preorder(doc.usecase.response_mapping@).len(),
        joins_table(preorder(doc.usecase.response_mapping@)[j], table),
        preorder(doc.usecase.response_mapping@)[i].join.unwrap().alias is Some || preorder(
            doc.usecase.response_mapping@,
        )[j].join.unwrap().alias is Some,
    ensures
        with_rule(findings_at(doc, j), "join.alias"@) == Seq::<Diagnostic>::empty(),
{
    let nodes = preorder(doc.usecase.response_mapping@);
    let imported = imported_tables(doc);
    let joins = walk_registry(nodes.take(j), Seq::empty());
    let join = nodes[j].join.unwrap();
    let name = "join.alias"@;
    let is_not = |x: Diagnostic| x.rule() != name;
    lemma_rule_names();
    lemma_first_join_is_seen(nodes, i, j, table);
    assert(alias_diagnostics(joins, join) =~= Seq::<Diagnostic>::empty());
    let refs = reference_diagnostics(
        table_refs(join.on@),
        crate::text::opt_text(join.alias),
        imported,
        "join.on"@,
    );
    lemma_reference_diagnostics_all(
        table_refs(join.on@),
        crate::text::opt_text(join.alias),
        imported,
        "join.on"@,
        is_not,
    );
    let a = join_diagnostics(nodes[j], joins, imported);
    assert(a =~= refs);
    let b = join_chain_diagnostics(nodes[j], imported);
    match nodes[j].join_chain {
        Some(chain) => {
            lemma_chain_diagnostics_all(chain@, imported, is_not);
        },
        None => {},
    }
    let c = aggregate_diagnostics(nodes[j]);
    let e = source_table_diagnostics(nodes[j]);
    lemma_all_concat(a, b, is_not);
    lemma_all_concat(a + b, c, is_not);
    lemma_all_concat(a + b + c, e, is_not);
    lemma_with_rule_none(findings_at(doc, j), name);
}

/// Where a mapping has an aggregate without a `group_by`, the rule
/// `aggregate.group_by` makes one finding at that mapping, a warning, and the
/// findings on the document hold it.
pub proof fn law_group_by_warning(doc: UsmlDocument, j: int)
    requires
        0 <= j < preorder(doc.usecase.response_mapping@).len(),
        preorder(doc.usecase.response_mapping@)[j].aggregate is Some,
        preorder(doc.usecase.response_mapping@)[j].aggregate.unwrap().group_by is None,
    ensures
        with_rule(findings_at(doc, j), "aggregate.group_by"@) == seq![
            group_by_missing(
                preorder(doc.usecase.response_mapping@)[j].field@,
                preorder(doc.usecase.response_mapping@)[j].aggregate.unwrap().kind@,
            ),
        ],
        group_by_missing(
            preorder(doc.usecase.response_mapping@)[j].field@,
            preorder(doc.usecase.response_mapping@)[j].aggregate.unwrap().kind@,
        ) is Warning,
        validation(doc).contains(
            group_by_missing(
                preorder(doc.usecase.response_mapping@)[j].field@,
                preorder(doc.usecase.response_mapping@)[j].aggregate.unwrap().kind@,
            ),
        ),
{
    let nodes = preorder(doc.usecase.response_mapping@);
    let node = nodes[j];
    let imported = imported_tables(doc);
    let joins = walk_registry(nodes.take(j), Seq::empty());
    let name = "aggregate.group_by"@;
    let is_not = |x: Diagnostic| x.rule() != name;
    let is = |x: Diagnostic| x.rule() == name;
    let w = group_by_missing(node.field@, node.aggregate.unwrap().kind@);
    lemma_rule_names();
    let a = join_diagnostics(node, joins, imported);
    let b = join_chain_diagnostics(node, imported);
    let c = aggregate_diagnostics(node);
    let e = source_table_diagnostics(node);
    match node.join {
        Some(join) => {
            lemma_reference_diagnostics_all(
                table_refs(join.on@),
                crate::text::opt_text(join.alias),
                imported,
                "join.on"@,
                is_not,
            );
            lemma_all_concat(
                alias_diagnostics(joins, join),
                reference_diagnostics(
                    table_refs(join.on@),
                    crate::text::opt_text(join.alias),
                    imported,
                    "join.on"@,
                ),
                is_not,
            );
        },
        None => {},
    }
    match node.join_chain {
        Some(chain) => {
            lemma_chain_diagnostics_all(chain@, imported, is_not);
        },
        None => {},
    }
    assert(c == seq![w]);
    assert(c[0] == w);
    lemma_with_rule_none(a, name);
    lemma_with_rule_none(b, name);
    lemma_with_rule_all(c, name);
    lemma_with_rule_none(e, name);
    lemma_with_rule_concat(a, b, name);
    lemma_with_rule_concat(a + b, c, name);
    lemma_with_rule_concat(a + b + c, e, name);
    assert(with_rule(findings_at(doc, j), name) =~= seq![w]);
    lemma_concat_contains(a + b, c, w);
    lemma_concat_contains(a + b + c, e, w);
    lemma_validation_holds_findings(doc, j, w);
}

/// No finding of the rule `aggregate.group_by` on any document is a `Rule`:
/// they are warnings all.
pub proof fn law_group_by_never_blocks(doc: UsmlDocument)
    ensures
        all(
            validation(doc),
            |d: Diagnostic| d.rule() == "aggregate.group_by"@ ==> d is Warning,
        ),
{
    lemma_rule_names();
    lemma_findings_all(
        doc,
        false,
        |d: Diagnostic| d.rule() == "aggregate.group_by"@ ==> d is Warning,
    );
}

/// The reads of DBML files leave warnings only, at most one for each read.
pub proof fn lemma_dbml_resolution_warns(reads: Seq<FileRead>)
    ensures
        all(dbml_resolution(reads).1, |d: Diagnostic| d is Warning),
        dbml_resolution(reads).1.len() <= reads.len(),
    decreases reads.len(),
{
    if reads.len() > 0 {
        lemma_dbml_resolution_warns(reads.drop_last());
    }
}

/// A reference that cannot be resolved never blocks: whatever reading the
/// files gave, the resolution leaves warnings only, at most one for each
/// file.
pub proof fn law_unresolved_references_warn(doc: UsmlDocument, reads: Seq<FileRead>)
    requires
        reads.len() == crate::validator::resolve::files_to_read(doc).len(),
    ensures
        all(resolution(doc, reads).1, |d: Diagnostic| d is Warning),
        resolution(doc, reads).1.len() <= reads.len(),
{
    let p = |d: Diagnostic| d is Warning;
    let first = openapi_resolution(doc, reads).1;
    let rest = dbml_resolution(dbml_reads(doc, reads)).1;
    lemma_dbml_resolution_warns(dbml_reads(doc, reads));
    assert(all(first, p)) by {
        if first.len() > 0 {
            assert(first.len() == 1);
        }
    }
    lemma_all_concat(first, rest, p);
}

/// The warnings on the aggregates of the given mappings, in their order.
pub open spec fn group_by_warnings(nodes: Seq<ResponseMapping>) -> Seq<Diagnostic>
    decreases nodes.len(),
{
    if nodes.len() == 0 {
        Seq::empty()
    } else {
        group_by_warnings(nodes.drop_last()) + aggregate_diagnostics(nodes.last())
    }
}

/// How many of the given mappings have an aggregate without a `group_by`.
pub open spec fn aggregates_without_group_by(nodes: Seq<ResponseMapping>) -> nat
    decreases nodes.len(),
{
    if nodes.len() == 0 {
        0
    } else {
        aggregates_without_group_by(nodes.drop_last()) + if nodes.last().aggregate is Some
            && nodes.last().aggregate.unwrap().group_by is None {
            1nat
        } else {
            0nat
        }
    }
}

/// There is one warning for each aggregate without a `group_by`, and each is
/// a warning of the rule `aggregate.group_by`.
pub proof fn lemma_group_by_warnings(nodes: Seq<ResponseMapping>)
    ensures
        group_by_warnings(nodes).len() == aggregates_without_group_by(nodes),
        all(
            group_by_warnings(nodes),
            |d: Diagnostic| d is Warning && d.rule() == "aggregate.group_by"@,
        ),
    decreases nodes.len(),
{
    if nodes.len() > 0 {
        lemma_group_by_warnings(nodes.drop_last());
        lemma_all_concat(
            group_by_warnings(nodes.drop_last()),
            aggregate_diagnostics(nodes.last()),
            |d: Diagnostic| d is Warning && d.rule() == "aggregate.group_by"@,
        );
    }
}

/// Of the findings on one mapping, those of the rule `aggregate.group_by`
/// are the warning on its aggregate.
pub proof fn lemma_node_group_by(
    node: ResponseMapping,
    joins: Seq<SeenJoin>,
    imported: Seq<Seq<char>>,
)
    ensures
        with_rule(node_diagnostics(node, joins, imported), "aggregate.group_by"@)
            == aggregate_diagnostics(node),
{
    let name = "aggregate.group_by"@;
    let is_not = |x: Diagnostic| x.rule() != name;
    lemma_rule_names();
    let a = join_diagnostics(node, joins, imported);
    let b = join_chain_diagnostics(node, imported);
    let c = aggregate_diagnostics(node);
    let e = source_table_diagnostics(node);
    match node.join {
        Some(join) => {
            lemma_reference_diagnostics_all(
                table_refs(join.on@),
                crate::text::opt_text(join.alias),
                imported,
                "join.on"@,
                is_not,
            );
            lemma_all_concat(
                alias_diagnostics(joins, join),
                reference_diagnostics(
                    table_refs(join.on@),
                    crate::text::opt_text(join.alias),
                    imported,
                    "join.on"@,
                ),
                is_not,
            );
        },
        None => {},
    }
    match node.join_chain {
        Some(chain) => {
            lemma_chain_diagnostics_all(chain@, imported, is_not);
        },
        None => {},
    }
    lemma_with_rule_none(a, name);
    lemma_with_rule_none(b, name);
    lemma_with_rule_all(c, name);
    lemma_with_rule_none(e, name);
    lemma_with_rule_concat(a, b, name);
    lemma_with_rule_concat(a + b, c, name);
    lemma_with_rule_concat(a + b + c, e, name);
    assert(with_rule(node_diagnostics(node, joins, imported), name) =~= c);
}

/// Of the findings of a walk, those of the rule `aggregate.group_by` are
/// the warnings on the aggregates of its mappings.
pub proof fn lemma_walk_group_by(
    nodes: Seq<ResponseMapping>,
    joins: Seq<SeenJoin>,
    imported: Seq<Seq<char>>,
)
    ensures
        with_rule(walk_diagnostics(nodes, joins, imported), "aggregate.group_by"@)
            == group_by_warnings(nodes),
    decreases nodes.len(),
{
    if nodes.len() > 0 {
        let front = nodes.drop_last();
        lemma_walk_group_by(front, joins, imported);
        lemma_node_group_by(nodes.last(), walk_registry(front, joins), imported);
        lemma_with_rule_concat(
            walk_diagnostics(front, joins, imported),
            node_diagnostics(nodes.last(), walk_registry(front, joins), imported),
            "aggregate.group_by"@,
        );
    }
}

/// For every document, the findings of the rule `aggregate.group_by` are
/// warnings, one for each mapping that has an aggregate without a
/// `group_by`, in the order of the mappings, and none else.
pub proof fn law_group_by_warned_once(doc: UsmlDocument)
    ensures
        with_rule(validation(doc), "aggregate.group_by"@) == group_by_warnings(
            preorder(doc.usecase.response_mapping@),
        ),
        with_rule(validation(doc), "aggregate.group_by"@).len() == aggregates_without_group_by(
            preorder(doc.usecase.response_mapping@),
        ),
        all(with_rule(validation(doc), "aggregate.group_by"@), |d: Diagnostic| d is Warning),
{
    let tree = doc.usecase.response_mapping@;
    let name = "aggregate.group_by"@;
    let imported = imported_tables(doc);
    let a = import_diagnostics(doc);
    let b = mapping_diagnostics(tree, imported);
    let c = filter_diagnostics(doc);
    let d = transform_diagnostics(doc, false);
    let is_not = |x: Diagnostic| x.rule() != name;
    lemma_rule_names();
    lemma_missing_imports_all(used_tables(tree), imported, is_not);
    lemma_with_rule_none(a, name);
    lemma_walk_group_by(preorder(tree), Seq::empty(), imported);
    lemma_filters_diagnostics_all(
        doc.usecase.filters@,
        declared_params(doc.usecase.filters@),
        is_not,
    );
    lemma_with_rule_none(c, name);
    lemma_transforms_diagnostics_all(
        doc.usecase.transforms@,
        crate::validator::transforms::all_field_names(tree),
        false,
        is_not,
    );
    lemma_with_rule_none(d, name);
    lemma_with_rule_concat(a, b, name);
    lemma_with_rule_concat(a + b, c, name);
    lemma_with_rule_concat(a + b + c, d, name);
    assert(with_rule(validation(doc), name) =~= group_by_warnings(preorder(tree)));
    lemma_group_by_warnings(preorder(tree));
    let found = group_by_warnings(preorder(tree));
    assert forall|i: int| 0 <= i < found.len() implies (|x: Diagnostic| x is Warning)(
        #[trigger] found[i],
    ) by {
        assert((|x: Diagnostic| x is Warning && x.rule() == "aggregate.group_by"@)(found[i]));
    }
}

/// The finding of the rule `join.alias` on one table is not that on
/// another.
pub proof fn lemma_alias_required_names_table(a: Seq<char>, b: Seq<char>)
    requires
        alias_required(a) == alias_required(b),
    ensures
        a == b,
{
    let head = "テーブル '"@;
    let tail = "' が異なる結合条件で複数参照されていますが、alias が指定されていません"@;
    let x = head + a + tail;
    let y = head + b + tail;
    assert(alias_required(a).message() == x);
    assert(alias_required(b).message() == y);
    assert(x == y);
    assert(x.len() == head.len() + a.len() + tail.len());
    assert(y.len() == head.len() + b.len() + tail.len());
    assert forall|k: int| 0 <= k < a.len() implies a[k] == b[k] by {
        assert(x[head.len() + k] == a[k]);
        assert(y[head.len() + k] == b[k]);
    }
    assert(a =~= b);
}

/// `p` holds of all findings that a walk from an empty registry makes at
/// the first `k` of the mappings, where it holds of the findings at each of
/// them.
pub proof fn lemma_walk_all_by_position(
    nodes: Seq<ResponseMapping>,
    imported: Seq<Seq<char>>,
    k: int,
    p: spec_fn(Diagnostic) -> bool,
)
    requires
        0 <= k <= nodes.len(),
        forall|j: int|
            0 <= j < nodes.len() ==> all(
                #[trigger] node_diagnostics(
                    nodes[j],
                    walk_registry(nodes.take(j), Seq::empty()),
                    imported,
                ),
                p,
            ),
    ensures
        all(walk_diagnostics(nodes.take(k), Seq::empty(), imported), p),
    decreases k,
{
    if k > 0 {
        let front = nodes.take(k - 1);
        lemma_walk_all_by_position(nodes, imported, k - 1, p);
        assert(nodes.take(k).drop_last() =~= front);
        assert(nodes.take(k).last() == nodes[k - 1]);
        assert(all(
            node_diagnostics(nodes[k - 1], walk_registry(nodes.take(k - 1), Seq::empty()), imported),
            p,
        ));
        lemma_all_concat(
            walk_diagnostics(front, Seq::empty(), imported),
            node_diagnostics(nodes[k - 1], walk_registry(front, Seq::empty()), imported),
            p,
        );
    }
}

/// Where every later join of a table has the condition of the table's first
/// join, or an alias, or the first join has an alias, the findings on the
/// document hold no finding of the rule `join.alias` on that table.
pub proof fn law_alias_suppressed(doc: UsmlDocument, i: int, table: Seq<char>)
    requires
        is_first_join(preorder(doc.usecase.response_mapping@), i, table),
        forall|j: int|
            i < j < preorder(doc.usecase.response_mapping@).len() && joins_table(
                #[trigger] preorder(doc.usecase.response_mapping@)[j],
                table,
            ) ==> (preorder(doc.usecase.response_mapping@)[j].join.unwrap().on@ == preorder(
                doc.usecase.response_mapping@,
            )[i].join.unwrap().on@ || preorder(
                doc.usecase.response_mapping@,
            )[i].join.unwrap().alias is Some || preorder(
                doc.usecase.response_mapping@,
            )[j].join.unwrap().alias is Some),
    ensures
        !validation(doc).contains(alias_required(table)),
{
    let tree = doc.usecase.response_mapping@;
    let nodes = preorder(tree);
    let imported = imported_tables(doc);
    let none = Seq::<SeenJoin>::empty();
    let wanted = alias_required(table);
    let p = |d: Diagnostic| d != wanted;
    lemma_rule_names();
    assert forall|j: int| 0 <= j < nodes.len() implies all(
        #[trigger] node_diagnostics(nodes[j], walk_registry(nodes.take(j), none), imported),
        p,
    ) by {
        let node = nodes[j];
        let joins = walk_registry(nodes.take(j), none);
        let a = join_diagnostics(node, joins, imported);
        let b = join_chain_diagnostics(node, imported);
        let c = aggregate_diagnostics(node);
        let e = source_table_diagnostics(node);
        match node.join {
            Some(join) => {
                let found = alias_diagnostics(joins, join);
                if join.table@ == table {
                    if j == i {
                        assert forall|k: int| 0 <= k < nodes.take(j).len() implies !joins_table(
                            #[trigger] nodes.take(j)[k],
                            table,
                        ) by {
                            assert(nodes.take(j)[k] == nodes[k]);
                        }
                        lemma_registry_untouched(nodes.take(j), none, table);
                        assert(seen_join(none, table) is None);
                    } else {
                        assert(joins_table(nodes[j], table));
                        if j < i {
                            assert(!joins_table(nodes[j], table));
                        }
                        lemma_first_join_is_seen(nodes, i, j, table);
                    }
                    assert(found =~= Seq::<Diagnostic>::empty());
                } else {
                    if found.len() > 0 {
                        assert(found[0] == alias_required(join.table@));
                        if alias_required(join.table@) == wanted {
                            lemma_alias_required_names_table(join.table@, table);
                        }
                    }
                }
                assert(all(found, p));
                lemma_reference_diagnostics_all(
                    table_refs(join.on@),
                    crate::text::opt_text(join.alias),
                    imported,
                    "join.on"@,
                    p,
                );
                lemma_all_concat(
                    found,
                    reference_diagnostics(
                        table_refs(join.on@),
                        crate::text::opt_text(join.alias),
                        imported,
                        "join.on"@,
                    ),
                    p,
                );
            },
            None => {},
        }
        match node.join_chain {
            Some(chain) => {
                lemma_chain_diagnostics_all(chain@, imported, p);
            },
            None => {},
        }
        lemma_all_concat(a, b, p);
        lemma_all_concat(a + b, c, p);
        lemma_all_concat(a + b + c, e, p);
    }
    lemma_walk_all_by_position(nodes, imported, nodes.len() as int, p);
    assert(nodes.take(nodes.len() as int) =~= nodes);
    let a = import_diagnostics(doc);
    let b = mapping_diagnostics(tree, imported);
    let c = filter_diagnostics(doc);
    let d = transform_diagnostics(doc, false);
    lemma_missing_imports_all(used_tables(tree), imported, p);
    lemma_filters_diagnostics_all(doc.usecase.filters@, declared_params(doc.usecase.filters@), p);
    lemma_transforms_diagnostics_all(
        doc.usecase.transforms@,
        crate::validator::transforms::all_field_names(tree),
        false,
        p,
    );
    lemma_all_concat(a, b, p);
    lemma_all_concat(a + b, c, p);
    lemma_all_concat(a + b + c, d, p);
    if validation(doc).contains(wanted) {
        let k = choose|k: int| 0 <= k < validation(doc).len() && validation(doc)[k] == wanted;
        assert(p(validation(doc)[k]));
    }
}

/// No two entries of the registry name one table.
pub open spec fn names_each_table_once(joins: Seq<SeenJoin>) -> bool {
    forall|a: int, b: int| 0 <= a < b < joins.len() ==> joins[a].table != joins[b].table
}

/// A table without an entry in the registry is named by none of its
/// entries.
pub proof fn lemma_unseen_table(joins: Seq<SeenJoin>, table: Seq<char>, k: int)
    requires
        seen_join(joins, table) is None,
        0 <= k < joins.len(),
    ensures
        joins[k].table != table,
    decreases k,
{
    if k > 0 {
        assert(joins.drop_first()[k - 1] == joins[k]);
        lemma_unseen_table(joins.drop_first(), table, k - 1);
    }
}

/// The registry of a walk keeps one entry for each table: a walk that starts
/// with such a registry ends with one.
pub proof fn law_registry_names_each_table_once(nodes: Seq<ResponseMapping>, joins: Seq<SeenJoin>)
    requires
        names_each_table_once(joins),
    ensures
        names_each_table_once(walk_registry(nodes, joins)),
    decreases nodes.len(),
{
    if nodes.len() > 0 {
        let before = walk_registry(nodes.drop_last(), joins);
        law_registry_names_each_table_once(nodes.drop_last(), joins);
        match nodes.last().join {
            Some(join) => {
                if seen_join(before, join.table@) is None {
                    let after = registry_with(before, join);
                    assert forall|a: int, b: int| 0 <= a < b < after.len() implies after[a].table
                        != after[b].table by {
                        if b == before.len() {
                            assert(after[a] == before[a]);
                            lemma_unseen_table(before, join.table@, a);
                        } else {
                            assert(after[a] == before[a] && after[b] == before[b]);
                        }
                    }
                }
            },
            None => {},
        }
    }
}

} // verus!
