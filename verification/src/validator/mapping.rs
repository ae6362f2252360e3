//! The rules on the tree of response mappings: joins and their aliases, the
//! tables that join conditions name, aggregates, and the source tables of
//! array fields.
use crate::ast::{below, preorder, preorder_of, Join, JoinChainEntry, ResponseMapping};
use crate::text::{
    all_word_chars, contains_text, only_word_chars, opt_text, same_text, slices, split_at_first,
    split_once, split_whitespace, texts, trim, trim_of, words,
};
use crate::validator::messages::{
    alias_required, alias_required_error, group_by_missing, group_by_missing_warning,
    source_table_mismatch, source_table_mismatch_error, unknown_join_table,
    unknown_join_table_error,
};
use crate::validator::{diagnostics, report, Diagnostic, ValidationError};
use vstd::prelude::*;

verus! {

/// The table and the column that a word of a condition names. A word names
/// them when, without the characters at its ends that belong to no dotted
/// name, it holds a dot with a table before it and a column after it, and the
/// column is a name.
pub open spec fn column_reference(word: Seq<char>) -> Option<(Seq<char>, Seq<char>)> {
    match split_at_first(trim(word, true), "."@) {
        Some((table, column)) => if table.len() > 0 && column.len() > 0 && all_word_chars(
            column,
        ) {
            Some((table, column))
        } else {
            None
        },
        None => None,
    }
}

/// The references among the given words, in their order.
pub open spec fn column_references(words: Seq<Seq<char>>) -> Seq<(Seq<char>, Seq<char>)>
    decreases words.len(),
{
    if words.len() == 0 {
        Seq::empty()
    } else {
        let before = column_references(words.drop_last());
        match column_reference(words.last()) {
            Some(reference) => before.push(reference),
            None => before,
        }
    }
}

/// The `table.column` references of a join condition, in their order.
pub open spec fn table_refs(on: Seq<char>) -> Seq<(Seq<char>, Seq<char>)> {
    column_references(words(on))
}

/// The texts of a list of pairs of strings.
pub open spec fn pairs(v: Seq<(String, String)>) -> Seq<(Seq<char>, Seq<char>)> {
    v.map_values(|p: (String, String)| (p.0@, p.1@))
}

/// The `table.column` references of a join condition: its words are split at
/// white space and read one by one, nothing more is parsed.
pub fn extract_table_refs(on_expr: &str) -> (refs: Vec<(String, String)>)
    ensures
        pairs(refs@) == table_refs(on_expr@),
{
    let tokens = split_whitespace(on_expr);
    let mut refs: Vec<(String, String)> = Vec::new();
    let mut i: usize = 0;
    while i < tokens.len()
        invariant
            i <= tokens.len(),
            slices(tokens@) == words(on_expr@),
            pairs(refs@) == column_references(slices(tokens@).take(i as int)),
        decreases tokens.len() - i,
    {
        let ghost seen = slices(tokens@).take(i as int);
        let ghost next = slices(tokens@).take(i + 1);
        proof {
            assert(next.drop_last() =~= seen);
            assert(next.last() == tokens@[i as int]@);
        }
        let clean = trim_of(tokens[i], true);
        match split_once(clean, ".") {
            Some((table, column)) => {
                if !table.is_empty() && !column.is_empty() && only_word_chars(column) {
                    let entry = (String::from_str(table), String::from_str(column));
                    proof {
                        assert(pairs(refs@.push(entry)) =~= pairs(refs@).push(
                            (table@, column@),
                        ));
                    }
                    refs.push(entry);
                }
            },
            None => {},
        }
        i += 1;
    }
    proof {
        assert(slices(tokens@).take(tokens.len() as int) =~= slices(tokens@));
    }
    refs
}

/// The findings on the references of one join condition: one for each
/// reference whose table is neither the join's alias nor imported.
pub open spec fn reference_diagnostics(
    refs: Seq<(Seq<char>, Seq<char>)>,
    alias: Option<Seq<char>>,
    imported: Seq<Seq<char>>,
    rule: Seq<char>,
) -> Seq<Diagnostic>
    decreases refs.len(),
{
    if refs.len() == 0 {
        Seq::empty()
    } else {
        let before = reference_diagnostics(refs.drop_last(), alias, imported, rule);
        let table = refs.last().0;
        if alias == Some(table) || imported.contains(table) {
            before
        } else {
            before.push(unknown_join_table(rule, table))
        }
    }
}

/// Reports the tables that the condition `on` names and that are neither the
/// join's alias nor imported.
pub fn check_join_condition(
    on: &str,
    alias: &Option<String>,
    imported_tables: &Vec<String>,
    rule: &str,
    errors: &mut Vec<ValidationError>,
)
    ensures
        diagnostics(final(errors)@) == diagnostics(old(errors)@) + reference_diagnostics(
            table_refs(on@),
            opt_text(*alias),
            texts(imported_tables@),
            rule@,
        ),
{
    let refs = extract_table_refs(on);
    let ghost all = table_refs(on@);
    let ghost exempt = opt_text(*alias);
    let ghost imported = texts(imported_tables@);
    let mut i: usize = 0;
    proof {
        assert(diagnostics(errors@) + Seq::<Diagnostic>::empty() =~= diagnostics(errors@));
    }
    while i < refs.len()
        invariant
            i <= refs.len(),
            pairs(refs@) == all,
            exempt == opt_text(*alias),
            imported == texts(imported_tables@),
            diagnostics(errors@) == diagnostics(old(errors)@) + reference_diagnostics(
                all.take(i as int),
                exempt,
                imported,
                rule@,
            ),
        decreases refs.len() - i,
    {
        let ghost before = reference_diagnostics(all.take(i as int), exempt, imported, rule@);
        proof {
            assert(all.take(i + 1).drop_last() =~= all.take(i as int));
            assert(all.take(i + 1).last() == (refs@[i as int].0@, refs@[i as int].1@));
        }
        let table = &refs[i].0;
        let is_alias = match alias {
            Some(a) => same_text(table.as_str(), a.as_str()),
            None => false,
        };
        if !is_alias && !contains_text(imported_tables, table.as_str()) {
            let error = unknown_join_table_error(rule, table.as_str());
            report(errors, error);
            proof {
                assert((diagnostics(old(errors)@) + before).push(error@) =~= diagnostics(
                    old(errors)@,
                ) + before.push(error@));
            }
        }
        i += 1;
    }
    proof {
        assert(all.take(refs.len() as int) =~= all);
    }
}

/// The findings on the conditions of a chain of joins, step by step.
pub open spec fn chain_diagnostics(chain: Seq<JoinChainEntry>, imported: Seq<Seq<char>>) -> Seq<
    Diagnostic,
>
    decreases chain.len(),
{
    if chain.len() == 0 {
        Seq::empty()
    } else {
        chain_diagnostics(chain.drop_last(), imported) + reference_diagnostics(
            table_refs(chain.last().on@),
            None,
            imported,
            "join_chain.on"@,
        )
    }
}

/// Reports the tables that the conditions of a chain name and that are not
/// imported.
pub fn check_join_chain(
    chain: &Vec<JoinChainEntry>,
    imported_tables: &Vec<String>,
    errors: &mut Vec<ValidationError>,
)
    ensures
        diagnostics(final(errors)@) == diagnostics(old(errors)@) + chain_diagnostics(
            chain@,
            texts(imported_tables@),
        ),
{
    let ghost imported = texts(imported_tables@);
    let mut i: usize = 0;
    proof {
        assert(diagnostics(errors@) + Seq::<Diagnostic>::empty() =~= diagnostics(errors@));
    }
    while i < chain.len()
        invariant
            i <= chain.len(),
            imported == texts(imported_tables@),
            diagnostics(errors@) == diagnostics(old(errors)@) + chain_diagnostics(
                chain@.take(i as int),
                imported,
            ),
        decreases chain.len() - i,
    {
        let ghost before = chain_diagnostics(chain@.take(i as int), imported);
        let ghost step = reference_diagnostics(
            table_refs(chain@[i as int].on@),
            None,
            imported,
            "join_chain.on"@,
        );
        proof {
            assert(chain@.take(i + 1).drop_last() =~= chain@.take(i as int));
            assert(chain@.take(i + 1).last() == chain@[i as int]);
            assert((diagnostics(old(errors)@) + before) + step =~= diagnostics(old(errors)@) + (
            before + step));
        }
        check_join_condition(chain[i].on.as_str(), &None, imported_tables, "join_chain.on", errors);
        i += 1;
    }
    proof {
        assert(chain@.take(chain.len() as int) =~= chain@);
    }
}

/// The first join of a table that a walk has met: its condition and alias.
pub struct JoinSeen {
    pub table: String,
    pub on: String,
    pub alias: Option<String>,
}

/// A `JoinSeen` as contracts see it.
pub struct SeenJoin {
    pub table: Seq<char>,
    pub on: Seq<char>,
    pub alias: Option<Seq<char>>,
}

impl View for JoinSeen {
    type V = SeenJoin;

    open spec fn view(&self) -> SeenJoin {
        SeenJoin { table: self.table@, on: self.on@, alias: opt_text(self.alias) }
    }
}

/// A registry of joins, as contracts see it.
pub open spec fn registry(joins: Seq<JoinSeen>) -> Seq<SeenJoin> {
    joins.map_values(|j: JoinSeen| j@)
}

/// The entry of `table` in the registry: the first one that names it.
pub open spec fn seen_join(joins: Seq<SeenJoin>, table: Seq<char>) -> Option<SeenJoin>
    decreases joins.len(),
{
    if joins.len() == 0 {
        None
    } else if joins[0].table == table {
        Some(joins[0])
    } else {
        seen_join(joins.drop_first(), table)
    }
}

/// An entry that no earlier entry of the same table precedes is the table's
/// entry.
pub proof fn lemma_seen_join_at(joins: Seq<SeenJoin>, table: Seq<char>, i: int)
    requires
        0 <= i < joins.len(),
        joins[i].table == table,
        forall|j: int| 0 <= j < i ==> joins[j].table != table,
    ensures
        seen_join(joins, table) == Some(joins[i]),
    decreases i,
{
    if i > 0 {
        let rest = joins.drop_first();
        assert forall|j: int| 0 <= j < i - 1 implies rest[j].table != table by {
            assert(rest[j] == joins[j + 1]);
        }
        lemma_seen_join_at(rest, table, i - 1);
    }
}

/// A registry with no entry of a table has none to show for it.
pub proof fn lemma_seen_join_none(joins: Seq<SeenJoin>, table: Seq<char>)
    requires
        forall|j: int| 0 <= j < joins.len() ==> joins[j].table != table,
    ensures
        seen_join(joins, table) is None,
    decreases joins.len(),
{
    if joins.len() > 0 {
        let rest = joins.drop_first();
        assert forall|j: int| 0 <= j < rest.len() implies rest[j].table != table by {
            assert(rest[j] == joins[j + 1]);
        }
        lemma_seen_join_none(rest, table);
    }
}

/// The position of the entry of `table` in the registry.
pub fn find_join(join_map: &Vec<JoinSeen>, table: &str) -> (r: Option<usize>)
    ensures
        match r {
            Some(i) => i < join_map.len() && seen_join(registry(join_map@), table@) == Some(
                join_map@[i as int]@,
            ),
            None => seen_join(registry(join_map@), table@) is None,
        },
{
    let mut i: usize = 0;
    while i < join_map.len()
        invariant
            i <= join_map.len(),
            forall|j: int| 0 <= j < i ==> registry(join_map@)[j].table != table@,
        decreases join_map.len() - i,
    {
        if same_text(join_map[i].table.as_str(), table) {
            proof {
                lemma_seen_join_at(registry(join_map@), table@, i as int);
            }
            return Some(i);
        }
        i += 1;
    }
    proof {
        lemma_seen_join_none(registry(join_map@), table@);
    }
    None
}

/// The finding on a join, judged against the joins met before it: the table
/// was joined before on another condition, and neither that join nor this one
/// has an alias.
pub open spec fn alias_diagnostics(joins: Seq<SeenJoin>, join: Join) -> Seq<Diagnostic> {
    match seen_join(joins, join.table@) {
        Some(first) => if first.on != join.on@ && join.alias is None && first.alias is None {
            seq![alias_required(join.table@)]
        } else {
            Seq::empty()
        },
        None => Seq::empty(),
    }
}

/// The registry after a join: a table's first join enters it, later ones
/// leave it as it is.
pub open spec fn registry_with(joins: Seq<SeenJoin>, join: Join) -> Seq<SeenJoin> {
    if seen_join(joins, join.table@) is None {
        joins.push(SeenJoin { table: join.table@, on: join.on@, alias: opt_text(join.alias) })
    } else {
        joins
    }
}

/// Judges a join against the registry, and enters it where its table is
/// new.
pub fn check_alias(join: &Join, join_map: &mut Vec<JoinSeen>, errors: &mut Vec<ValidationError>)
    ensures
        registry(final(join_map)@) == registry_with(registry(old(join_map)@), *join),
        diagnostics(final(errors)@) == diagnostics(old(errors)@) + alias_diagnostics(
            registry(old(join_map)@),
            *join,
        ),
{
    match find_join(join_map, join.table.as_str()) {
        Some(i) => {
            let first = &join_map[i];
            if !same_text(first.on.as_str(), join.on.as_str()) && join.alias.is_none()
                && first.alias.is_none() {
                let error = alias_required_error(join.table.as_str());
                report(errors, error);
                proof {
                    assert(diagnostics(old(errors)@).push(error@) =~= diagnostics(old(errors)@)
                        + seq![error@]);
                }
            } else {
                proof {
                    assert(diagnostics(errors@) + Seq::<Diagnostic>::empty() =~= diagnostics(
                        errors@,
                    ));
                }
            }
        },
        None => {
            let entry = JoinSeen {
                table: join.table.clone(),
                on: join.on.clone(),
                alias: join.alias.clone(),
            };
            proof {
                assert(registry(join_map@.push(entry)) =~= registry(join_map@).push(entry@));
                assert(diagnostics(errors@) + Seq::<Diagnostic>::empty() =~= diagnostics(errors@));
            }
            join_map.push(entry);
        },
    }
}

/// The finding on an aggregate: a warning where it has no `group_by`.
pub open spec fn aggregate_diagnostics(mapping: ResponseMapping) -> Seq<Diagnostic> {
    match mapping.aggregate {
        Some(aggregate) => if aggregate.group_by is None {
            seq![group_by_missing(mapping.field@, aggregate.kind@)]
        } else {
            Seq::empty()
        },
        None => Seq::empty(),
    }
}

/// The table that the joins of a mapping reach: that of the last step of its
/// chain, or that of its join where it has no step.
pub open spec fn actual_source(join: Join, chain: Option<Vec<JoinChainEntry>>) -> Seq<char> {
    match chain {
        Some(steps) => if steps@.len() > 0 {
            steps@.last().table@
        } else {
            join.table@
        },
        None => join.table@,
    }
}

/// The finding on the source table of an array field that has a join: its
/// `source_table` has to be the table that the joins reach.
pub open spec fn source_table_diagnostics(mapping: ResponseMapping) -> Seq<Diagnostic> {
    if opt_text(mapping.kind) == Some("array"@) {
        match (mapping.source_table, mapping.join) {
            (Some(declared), Some(join)) => {
                let actual = actual_source(join, mapping.join_chain);
                if declared@ != actual {
                    seq![source_table_mismatch(mapping.field@, declared@, actual)]
                } else {
                    Seq::empty()
                }
            },
            _ => Seq::empty(),
        }
    } else {
        Seq::empty()
    }
}

/// The findings on the join of a mapping: on its alias, then on its
/// condition.
pub open spec fn join_diagnostics(
    mapping: ResponseMapping,
    joins: Seq<SeenJoin>,
    imported: Seq<Seq<char>>,
) -> Seq<Diagnostic> {
    match mapping.join {
        Some(join) => alias_diagnostics(joins, join) + reference_diagnostics(
            table_refs(join.on@),
            opt_text(join.alias),
            imported,
            "join.on"@,
        ),
        None => Seq::empty(),
    }
}

/// The findings on the chain of joins of a mapping.
pub open spec fn join_chain_diagnostics(mapping: ResponseMapping, imported: Seq<Seq<char>>) -> Seq<
    Diagnostic,
> {
    match mapping.join_chain {
        Some(chain) => chain_diagnostics(chain@, imported),
        None => Seq::empty(),
    }
}

/// The findings on one mapping, judged against the joins met before it: on
/// its join, on its chain, on its aggregate and on its source table.
pub open spec fn node_diagnostics(
    mapping: ResponseMapping,
    joins: Seq<SeenJoin>,
    imported: Seq<Seq<char>>,
) -> Seq<Diagnostic> {
    join_diagnostics(mapping, joins, imported) + join_chain_diagnostics(mapping, imported)
        + aggregate_diagnostics(mapping) + source_table_diagnostics(mapping)
}

/// The registry after one mapping.
pub open spec fn registry_after(joins: Seq<SeenJoin>, mapping: ResponseMapping) -> Seq<SeenJoin> {
    match mapping.join {
        Some(join) => registry_with(joins, join),
        None => joins,
    }
}

/// The registry after the given mappings, met in this order.
pub open spec fn walk_registry(nodes: Seq<ResponseMapping>, joins: Seq<SeenJoin>) -> Seq<SeenJoin>
    decreases nodes.len(),
{
    if nodes.len() == 0 {
        joins
    } else {
        registry_after(walk_registry(nodes.drop_last(), joins), nodes.last())
    }
}

/// The findings on the given mappings, met in this order: each mapping is
/// judged against the registry that the mappings before it leave.
pub open spec fn walk_diagnostics(
    nodes: Seq<ResponseMapping>,
    joins: Seq<SeenJoin>,
    imported: Seq<Seq<char>>,
) -> Seq<Diagnostic>
    decreases nodes.len(),
{
    if nodes.len() == 0 {
        Seq::empty()
    } else {
        walk_diagnostics(nodes.drop_last(), joins, imported) + node_diagnostics(
            nodes.last(),
            walk_registry(nodes.drop_last(), joins),
            imported,
        )
    }
}

/// The findings on a tree of mappings: those of a walk in preorder that
/// starts with an empty registry.
pub open spec fn mapping_diagnostics(mappings: Seq<ResponseMapping>, imported: Seq<Seq<char>>) -> Seq<
    Diagnostic,
> {
    walk_diagnostics(preorder(mappings), Seq::empty(), imported)
}

/// A walk over two runs of mappings is the walk over the first, followed by
/// the walk over the second from the registry that the first leaves.
pub proof fn lemma_walk_concat(
    a: Seq<ResponseMapping>,
    b: Seq<ResponseMapping>,
    joins: Seq<SeenJoin>,
    imported: Seq<Seq<char>>,
)
    ensures
        walk_registry(a + b, joins) == walk_registry(b, walk_registry(a, joins)),
        walk_diagnostics(a + b, joins, imported) == walk_diagnostics(a, joins, imported)
            + walk_diagnostics(b, walk_registry(a, joins), imported),
    decreases b.len(),
{
    if b.len() == 0 {
        assert(a + b =~= a);
        assert(walk_diagnostics(a, joins, imported) + Seq::<Diagnostic>::empty()
            =~= walk_diagnostics(a, joins, imported));
    } else {
        let front = b.drop_last();
        lemma_walk_concat(a, front, joins, imported);
        assert((a + b).drop_last() =~= a + front);
        assert((a + b).last() == b.last());
        let mid = walk_registry(a, joins);
        assert(walk_diagnostics(a + b, joins, imported) =~= walk_diagnostics(a, joins, imported)
            + (walk_diagnostics(front, mid, imported) + node_diagnostics(
            b.last(),
            walk_registry(front, mid),
            imported,
        )));
    }
}

/// Reports the aggregate of a mapping where it has no `group_by`.
pub fn check_aggregate(mapping: &ResponseMapping, errors: &mut Vec<ValidationError>)
    ensures
        diagnostics(final(errors)@) == diagnostics(old(errors)@) + aggregate_diagnostics(*mapping),
{
    proof {
        assert(diagnostics(errors@) + Seq::<Diagnostic>::empty() =~= diagnostics(errors@));
    }
    match &mapping.aggregate {
        Some(aggregate) => {
            if aggregate.group_by.is_none() {
                let error = group_by_missing_warning(
                    mapping.field.as_str(),
                    aggregate.kind.as_str(),
                );
                report(errors, error);
                proof {
                    assert(diagnostics(old(errors)@).push(error@) =~= diagnostics(old(errors)@)
                        + seq![error@]);
                }
            }
        },
        None => {},
    }
}

/// Reports the source table of an array field that is not the table its
/// joins reach.
pub fn check_source_table(mapping: &ResponseMapping, errors: &mut Vec<ValidationError>)
    ensures
        diagnostics(final(errors)@) == diagnostics(old(errors)@) + source_table_diagnostics(
            *mapping,
        ),
{
    proof {
        assert(diagnostics(errors@) + Seq::<Diagnostic>::empty() =~= diagnostics(errors@));
    }
    let is_array = match &mapping.kind {
        Some(kind) => same_text(kind.as_str(), "array"),
        None => false,
    };
    if is_array {
        match (&mapping.source_table, &mapping.join) {
            (Some(declared), Some(join)) => {
                let actual: &String = match &mapping.join_chain {
                    Some(steps) => if steps.len() > 0 {
                        &steps[steps.len() - 1].table
                    } else {
                        &join.table
                    },
                    None => &join.table,
                };
                if !same_text(declared.as_str(), actual.as_str()) {
                    let error = source_table_mismatch_error(
                        mapping.field.as_str(),
                        declared.as_str(),
                        actual.as_str(),
                    );
                    report(errors, error);
                    proof {
                        assert(diagnostics(old(errors)@).push(error@) =~= diagnostics(
                            old(errors)@,
                        ) + seq![error@]);
                    }
                }
            },
            _ => {},
        }
    }
}

/// Judges one mapping against the registry, and enters its join.
pub fn check_mapping(
    mapping: &ResponseMapping,
    imported_tables: &Vec<String>,
    join_map: &mut Vec<JoinSeen>,
    errors: &mut Vec<ValidationError>,
)
    ensures
        registry(final(join_map)@) == registry_after(registry(old(join_map)@), *mapping),
        diagnostics(final(errors)@) == diagnostics(old(errors)@) + node_diagnostics(
            *mapping,
            registry(old(join_map)@),
            texts(imported_tables@),
        ),
{
    let ghost imported = texts(imported_tables@);
    let ghost joins = registry(join_map@);
    let ghost start = diagnostics(errors@);
    match &mapping.join {
        Some(join) => {
            check_alias(join, join_map, errors);
            check_join_condition(join.on.as_str(), &join.alias, imported_tables, "join.on", errors);
        },
        None => {},
    }
    let ghost d1 = join_diagnostics(*mapping, joins, imported);
    proof {
        assert(diagnostics(errors@) =~= start + d1);
    }
    match &mapping.join_chain {
        Some(chain) => {
            check_join_chain(chain, imported_tables, errors);
        },
        None => {},
    }
    let ghost d2 = join_chain_diagnostics(*mapping, imported);
    proof {
        assert(diagnostics(errors@) =~= start + d1 + d2);
    }
    check_aggregate(mapping, errors);
    check_source_table(mapping, errors);
    proof {
        assert(diagnostics(errors@) =~= start + (d1 + d2 + aggregate_diagnostics(*mapping)
            + source_table_diagnostics(*mapping)));
    }
}

/// Walks a tree of mappings in preorder, from a given registry of the joins
/// met so far, and reports what the rules on joins, aggregates and source
/// tables find.
pub fn validate_response_mapping_inner(
    mappings: &Vec<ResponseMapping>,
    imported_tables: &Vec<String>,
    join_map: &mut Vec<JoinSeen>,
    errors: &mut Vec<ValidationError>,
)
    ensures
        registry(final(join_map)@) == walk_registry(preorder(mappings@), registry(old(join_map)@)),
        diagnostics(final(errors)@) == diagnostics(old(errors)@) + walk_diagnostics(
            preorder(mappings@),
            registry(old(join_map)@),
            texts(imported_tables@),
        ),
    decreases mappings,
{
    let ghost imported = texts(imported_tables@);
    let ghost joins = registry(join_map@);
    let ghost start = diagnostics(errors@);
    let mut i: usize = 0;
    proof {
        assert(mappings@.take(0) =~= Seq::<ResponseMapping>::empty());
        assert(start + Seq::<Diagnostic>::empty() =~= start);
    }
    while i < mappings.len()
        invariant
            i <= mappings.len(),
            imported == texts(imported_tables@),
            registry(join_map@) == walk_registry(preorder(mappings@.take(i as int)), joins),
            diagnostics(errors@) == start + walk_diagnostics(
                preorder(mappings@.take(i as int)),
                joins,
                imported,
            ),
        decreases mappings.len() - i,
    {
        let mapping = &mappings[i];
        let ghost done = preorder(mappings@.take(i as int));
        let ghost before = registry(join_map@);
        let ghost found = diagnostics(errors@);
        check_mapping(mapping, imported_tables, join_map, errors);
        let ghost under = below(*mapping);
        let ghost entered = registry(join_map@);
        let ghost at_node = diagnostics(errors@);
        match &mapping.fields {
            Some(sub_fields) => {
                validate_response_mapping_inner(sub_fields, imported_tables, join_map, errors);
            },
            None => {
                proof {
                    assert(at_node + Seq::<Diagnostic>::empty() =~= at_node);
                }
            },
        }
        proof {
            let one = seq![*mapping];
            assert(mappings@.take(i + 1).drop_last() =~= mappings@.take(i as int));
            assert(mappings@.take(i + 1).last() == *mapping);
            assert(preorder_of(*mapping) == one + under);
            assert(preorder(mappings@.take(i + 1)) == done + (one + under));
            let none = Seq::<ResponseMapping>::empty();
            assert(one.drop_last() =~= none);
            assert(walk_registry(none, before) == before);
            assert(walk_diagnostics(none, before, imported) =~= Seq::<Diagnostic>::empty());
            assert(walk_registry(one, before) == entered);
            assert(walk_diagnostics(one, before, imported) =~= node_diagnostics(
                *mapping,
                before,
                imported,
            ));
            lemma_walk_concat(one, under, before, imported);
            lemma_walk_concat(done, one + under, joins, imported);
            assert(diagnostics(errors@) =~= start + (walk_diagnostics(done, joins, imported) + (
            walk_diagnostics(one, before, imported) + walk_diagnostics(under, entered, imported))));
        }
        i += 1;
    }
    proof {
        assert(mappings@.take(mappings.len() as int) =~= mappings@);
    }
}

/// Reports what the rules on joins, aggregates and source tables find in a
/// tree of mappings.
pub fn validate_response_mapping(
    mappings: &Vec<ResponseMapping>,
    imported_tables: &Vec<String>,
    errors: &mut Vec<ValidationError>,
)
    ensures
        diagnostics(final(errors)@) == diagnostics(old(errors)@) + mapping_diagnostics(
            mappings@,
            texts(imported_tables@),
        ),
{
    let mut join_map: Vec<JoinSeen> = Vec::new();
    proof {
        assert(registry(join_map@) =~= Seq::<SeenJoin>::empty());
    }
    validate_response_mapping_inner(mappings, imported_tables, &mut join_map, errors);
}

} // verus!
