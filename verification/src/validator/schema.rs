//! The rules that need the resolved schemas: the fields of the mapping are
//! properties of the response, the columns that sources name exist, and the
//! parameters that transforms test are parameters of the operation.
use crate::ast::{below, preorder, preorder_of, ResponseMapping, Transform, TransformCondition};
use crate::resolver::{tables, DbmlTable, OpenapiResponse, TableFacts};
use crate::text::{contains_text, same_text, split_at_first, split_once, texts};
use crate::validator::messages::{
    unknown_column, unknown_column_error, unknown_field, unknown_field_error, unknown_param,
    unknown_param_error,
};
use crate::validator::{diagnostics, report, Diagnostic, ValidationError};
use vstd::prelude::*;

verus! {

/// One finding for each of the given mappings whose field is not among
/// `fields`. The mappings below them are not looked at.
pub open spec fn field_diagnostics(mappings: Seq<ResponseMapping>, fields: Set<Seq<char>>) -> Seq<
    Diagnostic,
>
    decreases mappings.len(),
{
    if mappings.len() == 0 {
        Seq::empty()
    } else {
        let before = field_diagnostics(mappings.drop_last(), fields);
        if fields.contains(mappings.last().field@) {
            before
        } else {
            before.push(unknown_field(mappings.last().field@))
        }
    }
}

/// Reports the fields of the top level of the mapping that are no properties
/// of the response.
pub fn validate_openapi_fields(
    mappings: &Vec<ResponseMapping>,
    openapi: &OpenapiResponse,
    errors: &mut Vec<ValidationError>,
)
    ensures
        diagnostics(final(errors)@) == diagnostics(old(errors)@) + field_diagnostics(
            mappings@,
            openapi@.fields,
        ),
{
    let ghost fields = openapi@.fields;
    let ghost start = diagnostics(errors@);
    let mut i: usize = 0;
    proof {
        assert(start + Seq::<Diagnostic>::empty() =~= start);
    }
    while i < mappings.len()
        invariant
            i <= mappings.len(),
            fields == openapi@.fields,
            diagnostics(errors@) == start + field_diagnostics(mappings@.take(i as int), fields),
        decreases mappings.len() - i,
    {
        let ghost before = field_diagnostics(mappings@.take(i as int), fields);
        proof {
            assert(mappings@.take(i + 1).drop_last() =~= mappings@.take(i as int));
            assert(mappings@.take(i + 1).last() == mappings@[i as int]);
        }
        if !contains_text(&openapi.fields, mappings[i].field.as_str()) {
            let error = unknown_field_error(mappings[i].field.as_str());
            report(errors, error);
            proof {
                assert((start + before).push(error@) =~= start + before.push(error@));
            }
        }
        i += 1;
    }
    proof {
        assert(mappings@.take(mappings.len() as int) =~= mappings@);
    }
}

/// The columns of the first of the tables that has the given name.
pub open spec fn columns_of(tables: Seq<TableFacts>, name: Seq<char>) -> Option<Seq<Seq<char>>>
    decreases tables.len(),
{
    if tables.len() == 0 {
        None
    } else if tables[0].name == name {
        Some(tables[0].columns)
    } else {
        columns_of(tables.drop_first(), name)
    }
}

/// A table that no earlier table of the same name precedes is the one whose
/// columns count.
pub proof fn lemma_columns_of_at(tables: Seq<TableFacts>, name: Seq<char>, i: int)
    requires
        0 <= i < tables.len(),
        tables[i].name == name,
        forall|j: int| 0 <= j < i ==> tables[j].name != name,
    ensures
        columns_of(tables, name) == Some(tables[i].columns),
    decreases i,
{
    if i > 0 {
        let rest = tables.drop_first();
        assert forall|j: int| 0 <= j < i - 1 implies rest[j].name != name by {
            assert(rest[j] == tables[j + 1]);
        }
        lemma_columns_of_at(rest, name, i - 1);
    }
}

/// Where no table has the name, no columns count.
pub proof fn lemma_columns_of_none(tables: Seq<TableFacts>, name: Seq<char>)
    requires
        forall|j: int| 0 <= j < tables.len() ==> tables[j].name != name,
    ensures
        columns_of(tables, name) is None,
    decreases tables.len(),
{
    if tables.len() > 0 {
        let rest = tables.drop_first();
        assert forall|j: int| 0 <= j < rest.len() implies rest[j].name != name by {
            assert(rest[j] == tables[j + 1]);
        }
        lemma_columns_of_none(rest, name);
    }
}

/// The position of the first table that has the given name.
pub fn find_table(dbml_tables: &Vec<DbmlTable>, name: &str) -> (r: Option<usize>)
    ensures
        match r {
            Some(i) => i < dbml_tables.len() && columns_of(tables(dbml_tables@), name@) == Some(
                texts(dbml_tables@[i as int].columns@),
            ) && dbml_tables@[i as int].name@ == name@,
            None => columns_of(tables(dbml_tables@), name@) is None,
        },
{
    let mut i: usize = 0;
    while i < dbml_tables.len()
        invariant
            i <= dbml_tables.len(),
            forall|j: int| 0 <= j < i ==> tables(dbml_tables@)[j].name != name@,
        decreases dbml_tables.len() - i,
    {
        if same_text(dbml_tables[i].name.as_str(), name) {
            proof {
                lemma_columns_of_at(tables(dbml_tables@), name@, i as int);
            }
            return Some(i);
        }
        i += 1;
    }
    proof {
        lemma_columns_of_none(tables(dbml_tables@), name@);
    }
    None
}

/// The finding on the source of one mapping: where it has the form
/// `table.column` and the table is known, the table has to have the column.
pub open spec fn source_diagnostics(mapping: ResponseMapping, tables: Seq<TableFacts>) -> Seq<
    Diagnostic,
> {
    match mapping.source {
        Some(source) => match split_at_first(source@, "."@) {
            Some((table, column)) => match columns_of(tables, table) {
                Some(columns) => if columns.contains(column) {
                    Seq::empty()
                } else {
                    seq![unknown_column(column, table)]
                },
                None => Seq::empty(),
            },
            None => Seq::empty(),
        },
        None => Seq::empty(),
    }
}

/// The findings on the sources of the given mappings, in their order.
pub open spec fn column_diagnostics(nodes: Seq<ResponseMapping>, tables: Seq<TableFacts>) -> Seq<
    Diagnostic,
>
    decreases nodes.len(),
{
    if nodes.len() == 0 {
        Seq::empty()
    } else {
        column_diagnostics(nodes.drop_last(), tables) + source_diagnostics(nodes.last(), tables)
    }
}

/// The findings on two runs of mappings are those on the first, followed by
/// those on the second.
pub proof fn lemma_column_diagnostics_concat(
    a: Seq<ResponseMapping>,
    b: Seq<ResponseMapping>,
    tables: Seq<TableFacts>,
)
    ensures
        column_diagnostics(a + b, tables) == column_diagnostics(a, tables) + column_diagnostics(
            b,
            tables,
        ),
    decreases b.len(),
{
    if b.len() == 0 {
        assert(a + b =~= a);
        assert(column_diagnostics(a, tables) + Seq::<Diagnostic>::empty() =~= column_diagnostics(
            a,
            tables,
        ));
    } else {
        lemma_column_diagnostics_concat(a, b.drop_last(), tables);
        assert((a + b).drop_last() =~= a + b.drop_last());
        assert((a + b).last() == b.last());
        assert(column_diagnostics(a + b, tables) =~= column_diagnostics(a, tables) + (
        column_diagnostics(b.drop_last(), tables) + source_diagnostics(b.last(), tables)));
    }
}

/// Reports the source of one mapping where its table is known and lacks the
/// column.
pub fn check_source(
    mapping: &ResponseMapping,
    dbml_tables: &Vec<DbmlTable>,
    errors: &mut Vec<ValidationError>,
)
    ensures
        diagnostics(final(errors)@) == diagnostics(old(errors)@) + source_diagnostics(
            *mapping,
            tables(dbml_tables@),
        ),
{
    proof {
        assert(diagnostics(errors@) + Seq::<Diagnostic>::empty() =~= diagnostics(errors@));
    }
    match &mapping.source {
        Some(source) => match split_once(source.as_str(), ".") {
            Some((table, column)) => match find_table(dbml_tables, table) {
                Some(i) => {
                    if !contains_text(&dbml_tables[i].columns, column) {
                        let error = unknown_column_error(column, table);
                        report(errors, error);
                        proof {
                            assert(diagnostics(old(errors)@).push(error@) =~= diagnostics(
                                old(errors)@,
                            ) + seq![error@]);
                        }
                    }
                },
                None => {},
            },
            None => {},
        },
        None => {},
    }
}

/// Reports, for a tree of mappings walked in preorder, the sources that name
/// a column which their table does not have.
pub fn validate_dbml_columns(
    mappings: &Vec<ResponseMapping>,
    dbml_tables: &Vec<DbmlTable>,
    errors: &mut Vec<ValidationError>,
)
    ensures
        diagnostics(final(errors)@) == diagnostics(old(errors)@) + column_diagnostics(
            preorder(mappings@),
            tables(dbml_tables@),
        ),
    decreases mappings,
{
    let ghost known = tables(dbml_tables@);
    let ghost start = diagnostics(errors@);
    let mut i: usize = 0;
    proof {
        assert(mappings@.take(0) =~= Seq::<ResponseMapping>::empty());
        assert(start + Seq::<Diagnostic>::empty() =~= start);
    }
    while i < mappings.len()
        invariant
            i <= mappings.len(),
            known == tables(dbml_tables@),
            diagnostics(errors@) == start + column_diagnostics(
                preorder(mappings@.take(i as int)),
                known,
            ),
        decreases mappings.len() - i,
    {
        let mapping = &mappings[i];
        let ghost done = preorder(mappings@.take(i as int));
        let ghost under = below(*mapping);
        let ghost before = diagnostics(errors@);
        check_source(mapping, dbml_tables, errors);
        let ghost at_node = diagnostics(errors@);
        match &mapping.fields {
            Some(sub_fields) => {
                validate_dbml_columns(sub_fields, dbml_tables, errors);
            },
            None => {
                proof {
                    assert(at_node + Seq::<Diagnostic>::empty() =~= at_node);
                }
            },
        }
        proof {
            let one = seq![*mapping];
            let none = Seq::<ResponseMapping>::empty();
            assert(mappings@.take(i + 1).drop_last() =~= mappings@.take(i as int));
            assert(mappings@.take(i + 1).last() == *mapping);
            assert(preorder_of(*mapping) == one + under);
            assert(preorder(mappings@.take(i + 1)) == done + (one + under));
            assert(one.drop_last() =~= none);
            assert(column_diagnostics(none, known) =~= Seq::<Diagnostic>::empty());
            assert(column_diagnostics(one, known) =~= source_diagnostics(*mapping, known));
            lemma_column_diagnostics_concat(one, under, known);
            lemma_column_diagnostics_concat(done, one + under, known);
            assert(diagnostics(errors@) =~= start + (column_diagnostics(done, known) + (
            column_diagnostics(one, known) + column_diagnostics(under, known))));
        }
        i += 1;
    }
    proof {
        assert(mappings@.take(mappings.len() as int) =~= mappings@);
    }
}

/// One finding for each of the conditions that tests a parameter which is not
/// among `parameters`.
pub open spec fn param_diagnostics(
    target: Seq<char>,
    conditions: Seq<TransformCondition>,
    parameters: Set<Seq<char>>,
) -> Seq<Diagnostic>
    decreases conditions.len(),
{
    if conditions.len() == 0 {
        Seq::empty()
    } else {
        let before = param_diagnostics(target, conditions.drop_last(), parameters);
        match conditions.last().param {
            Some(param) => if parameters.contains(param@) {
                before
            } else {
                before.push(unknown_param(target, param@))
            },
            None => before,
        }
    }
}

/// The findings on the conditions of one transform.
pub open spec fn transform_param_diagnostics(transform: Transform, parameters: Set<Seq<char>>) -> Seq<
    Diagnostic,
> {
    match transform.condition {
        Some(conditions) => param_diagnostics(transform.target@, conditions@, parameters),
        None => Seq::empty(),
    }
}

/// The findings on the conditions of the given transforms, one transform
/// after the other.
pub open spec fn transforms_param_diagnostics(
    transforms: Seq<Transform>,
    parameters: Set<Seq<char>>,
) -> Seq<Diagnostic>
    decreases transforms.len(),
{
    if transforms.len() == 0 {
        Seq::empty()
    } else {
        transforms_param_diagnostics(transforms.drop_last(), parameters)
            + transform_param_diagnostics(transforms.last(), parameters)
    }
}

/// Reports the conditions that test a parameter which the operation does not
/// have.
pub fn check_params(
    target: &str,
    conditions: &Vec<TransformCondition>,
    openapi: &OpenapiResponse,
    errors: &mut Vec<ValidationError>,
)
    ensures
        diagnostics(final(errors)@) == diagnostics(old(errors)@) + param_diagnostics(
            target@,
            conditions@,
            openapi@.parameters,
        ),
{
    let ghost parameters = openapi@.parameters;
    let ghost start = diagnostics(errors@);
    let mut i: usize = 0;
    proof {
        assert(start + Seq::<Diagnostic>::empty() =~= start);
    }
    while i < conditions.len()
        invariant
            i <= conditions.len(),
            parameters == openapi@.parameters,
            diagnostics(errors@) == start + param_diagnostics(
                target@,
                conditions@.take(i as int),
                parameters,
            ),
        decreases conditions.len() - i,
    {
        let ghost before = param_diagnostics(target@, conditions@.take(i as int), parameters);
        proof {
            assert(conditions@.take(i + 1).drop_last() =~= conditions@.take(i as int));
            assert(conditions@.take(i + 1).last() == conditions@[i as int]);
        }
        match &conditions[i].param {
            Some(param) => {
                if !contains_text(&openapi.parameters, param.as_str()) {
                    let error = unknown_param_error(target, param.as_str());
                    report(errors, error);
                    proof {
                        assert((start + before).push(error@) =~= start + before.push(error@));
                    }
                }
            },
            None => {},
        }
        i += 1;
    }
    proof {
        assert(conditions@.take(conditions.len() as int) =~= conditions@);
    }
}

/// Reports, for each transform, the conditions that test a parameter which
/// the operation does not have.
pub fn validate_transform_params(
    transforms: &Vec<Transform>,
    openapi: &OpenapiResponse,
    errors: &mut Vec<ValidationError>,
)
    ensures
        diagnostics(final(errors)@) == diagnostics(old(errors)@) + transforms_param_diagnostics(
            transforms@,
            openapi@.parameters,
        ),
{
    let ghost parameters = openapi@.parameters;
    let ghost start = diagnostics(errors@);
    let mut i: usize = 0;
    proof {
        assert(start + Seq::<Diagnostic>::empty() =~= start);
    }
    while i < transforms.len()
        invariant
            i <= transforms.len(),
            parameters == openapi@.parameters,
            diagnostics(errors@) == start + transforms_param_diagnostics(
                transforms@.take(i as int),
                parameters,
            ),
        decreases transforms.len() - i,
    {
        let transform = &transforms[i];
        let ghost before = transforms_param_diagnostics(transforms@.take(i as int), parameters);
        proof {
            assert(transforms@.take(i + 1).drop_last() =~= transforms@.take(i as int));
            assert(transforms@.take(i + 1).last() == *transform);
            assert(start + before + Seq::<Diagnostic>::empty() =~= start + before);
        }
        match &transform.condition {
            Some(conditions) => {
                check_params(transform.target.as_str(), conditions, openapi, errors);
            },
            None => {},
        }
        proof {
            assert(diagnostics(errors@) =~= start + (before + transform_param_diagnostics(
                *transform,
                parameters,
            )));
        }
        i += 1;
    }
    proof {
        assert(transforms@.take(transforms.len() as int) =~= transforms@);
    }
}

} // verus!
