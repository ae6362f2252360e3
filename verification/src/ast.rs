//! The mapping document: which fields of an API response come from which
//! columns, by which joins, under which filters and transforms.
use vstd::prelude::*;

verus! {

/// The root of a mapping document.
#[derive(Debug)]
pub struct UsmlDocument {
    pub version: String,
    pub import: Import,
    pub usecase: Usecase,
}

/// References to the schema files that the mapping speaks of.
#[derive(Debug)]
pub struct Import {
    /// A reference to one response of one operation of an OpenAPI file.
    pub openapi: Option<String>,
    /// References to tables of DBML files.
    pub dbml: Option<Vec<String>>,
}

/// One use case: the mapping of a response, with its filters and transforms.
#[derive(Debug)]
pub struct Usecase {
    pub name: String,
    pub summary: Option<String>,
    pub output: Option<String>,
    pub response_mapping: Vec<ResponseMapping>,
    pub filters: Vec<Filter>,
    pub transforms: Vec<Transform>,
}

/// How one field of the response is obtained. The mappings form a tree: an
/// array field holds the mappings of its elements' fields.
#[derive(Debug)]
pub struct ResponseMapping {
    pub field: String,
    /// The column that the field is read from, as `table.column`.
    pub source: Option<String>,
    /// `array` for a field that holds a list.
    pub kind: Option<String>,
    /// The table that the elements of an array field come from.
    pub source_table: Option<String>,
    pub join: Option<Join>,
    /// Further joins, from left to right; the last one reaches the source.
    pub join_chain: Option<Vec<JoinChainEntry>>,
    pub aggregate: Option<Aggregate>,
    /// The fields of the elements of an array field.
    pub fields: Option<Vec<ResponseMapping>>,
}

/// A join with a table.
#[derive(Debug)]
pub struct Join {
    pub table: String,
    /// The join condition, a free text that names columns as `table.column`.
    pub on: String,
    pub kind: Option<String>,
    pub alias: Option<String>,
}

/// One step of a chain of joins.
#[derive(Debug)]
pub struct JoinChainEntry {
    pub table: String,
    pub on: String,
}

/// A reduction of the joined rows to one value.
#[derive(Debug)]
pub struct Aggregate {
    pub kind: String,
    pub group_by: Option<String>,
}

/// How one request parameter enters the query.
#[derive(Debug)]
pub struct Filter {
    pub param: String,
    pub maps_to: String,
    /// The condition, a free text that names parameters as `:param`.
    pub condition: Option<String>,
    pub strategy: Option<String>,
    pub page_size: Option<u32>,
    pub limit_param: Option<String>,
    pub max_page_size: Option<u32>,
    pub cursor_field: Option<String>,
    pub default_column: Option<String>,
    pub default_direction: Option<String>,
    pub allowed_columns: Option<Vec<String>>,
    pub allowed_directions: Option<Vec<String>>,
}

/// A rule that reworks the value of one field of the response.
#[derive(Debug)]
pub struct Transform {
    pub target: String,
    pub kind: String,
    pub source: Option<String>,
    pub sources: Option<Vec<String>>,
    pub fallback: Option<String>,
    pub separator: Option<String>,
    pub when: Option<Vec<CaseWhen>>,
    pub else_value: Option<String>,
    pub mask_pattern: Option<String>,
    pub condition: Option<Vec<TransformCondition>>,
    pub then_source: Option<String>,
    pub else_source: Option<String>,
}

/// One branch of a case transform.
#[derive(Debug)]
pub struct CaseWhen {
    pub value: String,
    pub then: String,
}

/// One condition under which a transform applies. It tests a request
/// parameter, a field of the response or a column.
#[derive(Debug)]
pub struct TransformCondition {
    pub param: Option<String>,
    pub field: Option<String>,
    pub source: Option<String>,
    pub operator: String,
    pub value: String,
}

/// The mappings of a tree in the order in which a walk meets them: each one
/// before the mappings of its elements' fields, and those before its next
/// sibling.
pub open spec fn preorder(mappings: Seq<ResponseMapping>) -> Seq<ResponseMapping>
    decreases mappings,
{
    if mappings.len() == 0 {
        Seq::empty()
    } else {
        preorder(mappings.drop_last()) + preorder_of(mappings.last())
    }
}

/// A mapping, followed by the mappings below it in the order of a walk.
pub open spec fn preorder_of(mapping: ResponseMapping) -> Seq<ResponseMapping>
    decreases mapping,
{
    seq![mapping] + match mapping.fields {
        Some(below) => preorder(below@),
        None => Seq::empty(),
    }
}

/// The mappings below a mapping, in the order of a walk.
pub open spec fn below(mapping: ResponseMapping) -> Seq<ResponseMapping> {
    match mapping.fields {
        Some(fields) => preorder(fields@),
        None => Seq::empty(),
    }
}

} // verus!
