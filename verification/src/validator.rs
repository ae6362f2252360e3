//! The rules that a mapping document has to meet, and the findings that
//! report where it does not.
use crate::ast::{preorder, UsmlDocument};
use crate::resolver::{tables, DbmlTable, FileRead, OpenapiResponse, ResponseFacts, TableFacts};
use crate::validator::filters::{filter_diagnostics, validate_filters};
use crate::validator::imports::{
    import_diagnostics, imported_tables, parse_imported_tables, validate_imports,
};
use crate::validator::mapping::{mapping_diagnostics, validate_response_mapping};
use crate::validator::resolve::{files_to_read, resolution, resolve_imports};
use crate::validator::schema::{
    column_diagnostics, field_diagnostics, transforms_param_diagnostics, validate_dbml_columns,
    validate_openapi_fields, validate_transform_params,
};
use crate::validator::transforms::{check_transforms, transform_diagnostics, validate_transforms};
use vstd::prelude::*;

pub mod filters;
pub mod imports;
pub mod laws;
pub mod mapping;
pub mod messages;
pub mod resolve;
pub mod schema;
pub mod transforms;

verus! {

/// The schema facts that the references of a document resolved to.
pub struct ResolveContext {
    pub openapi: Option<OpenapiResponse>,
    pub dbml_tables: Vec<DbmlTable>,
}

/// A `ResolveContext` as contracts see it.
pub struct ResolvedSchema {
    pub openapi: Option<ResponseFacts>,
    pub dbml_tables: Seq<TableFacts>,
}

impl View for ResolveContext {
    type V = ResolvedSchema;

    open spec fn view(&self) -> ResolvedSchema {
        ResolvedSchema {
            openapi: match self.openapi {
                Some(response) => Some(response@),
                None => None,
            },
            dbml_tables: tables(self.dbml_tables@),
        }
    }
}

/// One finding: the rule that found it, and what it says. A `Rule` finding
/// blocks, a `Warning` informs.
#[derive(Debug, PartialEq)]
pub enum ValidationError {
    Rule(String, String),
    Warning(String, String),
}

/// A finding as contracts see it: the rule's name and the message.
pub enum Diagnostic {
    Rule(Seq<char>, Seq<char>),
    Warning(Seq<char>, Seq<char>),
}

impl Diagnostic {
    /// The name of the rule that made the finding.
    pub open spec fn rule(self) -> Seq<char> {
        match self {
            Diagnostic::Rule(rule, _) => rule,
            Diagnostic::Warning(rule, _) => rule,
        }
    }

    /// What the finding says.
    pub open spec fn message(self) -> Seq<char> {
        match self {
            Diagnostic::Rule(_, message) => message,
            Diagnostic::Warning(_, message) => message,
        }
    }
}

impl View for ValidationError {
    type V = Diagnostic;

    open spec fn view(&self) -> Diagnostic {
        match self {
            ValidationError::Rule(rule, message) => Diagnostic::Rule(rule@, message@),
            ValidationError::Warning(rule, message) => Diagnostic::Warning(rule@, message@),
        }
    }
}

/// The findings of a list, as contracts see them.
pub open spec fn diagnostics(errors: Seq<ValidationError>) -> Seq<Diagnostic> {
    errors.map_values(|e: ValidationError| e@)
}

/// Adds one finding at the end of the list.
pub fn report(errors: &mut Vec<ValidationError>, error: ValidationError)
    ensures
        diagnostics(final(errors)@) == diagnostics(old(errors)@).push(error@),
{
    errors.push(error);
    proof {
        assert(diagnostics(errors@) =~= diagnostics(old(errors)@).push(error@));
    }
}

/// The findings of the rules that need no schema, in the order of the rules:
/// imports, mappings, filters, transforms. `params_known` says whether the
/// parameters of the operation are known; where they are, the conditions of
/// transforms that test a parameter raise no warning here.
pub open spec fn self_contained(doc: UsmlDocument, params_known: bool) -> Seq<Diagnostic> {
    import_diagnostics(doc) + mapping_diagnostics(
        doc.usecase.response_mapping@,
        imported_tables(doc),
    ) + filter_diagnostics(doc) + transform_diagnostics(doc, params_known)
}

/// The findings on a document of which no schema is known.
pub open spec fn validation(doc: UsmlDocument) -> Seq<Diagnostic> {
    self_contained(doc, false)
}

/// The findings of the rules that need the schemas: the fields of the
/// response where the response is known, the columns of the known tables, and
/// the parameters of the operation where it is known.
pub open spec fn schema_diagnostics(doc: UsmlDocument, schema: ResolvedSchema) -> Seq<Diagnostic> {
    (match schema.openapi {
        Some(response) => field_diagnostics(doc.usecase.response_mapping@, response.fields),
        None => Seq::empty(),
    }) + column_diagnostics(preorder(doc.usecase.response_mapping@), schema.dbml_tables) + (
    match schema.openapi {
        Some(response) => transforms_param_diagnostics(
            doc.usecase.transforms@,
            response.parameters,
        ),
        None => Seq::empty(),
    })
}

/// The findings on a document with the schemas that its references resolved
/// to: those of the rules that need no schema, the warnings of the
/// resolution, and those of the rules that need the schemas.
pub open spec fn validation_with(
    doc: UsmlDocument,
    schema: ResolvedSchema,
    warnings: Seq<Diagnostic>,
) -> Seq<Diagnostic> {
    self_contained(doc, schema.openapi is Some) + warnings + schema_diagnostics(doc, schema)
}

/// The findings on a document, given what reading the files of its
/// references gave.
pub open spec fn resolved_validation(doc: UsmlDocument, reads: Seq<FileRead>) -> Seq<Diagnostic> {
    let resolved = resolution(doc, reads);
    validation_with(doc, resolved.0, resolved.1)
}

/// Runs the rules that need no schema.
fn check_document(doc: &UsmlDocument, params_known: bool) -> (errors: Vec<ValidationError>)
    ensures
        diagnostics(errors@) == self_contained(*doc, params_known),
{
    let mut errors: Vec<ValidationError> = Vec::new();
    let imported = parse_imported_tables(doc);
    proof {
        assert(diagnostics(errors@) =~= Seq::<Diagnostic>::empty());
        assert(Seq::<Diagnostic>::empty() + import_diagnostics(*doc) =~= import_diagnostics(*doc));
    }
    validate_imports(doc, &imported, &mut errors);
    validate_response_mapping(&doc.usecase.response_mapping, &imported, &mut errors);
    validate_filters(doc, &mut errors);
    if params_known {
        check_transforms(doc, true, &mut errors);
    } else {
        validate_transforms(doc, &mut errors);
    }
    errors
}

/// Checks a document against the rules that need nothing but the document,
/// and returns every finding, in the order of the rules: imports, mappings,
/// filters, transforms. An empty list says that the document meets them all.
pub fn validate(doc: &UsmlDocument) -> (errors: Vec<ValidationError>)
    ensures
        diagnostics(errors@) == validation(*doc),
{
    check_document(doc, false)
}

/// Runs the rules that need the schemas, on the schemas that were resolved.
pub fn validate_schema(doc: &UsmlDocument, ctx: &ResolveContext, errors: &mut Vec<ValidationError>)
    ensures
        diagnostics(final(errors)@) == diagnostics(old(errors)@) + schema_diagnostics(*doc, ctx@),
{
    let ghost start = diagnostics(errors@);
    proof {
        assert(start + Seq::<Diagnostic>::empty() =~= start);
    }
    match &ctx.openapi {
        Some(openapi) => {
            validate_openapi_fields(&doc.usecase.response_mapping, openapi, errors);
        },
        None => {},
    }
    let ghost after_fields = diagnostics(errors@);
    validate_dbml_columns(&doc.usecase.response_mapping, &ctx.dbml_tables, errors);
    let ghost after_columns = diagnostics(errors@);
    proof {
        assert(after_columns + Seq::<Diagnostic>::empty() =~= after_columns);
    }
    match &ctx.openapi {
        Some(openapi) => {
            validate_transform_params(&doc.usecase.transforms, openapi, errors);
        },
        None => {},
    }
    proof {
        let columns = column_diagnostics(
            preorder(doc.usecase.response_mapping@),
            ctx@.dbml_tables,
        );
        if ctx@.openapi is Some {
            let response = ctx@.openapi.unwrap();
            let fields = field_diagnostics(doc.usecase.response_mapping@, response.fields);
            let params = transforms_param_diagnostics(
                doc.usecase.transforms@,
                response.parameters,
            );
            assert(diagnostics(errors@) =~= start + (fields + columns + params));
        } else {
            let none = Seq::<Diagnostic>::empty();
            assert(diagnostics(errors@) =~= start + (none + columns + none));
        }
    }
}

/// Checks a document against all rules, given the schemas that its references
/// resolved to and the warnings that the resolution left.
pub fn validate_with_context(
    doc: &UsmlDocument,
    ctx: &ResolveContext,
    resolve_errors: Vec<ValidationError>,
) -> (errors: Vec<ValidationError>)
    ensures
        diagnostics(errors@) == validation_with(*doc, ctx@, diagnostics(resolve_errors@)),
{
    let mut errors = check_document(doc, ctx.openapi.is_some());
    let mut warnings = resolve_errors;
    let ghost first = diagnostics(errors@);
    errors.append(&mut warnings);
    proof {
        assert(diagnostics(errors@) =~= first + diagnostics(resolve_errors@));
    }
    validate_schema(doc, ctx, &mut errors);
    errors
}

/// Checks a document against all rules. `reads` holds what reading the files
/// of the document's references gave, one entry for each file that
/// `import_files` names, in that order. A reference that cannot be resolved
/// leaves a warning, and the rules that need its schema are skipped.
pub fn validate_with_resolve(doc: &UsmlDocument, reads: &Vec<FileRead>) -> (errors: Vec<
    ValidationError,
>)
    requires
        reads@.len() == files_to_read(*doc).len(),
    ensures
        diagnostics(errors@) == resolved_validation(*doc, reads@),
{
    let (ctx, resolve_errors) = resolve_imports(doc, reads);
    validate_with_context(doc, &ctx, resolve_errors)
}

} // verus!
