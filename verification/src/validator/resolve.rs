//! The resolution of the references of a document: which files to read, and
//! what their contents give.
use crate::ast::UsmlDocument;
use crate::resolver::dbml::{dbml_read_outcome, dbml_ref_parts, parse_dbml_ref, resolve_dbml, tables_outcome};
use crate::resolver::openapi::{
    openapi_read_outcome, openapi_ref_parts, parse_openapi_ref, resolve_openapi, response_outcome,
};
use crate::resolver::{tables, DbmlTable, FileRead, ResponseFacts, TableFacts};
use crate::text::{copy_texts, texts};
use crate::validator::messages::{
    dbml_unresolved, dbml_unresolved_warning, openapi_unresolved, openapi_unresolved_warning,
};
use crate::validator::schema::{columns_of, find_table};
use crate::validator::{diagnostics, report, Diagnostic, ResolveContext, ResolvedSchema, ValidationError};
use vstd::prelude::*;

verus! {

/// The file, the API path, the method and the status that the OpenAPI
/// reference of a document names, where it has one of the right form.
pub open spec fn openapi_target(doc: UsmlDocument) -> Option<
    (Seq<char>, Seq<char>, Seq<char>, Seq<char>),
> {
    match doc.import.openapi {
        Some(reference) => openapi_ref_parts(reference@),
        None => None,
    }
}

/// The files that the given DBML references name, one for each reference of
/// the right form, in their order.
pub open spec fn dbml_files(refs: Seq<Seq<char>>) -> Seq<Seq<char>>
    decreases refs.len(),
{
    if refs.len() == 0 {
        Seq::empty()
    } else {
        let before = dbml_files(refs.drop_last());
        match dbml_ref_parts(refs.last()) {
            Some((file, _)) => before.push(file),
            None => before,
        }
    }
}

/// The file of the OpenAPI reference of a document.
pub open spec fn openapi_file(doc: UsmlDocument) -> Seq<Seq<char>> {
    match openapi_target(doc) {
        Some(target) => seq![target.0],
        None => Seq::empty(),
    }
}

/// The files that the resolution of a document reads: that of its OpenAPI
/// reference, then those of its DBML references. A reference of another
/// form names none.
pub open spec fn files_to_read(doc: UsmlDocument) -> Seq<Seq<char>> {
    openapi_file(doc) + match doc.import.dbml {
        Some(refs) => dbml_files(texts(refs@)),
        None => Seq::empty(),
    }
}

/// The files that the resolution of a document reads, as its references
/// write them, in the order in which their contents are asked for.
pub fn import_files(doc: &UsmlDocument) -> (files: Vec<String>)
    ensures
        texts(files@) == files_to_read(*doc),
{
    let mut files: Vec<String> = Vec::new();
    proof {
        assert(texts(files@) =~= Seq::<Seq<char>>::empty());
    }
    match &doc.import.openapi {
        Some(reference) => match parse_openapi_ref(reference.as_str()) {
            Some((file, _, _, _)) => {
                let name = String::from_str(file);
                proof {
                    assert(texts(files@.push(name)) =~= seq![file@]);
                }
                files.push(name);
            },
            None => {},
        },
        None => {},
    }
    let ghost first = openapi_file(*doc);
    assert(texts(files@) == first);
    match &doc.import.dbml {
        Some(refs) => {
            let mut i: usize = 0;
            proof {
                assert(first + dbml_files(texts(refs@).take(0)) =~= first);
            }
            while i < refs.len()
                invariant
                    i <= refs.len(),
                    texts(files@) == first + dbml_files(texts(refs@).take(i as int)),
                decreases refs.len() - i,
            {
                let ghost before = dbml_files(texts(refs@).take(i as int));
                proof {
                    assert(texts(refs@).take(i + 1).drop_last() =~= texts(refs@).take(i as int));
                    assert(texts(refs@).take(i + 1).last() == refs@[i as int]@);
                }
                match parse_dbml_ref(refs[i].as_str()) {
                    Some((file, _)) => {
                        let name = String::from_str(file);
                        proof {
                            assert(texts(files@.push(name)) =~= texts(files@).push(file@));
                            assert((first + before).push(file@) =~= first + before.push(file@));
                        }
                        files.push(name);
                    },
                    None => {},
                }
                i += 1;
            }
            proof {
                assert(texts(refs@).take(refs.len() as int) =~= texts(refs@));
            }
        },
        None => {
            proof {
                assert(first + Seq::<Seq<char>>::empty() =~= first);
            }
        },
    }
    files
}

/// `known`, followed by the tables of `more` whose name is new: of two tables
/// of one name the first stays.
pub open spec fn merged(known: Seq<TableFacts>, more: Seq<TableFacts>) -> Seq<TableFacts>
    decreases more.len(),
{
    if more.len() == 0 {
        known
    } else {
        let before = merged(known, more.drop_last());
        if columns_of(before, more.last().name) is Some {
            before
        } else {
            before.push(more.last())
        }
    }
}

/// Adds the tables of `more` whose name is new.
pub fn merge_tables(known: &mut Vec<DbmlTable>, more: &Vec<DbmlTable>)
    ensures
        tables(final(known)@) == merged(tables(old(known)@), tables(more@)),
{
    let ghost start = tables(known@);
    let mut i: usize = 0;
    while i < more.len()
        invariant
            i <= more.len(),
            tables(known@) == merged(start, tables(more@).take(i as int)),
        decreases more.len() - i,
    {
        proof {
            assert(tables(more@).take(i + 1).drop_last() =~= tables(more@).take(i as int));
            assert(tables(more@).take(i + 1).last() == more@[i as int]@);
        }
        let table = &more[i];
        if find_table(known, table.name.as_str()).is_none() {
            let copy = DbmlTable { name: table.name.clone(), columns: copy_texts(&table.columns) };
            proof {
                assert(copy@ == table@);
                assert(tables(known@.push(copy)) =~= tables(known@).push(table@));
            }
            known.push(copy);
        }
        i += 1;
    }
    proof {
        assert(tables(more@).take(more.len() as int) =~= tables(more@));
    }
}

/// The tables and the warnings that the reads of the DBML files give, one
/// read after the other: the tables of a file join those known, a file that
/// cannot be resolved leaves a warning.
pub open spec fn dbml_resolution(reads: Seq<FileRead>) -> (Seq<TableFacts>, Seq<Diagnostic>)
    decreases reads.len(),
{
    if reads.len() == 0 {
        (Seq::empty(), Seq::empty())
    } else {
        let before = dbml_resolution(reads.drop_last());
        match dbml_read_outcome(reads.last()) {
            Ok(more) => (merged(before.0, more), before.1),
            Err(failure) => (before.0, before.1.push(dbml_unresolved(failure.message()))),
        }
    }
}

/// The response and the warning that the read of the OpenAPI file gives.
/// A document whose OpenAPI reference names no file gives neither.
pub open spec fn openapi_resolution(doc: UsmlDocument, reads: Seq<FileRead>) -> (
    Option<ResponseFacts>,
    Seq<Diagnostic>,
) {
    match openapi_target(doc) {
        Some(target) => match openapi_read_outcome(reads[0], target.1, target.2, target.3) {
            Ok(response) => (Some(response), Seq::empty()),
            Err(failure) => (None, seq![openapi_unresolved(failure.message())]),
        },
        None => (None, Seq::empty()),
    }
}

/// The reads that belong to the DBML references of a document: all but the
/// one of its OpenAPI reference.
pub open spec fn dbml_reads(doc: UsmlDocument, reads: Seq<FileRead>) -> Seq<FileRead> {
    if openapi_target(doc) is Some {
        reads.skip(1)
    } else {
        reads
    }
}

/// The schemas that the references of a document resolve to, and the
/// warnings that the resolution leaves, given what reading their files
/// gave.
pub open spec fn resolution(doc: UsmlDocument, reads: Seq<FileRead>) -> (
    ResolvedSchema,
    Seq<Diagnostic>,
) {
    let openapi = openapi_resolution(doc, reads);
    let dbml = dbml_resolution(dbml_reads(doc, reads));
    (ResolvedSchema { openapi: openapi.0, dbml_tables: dbml.0 }, openapi.1 + dbml.1)
}

/// Resolves the references of a document from what reading their files gave.
/// `reads` holds one entry for each file that `import_files` names, in that
/// order. A file that could not be read, or whose text gives no schema,
/// leaves a warning and no facts.
pub fn resolve_imports(doc: &UsmlDocument, reads: &Vec<FileRead>) -> (r: (
    ResolveContext,
    Vec<ValidationError>,
))
    requires
        reads@.len() == files_to_read(*doc).len(),
    ensures
        (r.0@, diagnostics(r.1@)) == resolution(*doc, reads@),
        r.0.openapi matches Some(response) ==> texts(response.fields@).no_duplicates(),
{
    let mut errors: Vec<ValidationError> = Vec::new();
    let mut ctx = ResolveContext { openapi: None, dbml_tables: Vec::new() };
    let mut next: usize = 0;
    proof {
        assert(diagnostics(errors@) =~= Seq::<Diagnostic>::empty());
        assert(tables(ctx.dbml_tables@) =~= Seq::<TableFacts>::empty());
    }
    match &doc.import.openapi {
        Some(reference) => match parse_openapi_ref(reference.as_str()) {
            Some((_, path, method, status)) => {
                match resolve_openapi(&reads[0], path, method, status) {
                    Ok(response) => {
                        ctx.openapi = Some(response);
                    },
                    Err(e) => {
                        let cause = e.message();
                        let warning = openapi_unresolved_warning(cause.as_str());
                        report(&mut errors, warning);
                        proof {
                            assert(diagnostics(errors@) =~= seq![warning@]);
                        }
                    },
                }
                next = 1;
            },
            None => {},
        },
        None => {},
    }
    let ghost first = openapi_resolution(*doc, reads@);
    let ghost rest = dbml_reads(*doc, reads@);
    assert(ctx@.openapi == first.0);
    assert(diagnostics(errors@) == first.1);
    assert(rest == reads@.skip(next as int));
    let mut i: usize = next;
    proof {
        assert(rest.take(0) =~= Seq::<FileRead>::empty());
        assert(first.1 + Seq::<Diagnostic>::empty() =~= first.1);
    }
    while i < reads.len()
        invariant
            next <= i <= reads.len(),
            rest == reads@.skip(next as int),
            ctx@.openapi == first.0,
            ctx.openapi matches Some(response) ==> texts(response.fields@).no_duplicates(),
            tables(ctx.dbml_tables@) == dbml_resolution(rest.take(i - next)).0,
            diagnostics(errors@) == first.1 + dbml_resolution(rest.take(i - next)).1,
        decreases reads.len() - i,
    {
        let ghost before = dbml_resolution(rest.take(i - next));
        proof {
            assert(rest.take(i - next + 1).drop_last() =~= rest.take(i - next));
            assert(rest.take(i - next + 1).last() == reads@[i as int]);
        }
        match resolve_dbml(&reads[i]) {
            Ok(more) => {
                merge_tables(&mut ctx.dbml_tables, &more);
            },
            Err(e) => {
                let cause = e.message();
                let warning = dbml_unresolved_warning(cause.as_str());
                report(&mut errors, warning);
                proof {
                    assert((first.1 + before.1).push(warning@) =~= first.1 + before.1.push(
                        warning@,
                    ));
                }
            },
        }
        i += 1;
    }
    proof {
        assert(rest.take(reads.len() - next) =~= rest);
    }
    (ctx, errors)
}

} // verus!
