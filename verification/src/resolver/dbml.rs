//! References to the tables of a DBML file, and the tables of a DBML text.
use crate::resolver::{tables, DbmlTable, FileRead, ResolverError, ResolverFailure, TableFacts};
use crate::text::{
    contains_char, first_at, lemma_split_at_first, lemma_with_new_concat, lemma_with_new_holds,
    lemma_without_prefix, lemma_without_suffix, occurs_at, push_new, split_at_first, split_once,
    strip_prefix, strip_suffix, texts, with_new, without_prefix, without_suffix,
};
use vstd::prelude::*;

verus! {

/// The file and the table that a reference of the form
/// `<path>#tables["<name>"]` names: the path ends at the first `#`, and the
/// name holds no `"`, for which the form knows no escape.
pub open spec fn dbml_ref_parts(reference: Seq<char>) -> Option<(Seq<char>, Seq<char>)> {
    match split_at_first(reference, "#"@) {
        Some((path, fragment)) => match without_prefix(fragment, "tables[\""@) {
            Some(rest) => match without_suffix(rest, "\"]"@) {
                Some(name) => if name.contains('"') {
                    None
                } else {
                    Some((path, name))
                },
                None => None,
            },
            None => None,
        },
        None => None,
    }
}

/// Reads a reference to a table of a DBML file. Any text of another form gives
/// `None`: one without a `#`, one whose fragment is not `tables["<name>"]`,
/// and one with a `"` in the name.
pub fn parse_dbml_ref(reference: &str) -> (r: Option<(&str, &str)>)
    ensures
        match r {
            Some((path, table)) => dbml_ref_parts(reference@) == Some((path@, table@)),
            None => dbml_ref_parts(reference@) is None,
        },
{
    match split_once(reference, "#") {
        Some((path, fragment)) => match strip_prefix(fragment, "tables[\"") {
            Some(rest) => match strip_suffix(rest, "\"]") {
                Some(name) => if contains_char(name, '"') {
                    None
                } else {
                    Some((path, name))
                },
                None => None,
            },
            None => None,
        },
        None => None,
    }
}

/// What the DBML grammar of `dbml_rs` makes of a text: the tables that it
/// declares, in their order, each with the names of its columns as declared,
/// or the report of the place where the text breaks the grammar.
pub uninterp spec fn dbml_syntax(content: Seq<char>) -> Result<Seq<TableFacts>, Seq<char>>;

/// Calls `dbml_rs::parse_dbml_unchecked`, which parses the text by the DBML
/// grammar and checks nothing beyond it. (`dbml_rs::parse_dbml` goes on to
/// analyse the schema, and that step panics on some schemas that the grammar
/// accepts, such as a `varchar` column without a length that has a string
/// as its default.) Taken on trust: the tables and the columns come in the
/// order of their declaration, a failure is reported by the debug text of the
/// parser's error, and both depend on the text alone.
#[verifier::external_body]
fn parse_tables(content: &str) -> (r: Result<Vec<DbmlTable>, String>)
    ensures
        match r {
            Ok(parsed) => dbml_syntax(content@) == Ok::<Seq<TableFacts>, Seq<char>>(
                tables(parsed@),
            ),
            Err(detail) => dbml_syntax(content@) == Err::<Seq<TableFacts>, Seq<char>>(detail@),
        },
{
    match dbml_rs::parse_dbml_unchecked(content) {
        Ok(ast) => Ok(
            ast.tables().into_iter().map(
                |t| DbmlTable {
                    name: t.ident.name.to_string.clone(),
                    columns: t.cols.iter().map(|c| c.name.to_string.clone()).collect(),
                },
            ).collect(),
        ),
        Err(e) => Err(format!("{:?}", e)),
    }
}

/// A table whose columns are named once each, in the order in which they
/// first come.
pub open spec fn without_repeats(table: TableFacts) -> TableFacts {
    TableFacts { name: table.name, columns: with_new(Seq::empty(), table.columns) }
}

/// The given tables, each without repeated columns.
pub open spec fn projected(parsed: Seq<TableFacts>) -> Seq<TableFacts> {
    parsed.map_values(|t: TableFacts| without_repeats(t))
}

/// The tables of a schema as the rules use them: one for each parsed table,
/// in the same order and under the same name, with each column named once.
pub fn project_tables(parsed: &Vec<DbmlTable>) -> (out: Vec<DbmlTable>)
    ensures
        tables(out@) == projected(tables(parsed@)),
{
    let mut out: Vec<DbmlTable> = Vec::new();
    let mut i: usize = 0;
    while i < parsed.len()
        invariant
            i <= parsed.len(),
            tables(out@) == projected(tables(parsed@).take(i as int)),
        decreases parsed.len() - i,
    {
        let table = &parsed[i];
        let mut columns: Vec<String> = Vec::new();
        let mut k: usize = 0;
        proof {
            assert(texts(columns@) =~= with_new(Seq::empty(), texts(table.columns@).take(0)));
        }
        while k < table.columns.len()
            invariant
                k <= table.columns.len(),
                texts(columns@) == with_new(Seq::empty(), texts(table.columns@).take(k as int)),
            decreases table.columns.len() - k,
        {
            push_new(&mut columns, table.columns[k].as_str());
            proof {
                let seen = texts(table.columns@).take(k as int);
                let one = seq![table.columns@[k as int]@];
                lemma_with_new_concat(Seq::empty(), seen, one);
                assert(seen + one =~= texts(table.columns@).take(k + 1));
            }
            k += 1;
        }
        let entry = DbmlTable { name: table.name.clone(), columns };
        proof {
            assert(texts(table.columns@).take(table.columns.len() as int) =~= texts(
                table.columns@,
            ));
            assert(entry@ == without_repeats(table@));
            assert(tables(out@.push(entry)) =~= tables(out@).push(entry@));
            assert(tables(parsed@).take(i + 1) =~= tables(parsed@).take(i as int).push(table@));
            assert(projected(tables(parsed@).take(i as int).push(table@)) =~= projected(
                tables(parsed@).take(i as int),
            ).push(without_repeats(table@)));
        }
        out.push(entry);
        i += 1;
    }
    proof {
        assert(tables(parsed@).take(parsed.len() as int) =~= tables(parsed@));
    }
    out
}

/// What a DBML text gives, from what the grammar makes of it: its tables
/// without repeated columns, or a parse error that names the source.
pub open spec fn dbml_outcome(syntax: Result<Seq<TableFacts>, Seq<char>>, source: Seq<char>) -> Result<
    Seq<TableFacts>,
    ResolverFailure,
> {
    match syntax {
        Ok(parsed) => Ok(projected(parsed)),
        Err(detail) => Err(ResolverFailure::DbmlParseError(source, detail)),
    }
}

/// The outcome of a resolution of tables, as contracts see it.
pub open spec fn tables_outcome(r: Result<Vec<DbmlTable>, ResolverError>) -> Result<
    Seq<TableFacts>,
    ResolverFailure,
> {
    match r {
        Ok(list) => Ok(tables(list@)),
        Err(e) => Err(e@),
    }
}

/// The tables that a DBML text declares, with the names of their columns.
/// `source` names the text in the error that a text outside the grammar
/// gives.
pub fn parse_dbml_content(content: &str, source: &str) -> (r: Result<Vec<DbmlTable>, ResolverError>)
    ensures
        tables_outcome(r) == dbml_outcome(dbml_syntax(content@), source@),
{
    match parse_tables(content) {
        Ok(parsed) => Ok(project_tables(&parsed)),
        Err(detail) => Err(ResolverError::DbmlParseError(String::from_str(source), detail)),
    }
}

/// What the read of a DBML file gives: what its text gives, or an I/O error
/// with the path and the cause.
pub open spec fn dbml_read_outcome(read: FileRead) -> Result<Seq<TableFacts>, ResolverFailure> {
    match read.content {
        Ok(text) => dbml_outcome(dbml_syntax(text@), read.path@),
        Err(cause) => Err(ResolverFailure::IoError(read.path@, cause@)),
    }
}

/// The tables of a DBML file, from what reading the file gave.
pub fn resolve_dbml(read: &FileRead) -> (r: Result<Vec<DbmlTable>, ResolverError>)
    ensures
        tables_outcome(r) == dbml_read_outcome(*read),
{
    match &read.content {
        Ok(text) => parse_dbml_content(text.as_str(), read.path.as_str()),
        Err(cause) => Err(ResolverError::IoError(read.path.clone(), cause.clone())),
    }
}

/// The tables that a parsed schema gives are as many as the parsed ones, in
/// the same order and under the same names; each names its columns once, in
/// the order in which the parsed table first names them, and names the
/// columns that the parsed table names.
pub proof fn law_columns_named_once(parsed: Seq<TableFacts>, i: int)
    requires
        0 <= i < parsed.len(),
    ensures
        projected(parsed).len() == parsed.len(),
        projected(parsed)[i].name == parsed[i].name,
        projected(parsed)[i].columns.no_duplicates(),
        forall|c: Seq<char>| #[trigger]
            projected(parsed)[i].columns.contains(c) <==> parsed[i].columns.contains(c),
{
    let none = Seq::<Seq<char>>::empty();
    lemma_with_new_holds(none, parsed[i].columns);
    assert(none.no_duplicates());
    assert forall|c: Seq<char>| #[trigger]
        projected(parsed)[i].columns.contains(c) <==> parsed[i].columns.contains(c) by {
        assert(!none.contains(c));
    }
}

/// A text names the file `path` and the table `name` exactly where it is
/// `<path>#tables["<name>"]`, `path` holds no `#` and `name` holds no `"`.
pub proof fn law_dbml_ref_form(reference: Seq<char>, path: Seq<char>, name: Seq<char>)
    ensures
        dbml_ref_parts(reference) == Some((path, name)) <==> (reference == path + "#"@
            + "tables[\""@ + name + "\"]"@ && !path.contains('#') && !name.contains('"')),
{
    reveal_strlit("#");
    let hash = "#"@;
    assert(hash =~= seq!['#']);
    let open = "tables[\""@;
    let close = "\"]"@;
    if dbml_ref_parts(reference) == Some((path, name)) {
        let parts = split_at_first(reference, hash).unwrap();
        let rest = without_prefix(parts.1, open).unwrap();
        lemma_split_at_first(reference, hash, path, parts.1);
        lemma_without_prefix(parts.1, open, rest);
        lemma_without_suffix(rest, close, name);
        assert(reference =~= path + hash + open + name + close);
        if path.contains('#') {
            let j = choose|j: int| 0 <= j < path.len() && path[j] == '#';
            assert(reference.subrange(j, j + 1) =~= hash);
            assert(occurs_at(reference, hash, j));
        }
    }
    if reference == path + hash + open + name + close && !path.contains('#') && !name.contains(
        '"',
    ) {
        let fragment = open + name + close;
        assert(reference =~= path + hash + fragment);
        assert(reference.subrange(path.len() as int, path.len() as int + 1) =~= hash);
        assert forall|j: int| 0 <= j < path.len() implies !occurs_at(reference, hash, j) by {
            if occurs_at(reference, hash, j) {
                assert(reference.subrange(j, j + 1)[0] == '#');
                assert(path[j] == '#');
            }
        }
        assert(first_at(reference, hash, path.len() as int));
        lemma_split_at_first(reference, hash, path, fragment);
        lemma_without_prefix(fragment, open, name + close);
        assert(fragment =~= open + (name + close));
        lemma_without_suffix(name + close, close, name);
    }
}

} // verus!
