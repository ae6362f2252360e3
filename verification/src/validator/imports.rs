//! The rule on imports: every table that the mapping uses is imported.
use crate::ast::{below, preorder, preorder_of, JoinChainEntry, ResponseMapping, UsmlDocument};
use crate::resolver::dbml::{dbml_ref_parts, parse_dbml_ref};
use crate::text::{
    contains_text, lemma_with_new_concat, push_new, split_at_first, split_once, texts, with_new,
};
use crate::validator::messages::{missing_import, missing_import_error};
use crate::validator::{diagnostics, report, Diagnostic, ValidationError};
use vstd::prelude::*;

verus! {

/// The tables that the given references name. A text that is no reference to
/// a table of a DBML file names none.
pub open spec fn named_tables(refs: Seq<Seq<char>>) -> Seq<Seq<char>>
    decreases refs.len(),
{
    if refs.len() == 0 {
        Seq::empty()
    } else {
        let before = named_tables(refs.drop_last());
        match dbml_ref_parts(refs.last()) {
            Some((_, table)) => before.push(table),
            None => before,
        }
    }
}

/// The tables that a document imports: those that its DBML references name.
pub open spec fn imported_tables(doc: UsmlDocument) -> Seq<Seq<char>> {
    match doc.import.dbml {
        Some(refs) => named_tables(texts(refs@)),
        None => Seq::empty(),
    }
}

/// The tables that a document imports, read off its DBML references. No file
/// is opened for this.
pub fn parse_imported_tables(doc: &UsmlDocument) -> (tables: Vec<String>)
    ensures
        texts(tables@) == imported_tables(*doc),
{
    let mut tables: Vec<String> = Vec::new();
    match &doc.import.dbml {
        Some(refs) => {
            let mut i: usize = 0;
            proof {
                assert(texts(tables@) =~= named_tables(texts(refs@).take(0)));
            }
            while i < refs.len()
                invariant
                    i <= refs.len(),
                    texts(tables@) == named_tables(texts(refs@).take(i as int)),
                decreases refs.len() - i,
            {
                proof {
                    assert(texts(refs@).take(i + 1).drop_last() =~= texts(refs@).take(i as int));
                    assert(texts(refs@).take(i + 1).last() == refs@[i as int]@);
                }
                match parse_dbml_ref(refs[i].as_str()) {
                    Some((_, table)) => {
                        let name = String::from_str(table);
                        proof {
                            assert(texts(tables@.push(name)) =~= texts(tables@).push(table@));
                        }
                        tables.push(name);
                    },
                    None => {},
                }
                i += 1;
            }
            proof {
                assert(texts(refs@).take(refs.len() as int) =~= texts(refs@));
            }
        },
        None => {
            proof {
                assert(texts(tables@) =~= Seq::<Seq<char>>::empty());
            }
        },
    }
    tables
}

/// The table of a source: what stands before its first dot, or all of it
/// where it has none.
pub open spec fn source_table(source: Seq<char>) -> Seq<char> {
    match split_at_first(source, "."@) {
        Some((table, _)) => table,
        None => source,
    }
}

/// The tables of the steps of a chain.
pub open spec fn chain_tables(chain: Seq<JoinChainEntry>) -> Seq<Seq<char>> {
    chain.map_values(|step: JoinChainEntry| step.table@)
}

/// The table that the source of a mapping names.
pub open spec fn source_mention(mapping: ResponseMapping) -> Seq<Seq<char>> {
    match mapping.source {
        Some(source) => seq![source_table(source@)],
        None => Seq::empty(),
    }
}

/// The table that the join of a mapping names.
pub open spec fn join_mention(mapping: ResponseMapping) -> Seq<Seq<char>> {
    match mapping.join {
        Some(join) => seq![join.table@],
        None => Seq::empty(),
    }
}

/// The tables that the chain of a mapping names.
pub open spec fn chain_mentions(mapping: ResponseMapping) -> Seq<Seq<char>> {
    match mapping.join_chain {
        Some(chain) => chain_tables(chain@),
        None => Seq::empty(),
    }
}

/// The tables that one mapping names: that of its source, that of its join,
/// and those of its chain.
pub open spec fn mentions(mapping: ResponseMapping) -> Seq<Seq<char>> {
    source_mention(mapping) + join_mention(mapping) + chain_mentions(mapping)
}

/// The tables that the given mappings name, in their order, with
/// repetitions.
pub open spec fn all_mentions(nodes: Seq<ResponseMapping>) -> Seq<Seq<char>>
    decreases nodes.len(),
{
    if nodes.len() == 0 {
        Seq::empty()
    } else {
        all_mentions(nodes.drop_last()) + mentions(nodes.last())
    }
}

/// The tables that a tree of mappings uses: each table that a mapping names,
/// once, in the order in which a walk in preorder first meets it.
pub open spec fn used_tables(mappings: Seq<ResponseMapping>) -> Seq<Seq<char>> {
    with_new(Seq::empty(), all_mentions(preorder(mappings)))
}

/// What two runs of mappings name is what the first names, followed by what
/// the second names.
pub proof fn lemma_all_mentions_concat(a: Seq<ResponseMapping>, b: Seq<ResponseMapping>)
    ensures
        all_mentions(a + b) == all_mentions(a) + all_mentions(b),
    decreases b.len(),
{
    if b.len() == 0 {
        assert(a + b =~= a);
        assert(all_mentions(a) + Seq::<Seq<char>>::empty() =~= all_mentions(a));
    } else {
        lemma_all_mentions_concat(a, b.drop_last());
        assert((a + b).drop_last() =~= a + b.drop_last());
        assert((a + b).last() == b.last());
        assert(all_mentions(a + b) =~= all_mentions(a) + (all_mentions(b.drop_last()) + mentions(
            b.last(),
        )));
    }
}

/// Adds the tables that one mapping names.
fn note_mentions(mapping: &ResponseMapping, tables: &mut Vec<String>)
    ensures
        texts(final(tables)@) == with_new(texts(old(tables)@), mentions(*mapping)),
{
    let ghost start = texts(tables@);
    match &mapping.source {
        Some(source) => {
            let table = match split_once(source.as_str(), ".") {
                Some((table, _)) => table,
                None => source.as_str(),
            };
            push_new(tables, table);
        },
        None => {},
    }
    let ghost m1 = source_mention(*mapping);
    assert(texts(tables@) == with_new(start, m1));
    match &mapping.join {
        Some(join) => {
            push_new(tables, join.table.as_str());
        },
        None => {},
    }
    let ghost m2 = join_mention(*mapping);
    proof {
        lemma_with_new_concat(start, m1, m2);
    }
    assert(texts(tables@) == with_new(start, m1 + m2));
    match &mapping.join_chain {
        Some(chain) => {
            let mut i: usize = 0;
            proof {
                assert(chain_tables(chain@).take(0) =~= Seq::<Seq<char>>::empty());
                assert(m1 + m2 + Seq::<Seq<char>>::empty() =~= m1 + m2);
            }
            while i < chain.len()
                invariant
                    i <= chain.len(),
                    texts(tables@) == with_new(start, m1 + m2 + chain_tables(chain@).take(i as int)),
                decreases chain.len() - i,
            {
                let ghost seen = chain_tables(chain@).take(i as int);
                push_new(tables, chain[i].table.as_str());
                proof {
                    let one = seq![chain@[i as int].table@];
                    lemma_with_new_concat(start, m1 + m2 + seen, one);
                    assert(m1 + m2 + seen + one =~= m1 + m2 + chain_tables(chain@).take(i + 1));
                }
                i += 1;
            }
            proof {
                assert(chain_tables(chain@).take(chain.len() as int) =~= chain_tables(chain@));
            }
        },
        None => {
            proof {
                assert(m1 + m2 + Seq::<Seq<char>>::empty() =~= m1 + m2);
            }
        },
    }
}

/// Adds the tables that a tree of mappings names, in the order of a walk.
fn collect_tables_into(mappings: &Vec<ResponseMapping>, tables: &mut Vec<String>)
    ensures
        texts(final(tables)@) == with_new(texts(old(tables)@), all_mentions(preorder(mappings@))),
    decreases mappings,
{
    let ghost start = texts(tables@);
    let mut i: usize = 0;
    proof {
        assert(mappings@.take(0) =~= Seq::<ResponseMapping>::empty());
    }
    while i < mappings.len()
        invariant
            i <= mappings.len(),
            texts(tables@) == with_new(start, all_mentions(preorder(mappings@.take(i as int)))),
        decreases mappings.len() - i,
    {
        let mapping = &mappings[i];
        let ghost done = preorder(mappings@.take(i as int));
        let ghost under = below(*mapping);
        note_mentions(mapping, tables);
        match &mapping.fields {
            Some(sub_fields) => {
                collect_tables_into(sub_fields, tables);
            },
            None => {},
        }
        proof {
            let one = seq![*mapping];
            let none = Seq::<ResponseMapping>::empty();
            assert(mappings@.take(i + 1).drop_last() =~= mappings@.take(i as int));
            assert(mappings@.take(i + 1).last() == *mapping);
            assert(preorder_of(*mapping) == one + under);
            assert(preorder(mappings@.take(i + 1)) == done + (one + under));
            assert(one.drop_last() =~= none);
            assert(all_mentions(none) =~= Seq::<Seq<char>>::empty());
            assert(all_mentions(one) =~= mentions(*mapping));
            lemma_all_mentions_concat(one, under);
            lemma_all_mentions_concat(done, one + under);
            lemma_with_new_concat(start, all_mentions(done), all_mentions(one + under));
            lemma_with_new_concat(
                with_new(start, all_mentions(done)),
                all_mentions(one),
                all_mentions(under),
            );
        }
        i += 1;
    }
    proof {
        assert(mappings@.take(mappings.len() as int) =~= mappings@);
    }
}

/// The tables that a tree of mappings uses, each once, in the order in which
/// a walk first meets them.
pub fn collect_used_tables(mappings: &Vec<ResponseMapping>) -> (tables: Vec<String>)
    ensures
        texts(tables@) == used_tables(mappings@),
{
    let mut tables: Vec<String> = Vec::new();
    proof {
        assert(texts(tables@) =~= Seq::<Seq<char>>::empty());
    }
    collect_tables_into(mappings, &mut tables);
    tables
}

/// One finding for each of the given tables that is not imported.
pub open spec fn missing_imports(used: Seq<Seq<char>>, imported: Seq<Seq<char>>) -> Seq<Diagnostic>
    decreases used.len(),
{
    if used.len() == 0 {
        Seq::empty()
    } else {
        let before = missing_imports(used.drop_last(), imported);
        if imported.contains(used.last()) {
            before
        } else {
            before.push(missing_import(used.last()))
        }
    }
}

/// The findings of the rule on imports: one for each table that the mapping
/// uses and the document does not import.
pub open spec fn import_diagnostics(doc: UsmlDocument) -> Seq<Diagnostic> {
    missing_imports(used_tables(doc.usecase.response_mapping@), imported_tables(doc))
}

/// Reports each table that the mapping uses and that is not among the
/// imported ones.
pub fn validate_imports(
    doc: &UsmlDocument,
    imported_tables: &Vec<String>,
    errors: &mut Vec<ValidationError>,
)
    ensures
        diagnostics(final(errors)@) == diagnostics(old(errors)@) + missing_imports(
            used_tables(doc.usecase.response_mapping@),
            texts(imported_tables@),
        ),
{
    let used = collect_used_tables(&doc.usecase.response_mapping);
    let ghost imported = texts(imported_tables@);
    let mut i: usize = 0;
    proof {
        assert(diagnostics(errors@) + Seq::<Diagnostic>::empty() =~= diagnostics(errors@));
    }
    while i < used.len()
        invariant
            i <= used.len(),
            imported == texts(imported_tables@),
            texts(used@) == used_tables(doc.usecase.response_mapping@),
            diagnostics(errors@) == diagnostics(old(errors)@) + missing_imports(
                texts(used@).take(i as int),
                imported,
            ),
        decreases used.len() - i,
    {
        let ghost before = missing_imports(texts(used@).take(i as int), imported);
        proof {
            assert(texts(used@).take(i + 1).drop_last() =~= texts(used@).take(i as int));
            assert(texts(used@).take(i + 1).last() == used@[i as int]@);
        }
        if !contains_text(imported_tables, used[i].as_str()) {
            let error = missing_import_error(used[i].as_str());
            report(errors, error);
            proof {
                assert((diagnostics(old(errors)@) + before).push(error@) =~= diagnostics(
                    old(errors)@,
                ) + before.push(error@));
            }
        }
        i += 1;
    }
    proof {
        assert(texts(used@).take(used.len() as int) =~= texts(used@));
    }
}

} // verus!
