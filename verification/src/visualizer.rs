//! What a page that shows the data flow of a mapping document has to show:
//! the fields with their joins and transforms, and the tables with the
//! columns that the fields read.
use crate::ast::{
    below, preorder, preorder_of, Join, JoinChainEntry, ResponseMapping, Transform, UsmlDocument,
};
use crate::resolver::{tables, DbmlTable, TableFacts};
use crate::text::{
    chars_of, copy_texts, lemma_push_contains, lemma_with_new_concat, lemma_with_new_holds,
    opt_text, push_new, same_text, slices,
    split_at_first, split_once, split_whitespace, text3, text5, texts, with_new, words,
};
use crate::validator::imports::{chain_mentions, chain_tables, join_mention, source_table};
use crate::validator::mapping::pairs;
use crate::validator::schema::columns_of;
use vstd::prelude::*;

pub mod page;

pub use crate::visualizer::page::generate_html;

verus! {

/// What stands for a character in HTML text: an entity for `&`, `<`, `>`, `"`
/// and `'`, and any other character itself.
pub open spec fn html_escaped_char(c: char) -> Seq<char> {
    if c == '&' {
        "&amp;"@
    } else if c == '<' {
        "&lt;"@
    } else if c == '>' {
        "&gt;"@
    } else if c == '"' {
        "&quot;"@
    } else if c == '\'' {
        "&#39;"@
    } else {
        seq![c]
    }
}

/// A text as it stands in HTML.
pub open spec fn html_escaped(s: Seq<char>) -> Seq<char>
    decreases s.len(),
{
    if s.len() == 0 {
        Seq::empty()
    } else {
        html_escaped(s.drop_last()) + html_escaped_char(s.last())
    }
}

/// A text as it stands in HTML.
pub fn escape_html(value: &str) -> (escaped: String)
    ensures
        escaped@ == html_escaped(value@),
{
    let cs = chars_of(value);
    let mut escaped = String::new();
    let mut i: usize = 0;
    proof {
        assert(value@.take(0) =~= Seq::<char>::empty());
    }
    while i < cs.len()
        invariant
            i <= cs.len(),
            cs@ == value@,
            escaped@ == html_escaped(value@.take(i as int)),
        decreases cs.len() - i,
    {
        let c = cs[i];
        proof {
            assert(value@.take(i + 1).drop_last() =~= value@.take(i as int));
            assert(value@.take(i + 1).last() == c);
        }
        if c == '&' {
            escaped.append("&amp;");
        } else if c == '<' {
            escaped.append("&lt;");
        } else if c == '>' {
            escaped.append("&gt;");
        } else if c == '"' {
            escaped.append("&quot;");
        } else if c == '\'' {
            escaped.append("&#39;");
        } else {
            let one = value.substring_char(i, i + 1);
            proof {
                assert(one@ =~= seq![c]);
            }
            escaped.append(one);
        }
        i += 1;
    }
    proof {
        assert(value@.take(cs.len() as int) =~= value@);
    }
    escaped
}

/// The class that indents a field of the given depth: none at the top, and
/// no deeper than the fourth level.
pub open spec fn depth_class_of(depth: nat) -> Seq<char> {
    if depth == 0 {
        ""@
    } else if depth == 1 {
        " depth-1"@
    } else if depth == 2 {
        " depth-2"@
    } else if depth == 3 {
        " depth-3"@
    } else {
        " depth-4"@
    }
}

/// The class that indents a field of the given depth.
pub fn depth_class(depth: usize) -> (class: String)
    ensures
        class@ == depth_class_of(depth as nat),
{
    if depth == 0 {
        String::from_str("")
    } else if depth == 1 {
        String::from_str(" depth-1")
    } else if depth == 2 {
        String::from_str(" depth-2")
    } else if depth == 3 {
        String::from_str(" depth-3")
    } else {
        String::from_str(" depth-4")
    }
}

/// The table that a text names by `#tables["<name>"]`: what stands between
/// the first `#tables["` and the first `"]` behind it.
pub open spec fn table_name(value: Seq<char>) -> Option<Seq<char>> {
    match split_at_first(value, "#tables[\""@) {
        Some((_, rest)) => match split_at_first(rest, "\"]"@) {
            Some((name, _)) => Some(name),
            None => None,
        },
        None => None,
    }
}

/// The table that a reference names by `#tables["<name>"]`.
pub fn extract_table_name(value: &str) -> (name: Option<String>)
    ensures
        opt_text(name) == table_name(value@),
{
    match split_once(value, "#tables[\"") {
        Some((_, rest)) => match split_once(rest, "\"]") {
            Some((name, _)) => Some(String::from_str(name)),
            None => None,
        },
        None => None,
    }
}

/// The table that a source names: what stands before the first dot of its
/// first word, where that is not empty.
pub open spec fn table_identifier(value: Seq<char>) -> Option<Seq<char>> {
    if words(value).len() == 0 {
        None
    } else {
        let table = source_table(words(value)[0]);
        if table.len() == 0 {
            None
        } else {
            Some(table)
        }
    }
}

/// The table that a source names.
pub fn extract_table_identifier(value: &str) -> (table: Option<String>)
    ensures
        opt_text(table) == table_identifier(value@),
{
    let tokens = split_whitespace(value);
    if tokens.len() == 0 {
        return None;
    }
    proof {
        assert(slices(tokens@)[0] == tokens@[0]@);
    }
    let table = match split_once(tokens[0], ".") {
        Some((table, _)) => table,
        None => tokens[0],
    };
    if table.is_empty() {
        None
    } else {
        Some(String::from_str(table))
    }
}

/// The tables that the given references name, with repetitions.
pub open spec fn table_names(refs: Seq<Seq<char>>) -> Seq<Seq<char>>
    decreases refs.len(),
{
    if refs.len() == 0 {
        Seq::empty()
    } else {
        let before = table_names(refs.drop_last());
        match table_name(refs.last()) {
            Some(name) => before.push(name),
            None => before,
        }
    }
}

/// The tables that the DBML references of a document name, each once, in the
/// order in which they first come.
pub open spec fn import_tables(doc: UsmlDocument) -> Seq<Seq<char>> {
    match doc.import.dbml {
        Some(refs) => with_new(Seq::empty(), table_names(texts(refs@))),
        None => Seq::empty(),
    }
}

/// The tables that the DBML references of a document name, each once.
pub fn extract_import_tables(doc: &UsmlDocument) -> (tables: Vec<String>)
    ensures
        texts(tables@) == import_tables(*doc),
{
    let mut tables: Vec<String> = Vec::new();
    proof {
        assert(texts(tables@) =~= Seq::<Seq<char>>::empty());
    }
    match &doc.import.dbml {
        Some(refs) => {
            let ghost none = Seq::<Seq<char>>::empty();
            let mut i: usize = 0;
            proof {
                assert(texts(refs@).take(0) =~= none);
            }
            while i < refs.len()
                invariant
                    i <= refs.len(),
                    none == Seq::<Seq<char>>::empty(),
                    texts(tables@) == with_new(none, table_names(texts(refs@).take(i as int))),
                decreases refs.len() - i,
            {
                let ghost before = table_names(texts(refs@).take(i as int));
                proof {
                    assert(texts(refs@).take(i + 1).drop_last() =~= texts(refs@).take(i as int));
                    assert(texts(refs@).take(i + 1).last() == refs@[i as int]@);
                }
                match extract_table_name(refs[i].as_str()) {
                    Some(name) => {
                        push_new(&mut tables, name.as_str());
                        proof {
                            lemma_with_new_concat(none, before, seq![name@]);
                            assert(before + seq![name@] =~= before.push(name@));
                        }
                    },
                    None => {},
                }
                i += 1;
            }
            proof {
                assert(texts(refs@).take(refs.len() as int) =~= texts(refs@));
            }
        },
        None => {},
    }
    tables
}

/// The kinds of the transforms that rework the given field, in their order.
pub open spec fn kinds_for(transforms: Seq<Transform>, field: Seq<char>) -> Seq<Seq<char>>
    decreases transforms.len(),
{
    if transforms.len() == 0 {
        Seq::empty()
    } else {
        let before = kinds_for(transforms.drop_last(), field);
        if transforms.last().target@ == field {
            before.push(transforms.last().kind@)
        } else {
            before
        }
    }
}

/// The kinds of the transforms that rework the given field, in their order.
pub fn transform_kinds(transforms: &Vec<Transform>, field: &str) -> (kinds: Vec<String>)
    ensures
        texts(kinds@) == kinds_for(transforms@, field@),
{
    let mut kinds: Vec<String> = Vec::new();
    let mut i: usize = 0;
    proof {
        assert(texts(kinds@) =~= kinds_for(transforms@.take(0), field@));
    }
    while i < transforms.len()
        invariant
            i <= transforms.len(),
            texts(kinds@) == kinds_for(transforms@.take(i as int), field@),
        decreases transforms.len() - i,
    {
        proof {
            assert(transforms@.take(i + 1).drop_last() =~= transforms@.take(i as int));
            assert(transforms@.take(i + 1).last() == transforms@[i as int]);
        }
        if same_text(transforms[i].target.as_str(), field) {
            let kind = transforms[i].kind.clone();
            proof {
                assert(texts(kinds@.push(kind)) =~= texts(kinds@).push(transforms@[i as int].kind@));
            }
            kinds.push(kind);
        }
        i += 1;
    }
    proof {
        assert(transforms@.take(transforms.len() as int) =~= transforms@);
    }
    kinds
}

/// What the page shows of one field of the response.
#[derive(Debug)]
pub struct FieldEntry {
    pub field: String,
    /// The names of the fields above it and its own, with dots between them.
    pub field_path: String,
    pub source: Option<String>,
    /// The kind of its aggregate, and `array` for an array field.
    pub badges: Vec<String>,
    /// Its join, and the steps of its chain of joins.
    pub join_lines: Vec<String>,
    /// The kinds of the transforms that rework it.
    pub transforms: Vec<String>,
    /// How many array fields stand above it.
    pub depth: usize,
    /// The tables that it names, each once.
    pub tables: Vec<String>,
    /// `aggregate`, `join-chain`, `join` or `simple`.
    pub join_type: String,
}

/// A `FieldEntry` as contracts see it.
pub struct EntryFacts {
    pub field: Seq<char>,
    pub field_path: Seq<char>,
    pub source: Option<Seq<char>>,
    pub badges: Seq<Seq<char>>,
    pub join_lines: Seq<Seq<char>>,
    pub transforms: Seq<Seq<char>>,
    pub depth: nat,
    pub tables: Seq<Seq<char>>,
    pub join_type: Seq<char>,
}

impl View for FieldEntry {
    type V = EntryFacts;

    open spec fn view(&self) -> EntryFacts {
        EntryFacts {
            field: self.field@,
            field_path: self.field_path@,
            source: opt_text(self.source),
            badges: texts(self.badges@),
            join_lines: texts(self.join_lines@),
            transforms: texts(self.transforms@),
            depth: self.depth as nat,
            tables: texts(self.tables@),
            join_type: self.join_type@,
        }
    }
}

/// The entries of a list, as contracts see them.
pub open spec fn entries(list: Seq<FieldEntry>) -> Seq<EntryFacts> {
    list.map_values(|e: FieldEntry| e@)
}

/// The badges of a field: the kind of its aggregate, then `array` for an
/// array field.
pub open spec fn badges_of(mapping: ResponseMapping) -> Seq<Seq<char>> {
    (match mapping.aggregate {
        Some(aggregate) => seq![aggregate.kind@],
        None => Seq::empty(),
    }) + (if opt_text(mapping.kind) == Some("array"@) {
        seq!["array"@]
    } else {
        Seq::empty()
    })
}

/// The line that shows a join: its kind, `JOIN` where it names none, the
/// table with its alias, and the condition.
pub open spec fn join_line(join: Join) -> Seq<char> {
    (match join.kind {
        Some(kind) => kind@,
        None => "JOIN"@,
    }) + " "@ + (match join.alias {
        Some(alias) => join.table@ + " AS "@ + alias@,
        None => join.table@,
    }) + " ON "@ + join.on@
}

/// The text that shows one step of a chain of joins.
pub open spec fn step_line(step: JoinChainEntry) -> Seq<char> {
    "JOIN "@ + step.table@ + " ON "@ + step.on@
}

/// The line that shows a chain of joins: its steps with arrows between
/// them.
pub open spec fn chain_line(chain: Seq<JoinChainEntry>) -> Seq<char>
    decreases chain.len(),
{
    if chain.len() == 0 {
        Seq::empty()
    } else if chain.len() == 1 {
        step_line(chain[0])
    } else {
        chain_line(chain.drop_last()) + " → "@ + step_line(chain.last())
    }
}

/// The lines that show the joins of a field: that of its join, then that of
/// its chain where the chain has a step.
pub open spec fn join_lines_of(mapping: ResponseMapping) -> Seq<Seq<char>> {
    (match mapping.join {
        Some(join) => seq![join_line(join)],
        None => Seq::empty(),
    }) + (match mapping.join_chain {
        Some(chain) => if chain@.len() > 0 {
            seq![chain_line(chain@)]
        } else {
            Seq::empty()
        },
        None => Seq::empty(),
    })
}

/// How a field gets its value: by an aggregate, else by a chain of joins,
/// else by a join, else from its source alone.
pub open spec fn join_type_of(mapping: ResponseMapping) -> Seq<char> {
    if mapping.aggregate is Some {
        "aggregate"@
    } else if mapping.join_chain is Some {
        "join-chain"@
    } else if mapping.join is Some {
        "join"@
    } else {
        "simple"@
    }
}

/// The table that the source of a field names.
pub open spec fn source_identifier(mapping: ResponseMapping) -> Seq<Seq<char>> {
    match mapping.source {
        Some(source) => match table_identifier(source@) {
            Some(table) => seq![table],
            None => Seq::empty(),
        },
        None => Seq::empty(),
    }
}

/// The tables that a field names, each once: that of its source, that of
/// its join, those of its chain.
pub open spec fn field_tables_of(mapping: ResponseMapping) -> Seq<Seq<char>> {
    with_new(
        Seq::empty(),
        source_identifier(mapping) + join_mention(mapping) + chain_mentions(mapping),
    )
}

/// The path of a field below the field with the path `parent`.
pub open spec fn path_of(parent: Seq<char>, field: Seq<char>) -> Seq<char> {
    if parent.len() == 0 {
        field
    } else {
        parent + "."@ + field
    }
}

/// What the page shows of one field at the given depth below the given
/// path.
pub open spec fn entry_of(
    mapping: ResponseMapping,
    depth: nat,
    parent: Seq<char>,
    transforms: Seq<Transform>,
) -> EntryFacts {
    EntryFacts {
        field: mapping.field@,
        field_path: path_of(parent, mapping.field@),
        source: opt_text(mapping.source),
        badges: badges_of(mapping),
        join_lines: join_lines_of(mapping),
        transforms: kinds_for(transforms, mapping.field@),
        depth: depth,
        tables: field_tables_of(mapping),
        join_type: join_type_of(mapping),
    }
}

/// The depth of the fields below a field of the given depth.
pub open spec fn deeper(depth: nat) -> nat {
    if depth < usize::MAX {
        depth + 1
    } else {
        depth
    }
}

/// The entries of a list of fields and of the fields below them, in the
/// order of a walk.
pub open spec fn entries_of(
    mappings: Seq<ResponseMapping>,
    depth: nat,
    parent: Seq<char>,
    transforms: Seq<Transform>,
) -> Seq<EntryFacts>
    decreases mappings,
{
    if mappings.len() == 0 {
        Seq::empty()
    } else {
        entries_of(mappings.drop_last(), depth, parent, transforms) + entries_under(
            mappings.last(),
            depth,
            parent,
            transforms,
        )
    }
}

/// The entry of a field, followed by the entries of the fields below it.
pub open spec fn entries_under(
    mapping: ResponseMapping,
    depth: nat,
    parent: Seq<char>,
    transforms: Seq<Transform>,
) -> Seq<EntryFacts>
    decreases mapping,
{
    seq![entry_of(mapping, depth, parent, transforms)] + match mapping.fields {
        Some(fields) => entries_of(
            fields@,
            deeper(depth),
            path_of(parent, mapping.field@),
            transforms,
        ),
        None => Seq::empty(),
    }
}

/// The line that shows a chain of joins.
pub fn chain_line_text(chain: &Vec<JoinChainEntry>) -> (line: String)
    ensures
        line@ == chain_line(chain@),
{
    let mut line = String::new();
    let mut i: usize = 0;
    proof {
        assert(chain@.take(0) =~= Seq::<JoinChainEntry>::empty());
    }
    while i < chain.len()
        invariant
            i <= chain.len(),
            line@ == chain_line(chain@.take(i as int)),
        decreases chain.len() - i,
    {
        proof {
            assert(chain@.take(i + 1).drop_last() =~= chain@.take(i as int));
            assert(chain@.take(i + 1).last() == chain@[i as int]);
            assert(chain@.take(i + 1)[0] == chain@[0]);
        }
        if i > 0 {
            line.append(" → ");
        } else {
            proof {
                assert(line@ + step_line(chain@[0]) =~= step_line(chain@[0]));
            }
        }
        let step = text3("JOIN ", chain[i].table.as_str(), " ON ");
        line.append(step.as_str());
        line.append(chain[i].on.as_str());
        i += 1;
    }
    proof {
        assert(chain@.take(chain.len() as int) =~= chain@);
    }
    line
}

/// The line that shows a join.
pub fn join_line_text(join: &Join) -> (line: String)
    ensures
        line@ == join_line(*join),
{
    let mut line = match &join.kind {
        Some(kind) => kind.clone(),
        None => String::from_str("JOIN"),
    };
    line.append(" ");
    line.append(join.table.as_str());
    match &join.alias {
        Some(alias) => {
            line.append(" AS ");
            line.append(alias.as_str());
        },
        None => {},
    }
    line.append(" ON ");
    line.append(join.on.as_str());
    proof {
        assert(line@ =~= join_line(*join));
    }
    line
}

/// The tables that a field names, each once.
pub fn field_tables(mapping: &ResponseMapping) -> (list: Vec<String>)
    ensures
        texts(list@) == field_tables_of(*mapping),
{
    let ghost none = Seq::<Seq<char>>::empty();
    let mut list: Vec<String> = Vec::new();
    proof {
        assert(texts(list@) =~= none);
    }
    match &mapping.source {
        Some(source) => match extract_table_identifier(source.as_str()) {
            Some(table) => {
                push_new(&mut list, table.as_str());
            },
            None => {},
        },
        None => {},
    }
    let ghost m1 = source_identifier(*mapping);
    assert(texts(list@) == with_new(none, m1));
    match &mapping.join {
        Some(join) => {
            push_new(&mut list, join.table.as_str());
        },
        None => {},
    }
    let ghost m2 = join_mention(*mapping);
    proof {
        lemma_with_new_concat(none, m1, m2);
    }
    assert(texts(list@) == with_new(none, m1 + m2));
    match &mapping.join_chain {
        Some(chain) => {
            let mut i: usize = 0;
            proof {
                assert(chain_tables(chain@).take(0) =~= none);
                assert(m1 + m2 + none =~= m1 + m2);
            }
            while i < chain.len()
                invariant
                    i <= chain.len(),
                    none == Seq::<Seq<char>>::empty(),
                    texts(list@) == with_new(none, m1 + m2 + chain_tables(chain@).take(i as int)),
                decreases chain.len() - i,
            {
                let ghost seen = chain_tables(chain@).take(i as int);
                push_new(&mut list, chain[i].table.as_str());
                proof {
                    let one = seq![chain@[i as int].table@];
                    lemma_with_new_concat(none, m1 + m2 + seen, one);
                    assert(m1 + m2 + seen + one =~= m1 + m2 + chain_tables(chain@).take(i + 1));
                }
                i += 1;
            }
            proof {
                assert(chain_tables(chain@).take(chain.len() as int) =~= chain_tables(chain@));
            }
        },
        None => {
            proof {
                assert(m1 + m2 + none =~= m1 + m2);
            }
        },
    }
    list
}

/// What the page shows of one field at the given depth below the given
/// path.
pub fn field_entry(
    mapping: &ResponseMapping,
    depth: usize,
    parent_path: &str,
    transforms: &Vec<Transform>,
) -> (entry: FieldEntry)
    ensures
        entry@ == entry_of(*mapping, depth as nat, parent_path@, transforms@),
{
    let mut badges: Vec<String> = Vec::new();
    match &mapping.aggregate {
        Some(aggregate) => {
            badges.push(aggregate.kind.clone());
        },
        None => {},
    }
    let is_array = match &mapping.kind {
        Some(kind) => same_text(kind.as_str(), "array"),
        None => false,
    };
    if is_array {
        badges.push(String::from_str("array"));
    }
    proof {
        assert(texts(badges@) =~= badges_of(*mapping));
    }
    let mut join_lines: Vec<String> = Vec::new();
    match &mapping.join {
        Some(join) => {
            join_lines.push(join_line_text(join));
        },
        None => {},
    }
    match &mapping.join_chain {
        Some(chain) => {
            if chain.len() > 0 {
                join_lines.push(chain_line_text(chain));
            }
        },
        None => {},
    }
    proof {
        assert(texts(join_lines@) =~= join_lines_of(*mapping));
    }
    let join_type = if mapping.aggregate.is_some() {
        String::from_str("aggregate")
    } else if mapping.join_chain.is_some() {
        String::from_str("join-chain")
    } else if mapping.join.is_some() {
        String::from_str("join")
    } else {
        String::from_str("simple")
    };
    let field_path = if parent_path.is_empty() {
        mapping.field.clone()
    } else {
        text3(parent_path, ".", mapping.field.as_str())
    };
    let source = match &mapping.source {
        Some(source) => Some(source.clone()),
        None => None,
    };
    FieldEntry {
        field: mapping.field.clone(),
        field_path,
        source,
        badges,
        join_lines,
        transforms: transform_kinds(transforms, mapping.field.as_str()),
        depth,
        tables: field_tables(mapping),
        join_type,
    }
}

/// The tables with one more table, without columns, unless it is among
/// them.
pub open spec fn with_table(known: Seq<TableFacts>, table: Seq<char>) -> Seq<TableFacts> {
    if columns_of(known, table) is Some {
        known
    } else {
        known.push(TableFacts { name: table, columns: Seq::empty() })
    }
}

/// The tables with one more column of a table: the first table of that name
/// gets the column unless it has it, and where there is no such table, one
/// with this column joins the others.
pub open spec fn with_column(known: Seq<TableFacts>, table: Seq<char>, column: Seq<char>) -> Seq<
    TableFacts,
>
    decreases known.len(),
{
    if known.len() == 0 {
        seq![TableFacts { name: table, columns: seq![column] }]
    } else if known[0].name == table {
        seq![
            TableFacts { name: table, columns: with_new(known[0].columns, seq![column]) },
        ] + known.drop_first()
    } else {
        seq![known[0]] + with_column(known.drop_first(), table, column)
    }
}

/// The tables with the given tables, each without columns unless it is
/// there.
pub open spec fn with_tables(known: Seq<TableFacts>, names: Seq<Seq<char>>) -> Seq<TableFacts>
    decreases names.len(),
{
    if names.len() == 0 {
        known
    } else {
        with_table(with_tables(known, names.drop_last()), names.last())
    }
}

/// The tables after the source of a field: a source of the form
/// `table.column` adds the column to the table.
pub open spec fn after_source(known: Seq<TableFacts>, mapping: ResponseMapping) -> Seq<TableFacts> {
    match mapping.source {
        Some(source) => match split_at_first(source@, "."@) {
            Some((table, column)) => with_column(known, table, column),
            None => known,
        },
        None => known,
    }
}

/// The tables after the join of a field.
pub open spec fn after_join(known: Seq<TableFacts>, mapping: ResponseMapping) -> Seq<TableFacts> {
    match mapping.join {
        Some(join) => with_table(known, join.table@),
        None => known,
    }
}

/// The tables after the chain of joins of a field.
pub open spec fn after_chain(known: Seq<TableFacts>, mapping: ResponseMapping) -> Seq<TableFacts> {
    match mapping.join_chain {
        Some(chain) => with_tables(known, chain_tables(chain@)),
        None => known,
    }
}

/// The tables after one field: after its source, its join and its chain.
pub open spec fn tables_after(known: Seq<TableFacts>, mapping: ResponseMapping) -> Seq<TableFacts> {
    after_chain(after_join(after_source(known, mapping), mapping), mapping)
}

/// The tables after the given fields, met in this order.
pub open spec fn flow_tables(nodes: Seq<ResponseMapping>, known: Seq<TableFacts>) -> Seq<TableFacts>
    decreases nodes.len(),
{
    if nodes.len() == 0 {
        known
    } else {
        tables_after(flow_tables(nodes.drop_last(), known), nodes.last())
    }
}

/// The alias that a field gives to the table of its join, with the table.
pub open spec fn alias_of(mapping: ResponseMapping) -> Seq<(Seq<char>, Seq<char>)> {
    match mapping.join {
        Some(join) => match join.alias {
            Some(alias) => seq![(alias@, join.table@)],
            None => Seq::empty(),
        },
        None => Seq::empty(),
    }
}

/// The aliases that the given fields give, in their order.
pub open spec fn flow_aliases(nodes: Seq<ResponseMapping>) -> Seq<(Seq<char>, Seq<char>)>
    decreases nodes.len(),
{
    if nodes.len() == 0 {
        Seq::empty()
    } else {
        flow_aliases(nodes.drop_last()) + alias_of(nodes.last())
    }
}

/// The table that a name stands for: that of the last alias of this name.
pub open spec fn aliased(aliases: Seq<(Seq<char>, Seq<char>)>, name: Seq<char>) -> Option<
    Seq<char>,
>
    decreases aliases.len(),
{
    if aliases.len() == 0 {
        None
    } else if aliases.last().0 == name {
        Some(aliases.last().1)
    } else {
        aliased(aliases.drop_last(), name)
    }
}

/// The table that a name stands for, where it is an alias.
pub fn alias_target<'a>(aliases: &'a Vec<(String, String)>, name: &str) -> (r: Option<&'a String>)
    ensures
        match r {
            Some(table) => aliased(pairs(aliases@), name@) == Some(table@),
            None => aliased(pairs(aliases@), name@) is None,
        },
{
    let mut n: usize = aliases.len();
    proof {
        assert(pairs(aliases@).take(n as int) =~= pairs(aliases@));
    }
    while n > 0
        invariant
            n <= aliases.len(),
            aliased(pairs(aliases@), name@) == aliased(pairs(aliases@).take(n as int), name@),
        decreases n,
    {
        proof {
            assert(pairs(aliases@).take(n as int).drop_last() =~= pairs(aliases@).take(n - 1));
            assert(pairs(aliases@).take(n as int).last() == (
                aliases@[n - 1].0@,
                aliases@[n - 1].1@,
            ));
        }
        if same_text(aliases[n - 1].0.as_str(), name) {
            return Some(&aliases[n - 1].1);
        }
        n -= 1;
    }
    None
}

/// Where the first table of a name stands, its columns grow there.
pub proof fn lemma_with_column_at(
    known: Seq<TableFacts>,
    table: Seq<char>,
    column: Seq<char>,
    i: int,
)
    requires
        0 <= i < known.len(),
        known[i].name == table,
        forall|j: int| 0 <= j < i ==> known[j].name != table,
    ensures
        with_column(known, table, column) == known.update(
            i,
            TableFacts { name: table, columns: with_new(known[i].columns, seq![column]) },
        ),
    decreases i,
{
    let rest = known.drop_first();
    if i == 0 {
        assert(with_column(known, table, column) =~= known.update(
            0,
            TableFacts { name: table, columns: with_new(known[0].columns, seq![column]) },
        ));
    } else {
        assert forall|j: int| 0 <= j < i - 1 implies rest[j].name != table by {
            assert(rest[j] == known[j + 1]);
        }
        assert(rest[i - 1] == known[i]);
        lemma_with_column_at(rest, table, column, i - 1);
        assert(with_column(known, table, column) =~= known.update(
            i,
            TableFacts { name: table, columns: with_new(known[i].columns, seq![column]) },
        ));
    }
}

/// Where no table has the name, one with the column joins the others.
pub proof fn lemma_with_column_new(known: Seq<TableFacts>, table: Seq<char>, column: Seq<char>)
    requires
        forall|j: int| 0 <= j < known.len() ==> known[j].name != table,
    ensures
        with_column(known, table, column) == known.push(
            TableFacts { name: table, columns: seq![column] },
        ),
    decreases known.len(),
{
    if known.len() == 0 {
        assert(with_column(known, table, column) =~= known.push(
            TableFacts { name: table, columns: seq![column] },
        ));
    } else {
        let rest = known.drop_first();
        assert forall|j: int| 0 <= j < rest.len() implies rest[j].name != table by {
            assert(rest[j] == known[j + 1]);
        }
        lemma_with_column_new(rest, table, column);
        assert(with_column(known, table, column) =~= known.push(
            TableFacts { name: table, columns: seq![column] },
        ));
    }
}

/// Notes that a field reads a column of a table.
pub fn note_column(known: &mut Vec<DbmlTable>, table: &str, column: &str)
    ensures
        tables(final(known)@) == with_column(tables(old(known)@), table@, column@),
{
    let mut i: usize = 0;
    while i < known.len()
        invariant
            i <= known.len(),
            known@ == old(known)@,
            forall|j: int| 0 <= j < i ==> tables(known@)[j].name != table@,
        decreases known.len() - i,
    {
        if same_text(known[i].name.as_str(), table) {
            let mut columns = copy_texts(&known[i].columns);
            push_new(&mut columns, column);
            let entry = DbmlTable { name: String::from_str(table), columns };
            proof {
                lemma_with_column_at(tables(known@), table@, column@, i as int);
                assert(tables(known@.update(i as int, entry)) =~= tables(known@).update(
                    i as int,
                    entry@,
                ));
            }
            known[i] = entry;
            return ;
        }
        i += 1;
    }
    let mut columns: Vec<String> = Vec::new();
    columns.push(String::from_str(column));
    let entry = DbmlTable { name: String::from_str(table), columns };
    proof {
        lemma_with_column_new(tables(known@), table@, column@);
        assert(texts(columns@) =~= seq![column@]);
        assert(tables(known@.push(entry)) =~= tables(known@).push(entry@));
    }
    known.push(entry);
}

/// Notes that a field names a table.
pub fn note_table(known: &mut Vec<DbmlTable>, table: &str)
    ensures
        tables(final(known)@) == with_table(tables(old(known)@), table@),
{
    if crate::validator::schema::find_table(known, table).is_none() {
        let entry = DbmlTable { name: String::from_str(table), columns: Vec::new() };
        proof {
            assert(texts(entry.columns@) =~= Seq::<Seq<char>>::empty());
            assert(tables(known@.push(entry)) =~= tables(known@).push(entry@));
        }
        known.push(entry);
    }
}

/// Notes the tables and the columns that one field names.
pub fn note_tables(mapping: &ResponseMapping, known: &mut Vec<DbmlTable>)
    ensures
        tables(final(known)@) == tables_after(tables(old(known)@), *mapping),
{
    match &mapping.source {
        Some(source) => match split_once(source.as_str(), ".") {
            Some((table, column)) => {
                note_column(known, table, column);
            },
            None => {},
        },
        None => {},
    }
    match &mapping.join {
        Some(join) => {
            note_table(known, join.table.as_str());
        },
        None => {},
    }
    let ghost joined = tables(known@);
    match &mapping.join_chain {
        Some(chain) => {
            let mut i: usize = 0;
            proof {
                assert(chain_tables(chain@).take(0) =~= Seq::<Seq<char>>::empty());
            }
            while i < chain.len()
                invariant
                    i <= chain.len(),
                    tables(known@) == with_tables(joined, chain_tables(chain@).take(i as int)),
                decreases chain.len() - i,
            {
                proof {
                    assert(chain_tables(chain@).take(i + 1).drop_last() =~= chain_tables(
                        chain@,
                    ).take(i as int));
                    assert(chain_tables(chain@).take(i + 1).last() == chain@[i as int].table@);
                }
                note_table(known, chain[i].table.as_str());
                i += 1;
            }
            proof {
                assert(chain_tables(chain@).take(chain.len() as int) =~= chain_tables(chain@));
            }
        },
        None => {},
    }
}

/// The tables after two runs of fields are those after the second run, from
/// those after the first.
pub proof fn lemma_flow_tables_concat(
    a: Seq<ResponseMapping>,
    b: Seq<ResponseMapping>,
    known: Seq<TableFacts>,
)
    ensures
        flow_tables(a + b, known) == flow_tables(b, flow_tables(a, known)),
    decreases b.len(),
{
    if b.len() == 0 {
        assert(a + b =~= a);
    } else {
        lemma_flow_tables_concat(a, b.drop_last(), known);
        assert((a + b).drop_last() =~= a + b.drop_last());
        assert((a + b).last() == b.last());
    }
}

/// The aliases of two runs of fields are those of the first, followed by
/// those of the second.
pub proof fn lemma_flow_aliases_concat(a: Seq<ResponseMapping>, b: Seq<ResponseMapping>)
    ensures
        flow_aliases(a + b) == flow_aliases(a) + flow_aliases(b),
    decreases b.len(),
{
    if b.len() == 0 {
        assert(a + b =~= a);
        assert(flow_aliases(a) + Seq::<(Seq<char>, Seq<char>)>::empty() =~= flow_aliases(a));
    } else {
        lemma_flow_aliases_concat(a, b.drop_last());
        assert((a + b).drop_last() =~= a + b.drop_last());
        assert((a + b).last() == b.last());
        assert(flow_aliases(a + b) =~= flow_aliases(a) + (flow_aliases(b.drop_last()) + alias_of(
            b.last(),
        )));
    }
}

/// What the page shows of a document: its fields, the tables that they use
/// with the columns that they read, and the aliases of the joins.
pub struct FlowModel {
    pub entries: Vec<FieldEntry>,
    pub tables: Vec<DbmlTable>,
    /// Each alias with the table that it stands for.
    pub aliases: Vec<(String, String)>,
}

/// A `FlowModel` as contracts see it.
pub struct FlowFacts {
    pub entries: Seq<EntryFacts>,
    pub tables: Seq<TableFacts>,
    pub aliases: Seq<(Seq<char>, Seq<char>)>,
}

impl View for FlowModel {
    type V = FlowFacts;

    open spec fn view(&self) -> FlowFacts {
        FlowFacts {
            entries: entries(self.entries@),
            tables: tables(self.tables@),
            aliases: pairs(self.aliases@),
        }
    }
}

/// Adds what the page shows of a list of fields and of the fields below
/// them, walked in preorder: their entries, the tables and columns that they
/// name, and the aliases that their joins give.
pub fn collect_entries(
    mappings: &Vec<ResponseMapping>,
    depth: usize,
    parent_path: &str,
    transforms: &Vec<Transform>,
    model: &mut FlowModel,
)
    ensures
        final(model)@.entries == old(model)@.entries + entries_of(
            mappings@,
            depth as nat,
            parent_path@,
            transforms@,
        ),
        final(model)@.tables == flow_tables(preorder(mappings@), old(model)@.tables),
        final(model)@.aliases == old(model)@.aliases + flow_aliases(preorder(mappings@)),
    decreases mappings,
{
    let ghost start = model@;
    let mut i: usize = 0;
    proof {
        assert(mappings@.take(0) =~= Seq::<ResponseMapping>::empty());
        assert(start.entries + Seq::<EntryFacts>::empty() =~= start.entries);
        assert(start.aliases + Seq::<(Seq<char>, Seq<char>)>::empty() =~= start.aliases);
    }
    while i < mappings.len()
        invariant
            i <= mappings.len(),
            model@.entries == start.entries + entries_of(
                mappings@.take(i as int),
                depth as nat,
                parent_path@,
                transforms@,
            ),
            model@.tables == flow_tables(preorder(mappings@.take(i as int)), start.tables),
            model@.aliases == start.aliases + flow_aliases(preorder(mappings@.take(i as int))),
        decreases mappings.len() - i,
    {
        let mapping = &mappings[i];
        let ghost done = preorder(mappings@.take(i as int));
        let ghost under = below(*mapping);
        let ghost before = model@;
        let entry = field_entry(mapping, depth, parent_path, transforms);
        proof {
            assert(entries(model.entries@.push(entry)) =~= entries(model.entries@).push(entry@));
        }
        match &mapping.join {
            Some(join) => match &join.alias {
                Some(alias) => {
                    let pair = (alias.clone(), join.table.clone());
                    proof {
                        assert(pairs(model.aliases@.push(pair)) =~= pairs(model.aliases@) + seq![
                            (alias@, join.table@),
                        ]);
                    }
                    model.aliases.push(pair);
                },
                None => {
                    proof {
                        assert(before.aliases + Seq::<(Seq<char>, Seq<char>)>::empty()
                            =~= before.aliases);
                    }
                },
            },
            None => {
                proof {
                    assert(before.aliases + Seq::<(Seq<char>, Seq<char>)>::empty()
                        =~= before.aliases);
                }
            },
        }
        let path = if parent_path.is_empty() {
            mapping.field.clone()
        } else {
            text3(parent_path, ".", mapping.field.as_str())
        };
        model.entries.push(entry);
        note_tables(mapping, &mut model.tables);
        let ghost at_node = model@;
        assert(at_node.aliases == before.aliases + alias_of(*mapping));
        assert(at_node.tables == tables_after(before.tables, *mapping));
        match &mapping.fields {
            Some(fields) => {
                let next = if depth < usize::MAX {
                    depth + 1
                } else {
                    depth
                };
                collect_entries(fields, next, path.as_str(), transforms, model);
            },
            None => {
                proof {
                    assert(at_node.entries + Seq::<EntryFacts>::empty() =~= at_node.entries);
                    assert(at_node.aliases + Seq::<(Seq<char>, Seq<char>)>::empty()
                        =~= at_node.aliases);
                }
            },
        }
        proof {
            let one = seq![*mapping];
            let none = Seq::<ResponseMapping>::empty();
            assert(mappings@.take(i + 1).drop_last() =~= mappings@.take(i as int));
            assert(mappings@.take(i + 1).last() == *mapping);
            assert(preorder_of(*mapping) == one + under);
            assert(preorder(mappings@.take(i + 1)) == done + (one + under));
            assert(one.drop_last() =~= none);
            assert(flow_tables(none, before.tables) == before.tables);
            assert(flow_tables(one, before.tables) == at_node.tables);
            assert(flow_aliases(none) =~= Seq::<(Seq<char>, Seq<char>)>::empty());
            assert(flow_aliases(one) =~= alias_of(*mapping));
            lemma_flow_tables_concat(one, under, before.tables);
            lemma_flow_tables_concat(done, one + under, start.tables);
            lemma_flow_aliases_concat(one, under);
            lemma_flow_aliases_concat(done, one + under);
            assert(model@.aliases =~= start.aliases + (flow_aliases(done) + (flow_aliases(one)
                + flow_aliases(under))));
            assert(model@.entries =~= start.entries + (entries_of(
                mappings@.take(i as int),
                depth as nat,
                parent_path@,
                transforms@,
            ) + entries_under(*mapping, depth as nat, parent_path@, transforms@)));
        }
        i += 1;
    }
    proof {
        assert(mappings@.take(mappings.len() as int) =~= mappings@);
    }
}

/// The tables of the given names, without columns.
pub open spec fn bare_tables(names: Seq<Seq<char>>) -> Seq<TableFacts> {
    names.map_values(|n: Seq<char>| TableFacts { name: n, columns: Seq::empty() })
}

/// What the page shows of a document: the entries of its fields, walked in
/// preorder from the top; the imported tables followed by the other tables
/// that the fields name, with the columns that their sources read; and the
/// aliases of the joins.
pub open spec fn flow_of(doc: UsmlDocument) -> FlowFacts {
    FlowFacts {
        entries: entries_of(doc.usecase.response_mapping@, 0, Seq::empty(), doc.usecase.transforms@),
        tables: flow_tables(
            preorder(doc.usecase.response_mapping@),
            bare_tables(import_tables(doc)),
        ),
        aliases: flow_aliases(preorder(doc.usecase.response_mapping@)),
    }
}

/// What the page shows of a document.
pub fn flow_model(doc: &UsmlDocument) -> (model: FlowModel)
    ensures
        model@ == flow_of(*doc),
{
    let names = extract_import_tables(doc);
    let mut known: Vec<DbmlTable> = Vec::new();
    let mut i: usize = 0;
    proof {
        assert(tables(known@) =~= bare_tables(texts(names@).take(0)));
    }
    while i < names.len()
        invariant
            i <= names.len(),
            tables(known@) == bare_tables(texts(names@).take(i as int)),
        decreases names.len() - i,
    {
        let entry = DbmlTable { name: names[i].clone(), columns: Vec::new() };
        proof {
            assert(texts(entry.columns@) =~= Seq::<Seq<char>>::empty());
            assert(tables(known@.push(entry)) =~= tables(known@).push(entry@));
            assert(texts(names@).take(i + 1) =~= texts(names@).take(i as int).push(
                names@[i as int]@,
            ));
            assert(bare_tables(texts(names@).take(i as int).push(names@[i as int]@))
                =~= bare_tables(texts(names@).take(i as int)).push(entry@));
        }
        known.push(entry);
        i += 1;
    }
    proof {
        assert(texts(names@).take(names.len() as int) =~= texts(names@));
    }
    let mut model = FlowModel { entries: Vec::new(), tables: known, aliases: Vec::new() };
    proof {
        reveal_strlit("");
        assert(""@ =~= Seq::<char>::empty());
        assert(entries(model.entries@) =~= Seq::<EntryFacts>::empty());
        assert(pairs(model.aliases@) =~= Seq::<(Seq<char>, Seq<char>)>::empty());
    }
    collect_entries(&doc.usecase.response_mapping, 0, "", &doc.usecase.transforms, &mut model);
    proof {
        let all = entries_of(
            doc.usecase.response_mapping@,
            0,
            Seq::empty(),
            doc.usecase.transforms@,
        );
        assert(Seq::<EntryFacts>::empty() + all =~= all);
        let names = flow_aliases(preorder(doc.usecase.response_mapping@));
        assert(Seq::<(Seq<char>, Seq<char>)>::empty() + names =~= names);
    }
    model
}

/// The names of the tables of a list.
pub open spec fn names_of(known: Seq<TableFacts>) -> Seq<Seq<char>> {
    known.map_values(|t: TableFacts| t.name)
}

/// A table has columns to show exactly where the list names it.
pub proof fn lemma_columns_of_named(known: Seq<TableFacts>, table: Seq<char>)
    ensures
        columns_of(known, table) is Some <==> names_of(known).contains(table),
    decreases known.len(),
{
    let names = names_of(known);
    if known.len() == 0 {
        assert(!names.contains(table));
    } else {
        let rest = known.drop_first();
        lemma_columns_of_named(rest, table);
        assert(names_of(rest) =~= names.drop_first());
        if known[0].name == table {
            assert(names[0] == table);
        } else {
            if names.contains(table) {
                let i = choose|i: int| 0 <= i < names.len() && names[i] == table;
                assert(names.drop_first()[i - 1] == table);
            }
            if names.drop_first().contains(table) {
                let i = choose|i: int|
                    0 <= i < names.drop_first().len() && names.drop_first()[i] == table;
                assert(names[i + 1] == table);
            }
        }
    }
}

/// A column joins its table without a change of the names, and a new table
/// comes last.
pub proof fn lemma_with_column_names(known: Seq<TableFacts>, table: Seq<char>, column: Seq<char>)
    ensures
        names_of(with_column(known, table, column)) == if names_of(known).contains(table) {
            names_of(known)
        } else {
            names_of(known).push(table)
        },
    decreases known.len(),
{
    let names = names_of(known);
    let out = with_column(known, table, column);
    if known.len() == 0 {
        assert(!names.contains(table));
        assert(names_of(out) =~= names.push(table));
    } else if known[0].name == table {
        assert(names[0] == table);
        assert(names_of(out) =~= names);
    } else {
        let rest = known.drop_first();
        let inner = with_column(rest, table, column);
        lemma_with_column_names(rest, table, column);
        assert(names_of(rest) =~= names.drop_first());
        assert(out == seq![known[0]] + inner);
        assert(names_of(out) =~= seq![names[0]] + names_of(inner));
        assert(names =~= seq![names[0]] + names.drop_first());
        if names.contains(table) {
            let i = choose|i: int| 0 <= i < names.len() && names[i] == table;
            assert(names.drop_first()[i - 1] == table);
            assert(names_of(out) =~= names);
        } else {
            if names.drop_first().contains(table) {
                let i = choose|i: int|
                    0 <= i < names.drop_first().len() && names.drop_first()[i] == table;
                assert(names[i + 1] == table);
            }
            assert(names_of(out) =~= names.push(table));
        }
    }
}

/// A list that names no table twice stays so when a name that it lacks comes
/// last.
pub proof fn lemma_push_new_name(names: Seq<Seq<char>>, table: Seq<char>)
    requires
        names.no_duplicates(),
        !names.contains(table),
    ensures
        names.push(table).no_duplicates(),
{
    assert forall|a: int, b: int|
        0 <= a < names.push(table).len() && 0 <= b < names.push(table).len() && a
            != b implies names.push(table)[a] != names.push(table)[b] by {
        if a < names.len() && b < names.len() {
            assert(names[a] != names[b]);
        } else if a < names.len() {
            assert(names[a] != table);
        } else {
            assert(names[b] != table);
        }
    }
}

/// The tables after a field name no table twice, where those before it did
/// not.
pub proof fn lemma_tables_after_named_once(known: Seq<TableFacts>, mapping: ResponseMapping)
    requires
        names_of(known).no_duplicates(),
    ensures
        names_of(tables_after(known, mapping)).no_duplicates(),
{
    let k1 = after_source(known, mapping);
    match mapping.source {
        Some(source) => match split_at_first(source@, "."@) {
            Some((table, column)) => {
                lemma_with_column_names(known, table, column);
                if !names_of(known).contains(table) {
                    lemma_push_new_name(names_of(known), table);
                }
            },
            None => {},
        },
        None => {},
    }
    let k2 = after_join(k1, mapping);
    match mapping.join {
        Some(join) => {
            lemma_with_table_named_once(k1, join.table@);
        },
        None => {},
    }
    match mapping.join_chain {
        Some(chain) => {
            lemma_with_tables_named_once(k2, chain_tables(chain@));
        },
        None => {},
    }
}

/// One more table leaves the names apart.
pub proof fn lemma_with_table_named_once(known: Seq<TableFacts>, table: Seq<char>)
    requires
        names_of(known).no_duplicates(),
    ensures
        names_of(with_table(known, table)).no_duplicates(),
{
    lemma_columns_of_named(known, table);
    if columns_of(known, table) is None {
        lemma_push_new_name(names_of(known), table);
        assert(names_of(with_table(known, table)) =~= names_of(known).push(table));
    }
}

/// More tables leave the names apart.
pub proof fn lemma_with_tables_named_once(known: Seq<TableFacts>, names: Seq<Seq<char>>)
    requires
        names_of(known).no_duplicates(),
    ensures
        names_of(with_tables(known, names)).no_duplicates(),
    decreases names.len(),
{
    if names.len() > 0 {
        lemma_with_tables_named_once(known, names.drop_last());
        lemma_with_table_named_once(with_tables(known, names.drop_last()), names.last());
    }
}

/// The tables after a run of fields name no table twice, where those before
/// it did not.
pub proof fn lemma_flow_tables_named_once(nodes: Seq<ResponseMapping>, known: Seq<TableFacts>)
    requires
        names_of(known).no_duplicates(),
    ensures
        names_of(flow_tables(nodes, known)).no_duplicates(),
    decreases nodes.len(),
{
    if nodes.len() > 0 {
        lemma_flow_tables_named_once(nodes.drop_last(), known);
        lemma_tables_after_named_once(flow_tables(nodes.drop_last(), known), nodes.last());
    }
}

/// The page shows each table once: the tables of the flow of a document
/// name no table twice.
pub proof fn law_flow_names_each_table_once(doc: UsmlDocument)
    ensures
        names_of(flow_of(doc).tables).no_duplicates(),
{
    let names = import_tables(doc);
    match doc.import.dbml {
        Some(refs) => {
            lemma_with_new_holds(Seq::empty(), table_names(texts(refs@)));
            assert(Seq::<Seq<char>>::empty().no_duplicates());
        },
        None => {},
    }
    assert(names.no_duplicates());
    assert(names_of(bare_tables(names)) =~= names);
    lemma_flow_tables_named_once(preorder(doc.usecase.response_mapping@), bare_tables(names));
}

} // verus!
