use crate::command::command_of;
use crate::command::is_keyword;
use crate::command::parse_command;
use crate::command::Command;
use crate::command::Request;
use crate::engine::has_table;
use crate::engine::lemma_held;
use crate::engine::valid;
use crate::engine::names_of;
use crate::engine::place_of;
use crate::engine::table_of;
use crate::engine::with_table;
use crate::engine::StorageEngine;
use crate::engine::Tables;
use crate::error::DatabaseError;
use crate::error::Failure;
use crate::lexer::first_word;
use crate::render::names_text;
use crate::render::render_names;
use crate::render::render_rows;
use crate::render::rows_text;
use crate::schema::appended;
use crate::schema::conforms;
use crate::schema::covers;
use crate::schema::distinct;
use crate::schema::lemma_put;
use crate::schema::matching;
use crate::schema::numbered;
use crate::schema::put;
use crate::schema::Fields;
use crate::schema::Row;
use crate::schema::TableView;
use crate::text::decimal;
use crate::text::decimal_text;
use crate::text::join2;
use crate::text::join3;
use crate::text::pair_texts;
use crate::text::ref_texts;
use crate::text::texts;
use vstd::prelude::*;

verus! {

/// The row that holds the fields of `pairs`, set one after the other: of
/// two values for one column the later stays.
pub open spec fn row_of(pairs: Fields) -> Fields
    decreases pairs.len(),
{
    if pairs.len() == 0 {
        Seq::empty()
    } else {
        put(row_of(pairs.drop_last()), pairs.last().0, pairs.last().1)
    }
}

/// The columns of `row_of(pairs)` are distinct.
pub proof fn lemma_row_of(pairs: Fields)
    ensures
        distinct(row_of(pairs)),
    decreases pairs.len(),
{
    if pairs.len() > 0 {
        lemma_row_of(pairs.drop_last());
        lemma_put(row_of(pairs.drop_last()), pairs.last().0, pairs.last().1);
    }
}

/// What a command does: the tables after it, and the reply. A command that
/// fails leaves the tables as they were.
pub open spec fn outcome(tables: Tables, request: Request) -> (Tables, Result<Seq<char>, Failure>) {
    match request {
        Request::CreateTable { name, columns } => {
            if has_table(tables, name) {
                (tables, Err(Failure::DuplicateTable(name)))
            } else {
                (
                    tables.push((name, TableView { columns, rows: Seq::empty() })),
                    Ok("Table '"@ + name + "' created successfully"@),
                )
            }
        },
        Request::Insert { table, fields } => {
            let old_table = table_of(tables, table);
            if !has_table(tables, table) {
                (tables, Err(Failure::TableNotFound(table)))
            } else if !covers(row_of(fields), old_table.columns) {
                (tables, Err(Failure::SchemaViolation))
            } else {
                (
                    with_table(tables, table, appended(old_table, row_of(fields))),
                    Ok("Row inserted with ID: "@ + decimal(old_table.rows.len())),
                )
            }
        },
        Request::SelectAll { table } => {
            if !has_table(tables, table) {
                (tables, Err(Failure::TableNotFound(table)))
            } else {
                (tables, Ok(rows_text(table, numbered(table_of(tables, table).rows))))
            }
        },
        Request::SelectWhere { table, column, value } => {
            if !has_table(tables, table) {
                (tables, Err(Failure::TableNotFound(table)))
            } else {
                (
                    tables,
                    Ok(rows_text(table, matching(table_of(tables, table).rows, column, value))),
                )
            }
        },
        Request::Describe { table } => {
            if !has_table(tables, table) {
                (tables, Err(Failure::TableNotFound(table)))
            } else {
                (
                    tables,
                    Ok(
                        "Table '"@ + table + "' columns: "@ + names_text(
                            table_of(tables, table).columns,
                        ),
                    ),
                )
            }
        },
        Request::ShowTables => (tables, Ok("Tables: "@ + names_text(names_of(tables)))),
        Request::DropTable { table } => {
            if !has_table(tables, table) {
                (tables, Err(Failure::TableNotFound(table)))
            } else {
                (
                    tables.remove(place_of(tables, table)),
                    Ok("Table '"@ + table + "' dropped successfully"@),
                )
            }
        },
    }
}

/// A command leaves a valid state valid: names stay distinct, and every row
/// of every table still has distinct fields and a value for each column
/// that its table declares.
pub proof fn lemma_outcome_keeps_valid(tables: Tables, request: Request)
    requires
        valid(tables),
    ensures
        valid(outcome(tables, request).0),
{
    let after = outcome(tables, request).0;
    match request {
        Request::CreateTable { name, columns } => {
            if !has_table(tables, name) {
                assert(names_of(after) =~= names_of(tables).push(name));
                assert forall|i: int, j: int| 0 <= i < j < names_of(after).len() implies names_of(
                    after,
                )[i] != names_of(after)[j] by {
                    if j == tables.len() {
                        assert(names_of(tables)[i] != name);
                    }
                }
            }
        },
        Request::Insert { table, fields } => {
            if has_table(tables, table) && covers(row_of(fields), table_of(tables, table).columns) {
                lemma_held(tables, table);
                lemma_row_of(fields);
                let p = place_of(tables, table);
                assert(names_of(after) =~= names_of(tables));
                assert(conforms(tables[p].1));
                assert forall|i: int| 0 <= i < after.len() implies conforms(
                    (#[trigger] after[i]).1,
                ) by {
                    if i != p {
                        assert(conforms(tables[i].1));
                    }
                }
            }
        },
        Request::DropTable { table } => {
            if has_table(tables, table) {
                lemma_held(tables, table);
                let p = place_of(tables, table);
                assert(names_of(after) =~= names_of(tables).remove(p));
                assert forall|i: int, j: int| 0 <= i < j < names_of(after).len() implies names_of(
                    after,
                )[i] != names_of(after)[j] by {
                    let i0 = if i < p { i } else { i + 1 };
                    let j0 = if j < p { j } else { j + 1 };
                    assert(names_of(tables)[i0] != names_of(tables)[j0]);
                }
                assert forall|i: int| 0 <= i < after.len() implies conforms(
                    (#[trigger] after[i]).1,
                ) by {
                    let i0 = if i < p { i } else { i + 1 };
                    assert(conforms(tables[i0].1));
                }
            }
        },
        _ => {},
    }
}

/// What a line of text does: the command that it spells takes effect; a
/// text that spells none leaves the tables as they were and is answered
/// with the reason.
pub open spec fn effect(tables: Tables, text: Seq<char>) -> (Tables, Result<Seq<char>, Failure>) {
    match command_of(text) {
        Ok(request) => outcome(tables, request),
        Err(failure) => (tables, Err(failure)),
    }
}

/// A line is answered with `UnknownCommand` exactly when its first word, as
/// white space delimits it, is none of the six keywords; the tables then
/// stay as they were.
pub proof fn lemma_unknown_command_reply(tables: Tables, text: Seq<char>)
    ensures
        effect(tables, text).1 == Err::<Seq<char>, Failure>(Failure::UnknownCommand)
            <==> !is_keyword(first_word(text)),
        !is_keyword(first_word(text)) ==> effect(tables, text).0 == tables,
{
}

/// A reply as mathematics.
pub open spec fn reply_of(result: Result<String, DatabaseError>) -> Result<Seq<char>, Failure> {
    match result {
        Ok(text) => Ok(text@),
        Err(e) => Err(e@),
    }
}

/// The row that holds the fields of `pairs`, set one after the other.
pub fn build_row(pairs: &Vec<(String, String)>) -> (row: Row)
    ensures
        row.wf(),
        row@ == row_of(pair_texts(pairs@)),
{
    let ghost all = pair_texts(pairs@);
    let mut row = Row::new();
    let mut i: usize = 0;
    assert(all.take(0) =~= Seq::<(Seq<char>, Seq<char>)>::empty());
    while i < pairs.len()
        invariant
            i <= pairs.len(),
            all == pair_texts(pairs@),
            row.wf(),
            row@ == row_of(all.take(i as int)),
        decreases pairs.len() - i,
    {
        row.insert(pairs[i].0.clone(), pairs[i].1.clone());
        proof {
            let now = all.take(i + 1);
            assert(now.drop_last() =~= all.take(i as int));
            assert(now.last() == (pairs@[i as int].0@, pairs@[i as int].1@));
        }
        i += 1;
    }
    assert(all.take(pairs.len() as int) =~= all);
    row
}

/// Runs commands against one engine, which it holds for as long as it lives.
///
/// It decides nothing about persistence: whether and when the engine is
/// saved is up to the caller.
pub struct QueryEngine<'a> {
    /// The engine that the commands run against.
    pub storage: &'a mut StorageEngine,
}

impl<'a> QueryEngine<'a> {
    /// A `QueryEngine` over `storage`.
    pub fn new(storage: &'a mut StorageEngine) -> (queries: Self)
        ensures
            *queries.storage == *old(storage),
            *final(queries.storage) == *final(storage),
    {
        QueryEngine { storage }
    }

    /// Runs the one command that `query` spells and gives its reply. A
    /// query that spells no command, and a command that fails, leave the
    /// engine as it was.
    pub fn execute(&mut self, query: &str) -> (result: Result<String, DatabaseError>)
        requires
            old(self).storage.wf(),
        ensures
            final(self).storage.wf(),
            *final(final(self).storage) == *final(old(self).storage),
            (final(self).storage@, reply_of(result)) == effect(old(self).storage@, query@),
    {
        match parse_command(query) {
            Ok(command) => self.run(command),
            Err(e) => Err(e),
        }
    }

    /// Runs `command` and gives its reply. A command that fails leaves the
    /// engine as it was.
    pub fn run(&mut self, command: Command) -> (result: Result<String, DatabaseError>)
        requires
            old(self).storage.wf(),
        ensures
            final(self).storage.wf(),
            *final(final(self).storage) == *final(old(self).storage),
            (final(self).storage@, reply_of(result)) == outcome(
                old(self).storage@, command@),
    {
        match command {
            Command::CreateTable { name, columns } => self.handle_create(name, columns),
            Command::Insert { table, fields } => self.handle_insert(table, fields),
            Command::SelectAll { table } => self.handle_select(table, None),
            Command::SelectWhere { table, column, value } => self.handle_select(
                table,
                Some((column, value)),
            ),
            Command::Describe { table } => self.handle_describe(table),
            Command::ShowTables => self.handle_show(),
            Command::DropTable { table } => self.handle_drop(table),
        }
    }

    fn handle_create(&mut self, name: String, columns: Vec<String>) -> (result: Result<
        String,
        DatabaseError,
    >)
        requires
            old(self).storage.wf(),
        ensures
            final(self).storage.wf(),
            *final(final(self).storage) == *final(old(self).storage),
            (final(self).storage@, reply_of(result)) == outcome(
                old(self).storage@,
                Request::CreateTable { name: name@, columns: texts(columns@) },
            ),
    {
        match self.storage.create_table(name.as_str(), columns) {
            Ok(_) => Ok(join3("Table '", name.as_str(), "' created successfully")),
            Err(e) => Err(e),
        }
    }

    fn handle_insert(&mut self, table: String, fields: Vec<(String, String)>) -> (result: Result<
        String,
        DatabaseError,
    >)
        requires
            old(self).storage.wf(),
        ensures
            final(self).storage.wf(),
            *final(final(self).storage) == *final(old(self).storage),
            (final(self).storage@, reply_of(result)) == outcome(
                old(self).storage@,
                Request::Insert { table: table@, fields: pair_texts(fields@) },
            ),
    {
        let row = build_row(&fields);
        match self.storage.insert_row(table.as_str(), row) {
            Ok(row_id) => Ok(join2("Row inserted with ID: ", decimal_text(row_id).as_str())),
            Err(e) => Err(e),
        }
    }

    fn handle_select(&mut self, table: String, condition: Option<(String, String)>) -> (result:
        Result<String, DatabaseError>)
        requires
            old(self).storage.wf(),
        ensures
            final(self).storage.wf(),
            *final(final(self).storage) == *final(old(self).storage),
            (final(self).storage@, reply_of(result)) == outcome(
                old(self).storage@,
                match condition {
                    Some(c) => Request::SelectWhere { table: table@, column: c.0@, value: c.1@ },
                    None => Request::SelectAll { table: table@ },
                },
            ),
    {
        let found = match &condition {
            Some(c) => self.storage.select_where(table.as_str(), c.0.as_str(), c.1.as_str()),
            None => self.storage.select_all(table.as_str()),
        };
        match found {
            Ok(rows) => Ok(render_rows(table.as_str(), &rows)),
            Err(e) => Err(e),
        }
    }

    fn handle_describe(&mut self, table: String) -> (result: Result<String, DatabaseError>)
        requires
            old(self).storage.wf(),
        ensures
            final(self).storage.wf(),
            *final(final(self).storage) == *final(old(self).storage),
            (final(self).storage@, reply_of(result)) == outcome(
                old(self).storage@,
                Request::Describe { table: table@ },
            ),
    {
        match self.storage.describe_table(table.as_str()) {
            Ok(columns) => {
                let mut names: Vec<&String> = Vec::new();
                let mut i: usize = 0;
                while i < columns.len()
                    invariant
                        i <= columns.len(),
                        names@.len() == i,
                        forall|k: int| 0 <= k < i ==> (#[trigger] names@[k])@ == columns@[k]@,
                    decreases columns.len() - i,
                {
                    names.push(&columns[i]);
                    i += 1;
                }
                assert(ref_texts(names@) =~= texts(columns@));
                let mut text = join3("Table '", table.as_str(), "' columns: ");
                text.append(render_names(&names).as_str());
                Ok(text)
            },
            Err(e) => Err(e),
        }
    }

    fn handle_show(&mut self) -> (result: Result<String, DatabaseError>)
        requires
            old(self).storage.wf(),
        ensures
            final(self).storage.wf(),
            *final(final(self).storage) == *final(old(self).storage),
            (final(self).storage@, reply_of(result)) == outcome(
                old(self).storage@,
                Request::ShowTables,
            ),
    {
        let names = self.storage.list_tables();
        Ok(join2("Tables: ", render_names(&names).as_str()))
    }

    fn handle_drop(&mut self, table: String) -> (result: Result<String, DatabaseError>)
        requires
            old(self).storage.wf(),
        ensures
            final(self).storage.wf(),
            *final(final(self).storage) == *final(old(self).storage),
            (final(self).storage@, reply_of(result)) == outcome(
                old(self).storage@,
                Request::DropTable { table: table@ },
            ),
    {
        match self.storage.drop_table(table.as_str()) {
            Ok(_) => Ok(join3("Table '", table.as_str(), "' dropped successfully")),
            Err(e) => Err(e),
        }
    }
}

} // verus!
