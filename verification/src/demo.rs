use crate::engine::has_table;
use crate::engine::StorageEngine;
use crate::error::DatabaseError;
use crate::error::Failure;
use crate::schema::columns_of;
use crate::schema::covers;
use crate::schema::Fields;
use crate::schema::Row;
use crate::schema::Table;
use crate::schema::TableView;
use crate::text::texts;
use vstd::prelude::*;

verus! {

/// A user of the demo table as fields.
pub open spec fn user_fields(id: Seq<char>, name: Seq<char>, email: Seq<char>, age: Seq<char>)
    -> Fields {
    seq![("id"@, id), ("name"@, name), ("email"@, email), ("age"@, age)]
}

/// The demo table: four columns and three users.
pub open spec fn demo_table() -> TableView {
    TableView {
        columns: seq!["id"@, "name"@, "email"@, "age"@],
        rows: seq![
            user_fields("1"@, "Alice"@, "alice@example.com"@, "25"@),
            user_fields("2"@, "Bob"@, "bob@example.com"@, "30"@),
            user_fields("3"@, "Charlie"@, "charlie@example.com"@, "28"@),
        ],
    }
}

/// A row for one user of the demo table.
fn user_row(id: &str, name: &str, email: &str, age: &str) -> (row: Row)
    ensures
        row.wf(),
        row@ == user_fields(id@, name@, email@, age@),
{
    proof {
        reveal_strlit("id");
        reveal_strlit("name");
        reveal_strlit("email");
        reveal_strlit("age");
        assert("id"@.len() == 2 && "name"@.len() == 4 && "email"@.len() == 5 && "age"@.len() == 3);
    }
    let mut row = Row::new();
    let ghost r0 = row@;
    row.insert("id".to_owned(), id.to_owned());
    let ghost r1 = row@;
    assert(r1 =~= seq![("id"@, id@)]);
    assert(columns_of(r1) =~= seq!["id"@]);
    assert(!columns_of(r1).contains("name"@)) by {
        assert(forall|i: int| 0 <= i < columns_of(r1).len() ==> columns_of(r1)[i] == "id"@);
    }
    row.insert("name".to_owned(), name.to_owned());
    let ghost r2 = row@;
    assert(r2 =~= seq![("id"@, id@), ("name"@, name@)]);
    assert(columns_of(r2) =~= seq!["id"@, "name"@]);
    assert(!columns_of(r2).contains("email"@)) by {
        assert(forall|i: int|
            0 <= i < columns_of(r2).len() ==> columns_of(r2)[i].len() != "email"@.len());
    }
    row.insert("email".to_owned(), email.to_owned());
    let ghost r3 = row@;
    assert(r3 =~= seq![("id"@, id@), ("name"@, name@), ("email"@, email@)]);
    assert(columns_of(r3) =~= seq!["id"@, "name"@, "email"@]);
    assert(!columns_of(r3).contains("age"@)) by {
        assert(forall|i: int|
            0 <= i < columns_of(r3).len() ==> columns_of(r3)[i].len() != "age"@.len());
    }
    row.insert("age".to_owned(), age.to_owned());
    assert(row@ =~= user_fields(id@, name@, email@, age@));
    row
}

/// Adds the demo table `users` with its three rows, unless a table of that
/// name exists; then the engine stays as it was.
pub fn setup_demo_data(storage: &mut StorageEngine) -> (result: Result<(), DatabaseError>)
    requires
        old(storage).wf(),
    ensures
        final(storage).wf(),
        match result {
            Ok(_) => !has_table(old(storage)@, "users"@) && final(storage)@ == old(storage)@.push(
                ("users"@, demo_table()),
            ),
            Err(e) => has_table(old(storage)@, "users"@) && e@ == Failure::DuplicateTable(
                "users"@,
            ) && final(storage)@ == old(storage)@,
        },
{
    let mut columns: Vec<String> = Vec::new();
    columns.push("id".to_owned());
    columns.push("name".to_owned());
    columns.push("email".to_owned());
    columns.push("age".to_owned());
    assert(texts(columns@) =~= seq!["id"@, "name"@, "email"@, "age"@]);
    let mut table = Table::new(columns);
    let first = user_row("1", "Alice", "alice@example.com", "25");
    let second = user_row("2", "Bob", "bob@example.com", "30");
    let third = user_row("3", "Charlie", "charlie@example.com", "28");
    proof {
        lemma_user_covers(first@);
        lemma_user_covers(second@);
        lemma_user_covers(third@);
    }
    let _ = table.insert_row(first);
    let _ = table.insert_row(second);
    let _ = table.insert_row(third);
    assert(table@.rows =~= demo_table().rows);
    storage.add_table("users", table)
}

/// The fields of a user hold a value for each column of the demo table.
proof fn lemma_user_covers(fields: Fields)
    requires
        columns_of(fields) =~= seq!["id"@, "name"@, "email"@, "age"@],
    ensures
        covers(fields, seq!["id"@, "name"@, "email"@, "age"@]),
{
    let names = columns_of(fields);
    assert(names[0] == "id"@);
    assert(names[1] == "name"@);
    assert(names[2] == "email"@);
    assert(names[3] == "age"@);
}

} // verus!
