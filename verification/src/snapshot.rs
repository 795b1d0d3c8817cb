use crate::engine::named;
use crate::engine::place_of;
use crate::engine::names_of;
use crate::engine::valid;
use crate::engine::StorageEngine;
use crate::engine::Tables;
use crate::error::DatabaseError;
use crate::error::Failure;
use crate::schema::columns_of;
use crate::schema::covers;
use crate::schema::distinct;
use crate::schema::listing;
use crate::schema::numbered;
use crate::schema::position;
use crate::schema::Fields;
use crate::schema::Row;
use crate::schema::Table;
use crate::schema::TableView;
use crate::text::pair_texts;
use crate::text::str_eq;
use crate::text::texts;
use vstd::prelude::*;

verus! {

/// The rows of a table in a snapshot: each with its id, in any order.
pub type StoredRows = Vec<(u64, Vec<(String, String)>)>;

/// The whole state of an engine as plain values: for each table its name,
/// its columns and its rows.
pub type Snapshot = Vec<(String, (Vec<String>, StoredRows))>;

/// One table of a snapshot as mathematics.
pub type StoredTable = (Seq<char>, (Seq<Seq<char>>, Seq<(int, Fields)>));

/// Stored rows as mathematics.
pub open spec fn rows_view(rows: Seq<(u64, Vec<(String, String)>)>) -> Seq<(int, Fields)> {
    rows.map_values(|r: (u64, Vec<(String, String)>)| (r.0 as int, pair_texts(r.1@)))
}

/// A snapshot as mathematics.
pub open spec fn snapshot_view(snapshot: Seq<(String, (Vec<String>, StoredRows))>) -> Seq<
    StoredTable,
> {
    snapshot.map_values(
        |t: (String, (Vec<String>, StoredRows))| (t.0@, (texts(t.1.0@), rows_view(t.1.1@))),
    )
}

/// The snapshot of an engine: its tables in order, the rows of each in the
/// order of their ids.
pub open spec fn snapshot_of(tables: Tables) -> Seq<StoredTable> {
    tables.map_values(|t: (Seq<char>, TableView)| (t.0, (t.1.columns, numbered(t.1.rows))))
}

/// The first row stored under `id`, if any.
pub open spec fn row_with_id(rows: Seq<(int, Fields)>, id: int) -> Option<Fields>
    decreases rows.len(),
{
    if rows.len() == 0 {
        None
    } else if rows[0].0 == id {
        Some(rows[0].1)
    } else {
        row_with_id(rows.skip(1), id)
    }
}

/// Whether the stored rows make up a table with the given columns: under
/// each id from 0 to their number a row is stored, with distinct columns
/// and a value for each declared column.
pub open spec fn rows_fit(columns: Seq<Seq<char>>, rows: Seq<(int, Fields)>) -> bool {
    forall|id: int|
        0 <= id < rows.len() ==> match #[trigger] row_with_id(rows, id) {
            Some(fields) => distinct(fields) && covers(fields, columns),
            None => false,
        }
}

/// The table that the stored rows make up.
pub open spec fn table_from(columns: Seq<Seq<char>>, rows: Seq<(int, Fields)>) -> TableView {
    TableView { columns, rows: Seq::new(rows.len(), |id: int| row_with_id(rows, id).unwrap()) }
}

/// The names of the tables of a snapshot.
pub open spec fn stored_names(snapshot: Seq<StoredTable>) -> Seq<Seq<char>> {
    snapshot.map_values(|t: StoredTable| t.0)
}

/// Whether a snapshot holds a valid state: no two tables share a name, and
/// the rows of each table fit it.
pub open spec fn sound(snapshot: Seq<StoredTable>) -> bool {
    &&& stored_names(snapshot).no_duplicates()
    &&& forall|i: int|
        0 <= i < snapshot.len() ==> rows_fit((#[trigger] snapshot[i]).1.0, snapshot[i].1.1)
}

/// The tables that a sound snapshot holds.
pub open spec fn restored(snapshot: Seq<StoredTable>) -> Tables {
    snapshot.map_values(|t: StoredTable| (t.0, table_from(t.1.0, t.1.1)))
}

/// In the numbered rows of a table each row is found under its id.
pub proof fn lemma_row_with_id(rows: Seq<Fields>, id: int)
    requires
        0 <= id < rows.len(),
    ensures
        row_with_id(numbered(rows), id) == Some(rows[id]),
{
    lemma_row_from(rows, 0, id);
    assert(numbered(rows).skip(0) =~= numbered(rows));
}

proof fn lemma_row_from(rows: Seq<Fields>, from: int, id: int)
    requires
        0 <= from <= id < rows.len(),
    ensures
        row_with_id(numbered(rows).skip(from), id) == Some(rows[id]),
    decreases id - from,
{
    let rest = numbered(rows).skip(from);
    assert(rest[0] == (from, rows[from]));
    if from < id {
        lemma_row_from(rows, from + 1, id);
        assert(rest.skip(1) =~= numbered(rows).skip(from + 1));
    }
}

/// The snapshot of a valid state is sound and holds that state.
pub proof fn lemma_snapshot_round_trip(tables: Tables)
    requires
        valid(tables),
    ensures
        sound(snapshot_of(tables)),
        restored(snapshot_of(tables)) == tables,
{
    let snapshot = snapshot_of(tables);
    assert(stored_names(snapshot) =~= names_of(tables));
    assert forall|i: int| 0 <= i < snapshot.len() implies rows_fit(
        (#[trigger] snapshot[i]).1.0,
        snapshot[i].1.1,
    ) && table_from(snapshot[i].1.0, snapshot[i].1.1) == tables[i].1 by {
        let table = tables[i].1;
        assert(snapshot[i] == (tables[i].0, (table.columns, numbered(table.rows))));
        assert forall|id: int| 0 <= id < table.rows.len() implies row_with_id(
            numbered(table.rows),
            id,
        ) == Some(table.rows[id]) by {
            lemma_row_with_id(table.rows, id);
        }
        assert(table_from(table.columns, numbered(table.rows)).rows =~= table.rows);
    }
    assert(restored(snapshot) =~= tables);
}

/// Why a snapshot that is not sound is refused.
pub open spec fn fault_of(snapshot: Seq<StoredTable>) -> Seq<char> {
    if !stored_names(snapshot).no_duplicates() {
        "two tables share a name"@
    } else {
        "the rows of a table do not fit it"@
    }
}

/// A `CorruptData` error with the given detail.
fn corrupt(detail: &str) -> (e: DatabaseError)
    ensures
        e@ == Failure::CorruptData(detail@),
{
    DatabaseError::CorruptData(detail.to_owned())
}

/// A copy of `items`.
fn copy_strings(items: &Vec<String>) -> (copy: Vec<String>)
    ensures
        texts(copy@) == texts(items@),
{
    let mut copy: Vec<String> = Vec::new();
    let mut i: usize = 0;
    while i < items.len()
        invariant
            i <= items.len(),
            copy@.len() == i,
            forall|k: int| 0 <= k < i ==> (#[trigger] copy@[k])@ == items@[k]@,
        decreases items.len() - i,
    {
        copy.push(items[i].clone());
        i += 1;
    }
    assert(texts(copy@) =~= texts(items@));
    copy
}

/// A copy of the fields of `row`, in its order.
fn copy_fields(row: &Row) -> (copy: Vec<(String, String)>)
    ensures
        pair_texts(copy@) == row@,
{
    let entries = row.entries();
    let mut copy: Vec<(String, String)> = Vec::new();
    let mut i: usize = 0;
    while i < entries.len()
        invariant
            i <= entries.len(),
            copy@.len() == i,
            forall|k: int|
                0 <= k < i ==> (#[trigger] copy@[k]).0@ == entries@[k].0@ && copy@[k].1@
                    == entries@[k].1@,
        decreases entries.len() - i,
    {
        copy.push((entries[i].0.clone(), entries[i].1.clone()));
        i += 1;
    }
    assert(pair_texts(copy@) =~= pair_texts(entries@));
    copy
}

/// The row with exactly the given fields, if their columns are distinct.
fn row_from(pairs: &Vec<(String, String)>) -> (found: Option<Row>)
    ensures
        match found {
            Some(row) => distinct(pair_texts(pairs@)) && row@ == pair_texts(pairs@) && row.wf(),
            None => !distinct(pair_texts(pairs@)),
        },
{
    let ghost all = pair_texts(pairs@);
    let mut row = Row::new();
    let mut i: usize = 0;
    while i < pairs.len()
        invariant
            i <= pairs.len(),
            all == pair_texts(pairs@),
            row.wf(),
            row@ == all.take(i as int),
        decreases pairs.len() - i,
    {
        assert(all[i as int] == (pairs@[i as int].0@, pairs@[i as int].1@));
        if row.get(pairs[i].0.as_str()).is_some() {
            proof {
                let taken = all.take(i as int);
                let p = position(taken, all[i as int].0);
                assert(columns_of(taken)[p] == all[i as int].0);
                assert(columns_of(all)[p] == columns_of(all)[i as int]);
            }
            return None;
        }
        row.insert(pairs[i].0.clone(), pairs[i].1.clone());
        assert(row@ =~= all.take(i + 1));
        i += 1;
    }
    assert(all.take(pairs.len() as int) =~= all);
    Some(row)
}

/// The fields stored first under `id`, if any.
fn find_row(rows: &StoredRows, id: usize) -> (found: Option<usize>)
    ensures
        match found {
            Some(j) => j < rows@.len() && row_with_id(rows_view(rows@), id as int) == Some(
                pair_texts(rows@[j as int].1@),
            ),
            None => row_with_id(rows_view(rows@), id as int) is None,
        },
{
    let ghost all = rows_view(rows@);
    let mut j: usize = 0;
    assert(all.skip(0) =~= all);
    while j < rows.len()
        invariant
            j <= rows.len(),
            all == rows_view(rows@),
            row_with_id(all, id as int) == row_with_id(all.skip(j as int), id as int),
        decreases rows.len() - j,
    {
        assert(all.skip(j as int)[0] == all[j as int]);
        assert(all[j as int] == (rows@[j as int].0 as int, pair_texts(rows@[j as int].1@)));
        if rows[j].0 == id as u64 {
            return Some(j);
        }
        assert(all.skip(j as int).skip(1) =~= all.skip(j + 1));
        j += 1;
    }
    None
}

/// The table that the stored rows make up, if they fit the columns.
fn table_of_rows(columns: &Vec<String>, rows: &StoredRows) -> (found: Option<Table>)
    ensures
        match found {
            Some(table) => rows_fit(texts(columns@), rows_view(rows@)) && table.wf() && table@
                == table_from(texts(columns@), rows_view(rows@)),
            None => !rows_fit(texts(columns@), rows_view(rows@)),
        },
{
    let ghost all = rows_view(rows@);
    let ghost names = texts(columns@);
    let mut table = Table::new(copy_strings(columns));
    let mut id: usize = 0;
    while id < rows.len()
        invariant
            id <= rows.len(),
            all == rows_view(rows@),
            names == texts(columns@),
            table.wf(),
            table@.columns == names,
            table@.rows.len() == id,
            forall|k: int|
                0 <= k < id ==> match #[trigger] row_with_id(all, k) {
                    Some(fields) => distinct(fields) && covers(fields, names) && table@.rows[k]
                        == fields,
                    None => false,
                },
        decreases rows.len() - id,
    {
        let row = match find_row(rows, id) {
            Some(j) => match row_from(&rows[j].1) {
                Some(row) => row,
                None => {
                    return None;
                },
            },
            None => {
                return None;
            },
        };
        match table.insert_row(row) {
            Ok(_) => {},
            Err(_) => {
                return None;
            },
        }
        id += 1;
    }
    assert(table@.rows =~= table_from(names, all).rows);
    Some(table)
}

/// Whether no two tables of a snapshot share a name.
fn names_differ(snapshot: &Snapshot) -> (yes: bool)
    ensures
        yes == stored_names(snapshot_view(snapshot@)).no_duplicates(),
{
    let ghost names = stored_names(snapshot_view(snapshot@));
    let mut i: usize = 0;
    while i < snapshot.len()
        invariant
            i <= snapshot.len(),
            names == stored_names(snapshot_view(snapshot@)),
            forall|a: int, b: int| 0 <= a < b < i ==> names[a] != names[b],
        decreases snapshot.len() - i,
    {
        let mut j: usize = 0;
        while j < i
            invariant
                j <= i < snapshot.len(),
                names == stored_names(snapshot_view(snapshot@)),
                forall|a: int| 0 <= a < j ==> names[a] != names[i as int],
            decreases i - j,
        {
            assert(names[j as int] == snapshot@[j as int].0@);
            assert(names[i as int] == snapshot@[i as int].0@);
            if str_eq(snapshot[j].0.as_str(), snapshot[i].0.as_str()) {
                return false;
            }
            j += 1;
        }
        i += 1;
    }
    true
}

/// The stored form of the rows of `table`, in the order of their ids.
fn stored_rows(table: &Table) -> (stored: StoredRows)
    ensures
        rows_view(stored@) == numbered(table@.rows),
{
    let rows = table.get_all_rows();
    let mut stored: StoredRows = Vec::new();
    let mut id: usize = 0;
    assert(listing(rows@).len() == rows@.len());
    while id < rows.len()
        invariant
            id <= rows.len(),
            rows@.len() == table@.rows.len(),
            listing(rows@) == numbered(table@.rows),
            stored@.len() == id,
            forall|k: int| 0 <= k < id ==> (#[trigger] rows_view(stored@)[k]) == (k, table@.rows[k]),
        decreases rows.len() - id,
    {
        assert(listing(rows@)[id as int] == (rows@[id as int].0 as int, rows@[id as int].1@));
        assert(numbered(table@.rows)[id as int] == (id as int, table@.rows[id as int]));
        let ghost earlier = rows_view(stored@);
        stored.push((id as u64, copy_fields(rows[id].1)));
        assert forall|k: int| 0 <= k < id + 1 implies (#[trigger] rows_view(stored@)[k]) == (
            k,
            table@.rows[k],
        ) by {
            if k < id {
                assert(rows_view(stored@)[k] == earlier[k]);
            } else {
                assert(rows_view(stored@)[k] == (stored@[k].0 as int, pair_texts(stored@[k].1@)));
            }
        }
        id += 1;
    }
    assert(rows_view(stored@) =~= numbered(table@.rows));
    stored
}

impl StorageEngine {
    /// The whole state as plain values: the tables in the order of their
    /// creation, the rows of each in the order of their ids.
    pub fn to_snapshot(&self) -> (snapshot: Snapshot)
        ensures
            snapshot_view(snapshot@) == snapshot_of(self@),
    {
        let tables = self.tables();
        let mut snapshot: Snapshot = Vec::new();
        let mut i: usize = 0;
        assert(named(tables@).len() == tables@.len());
        while i < tables.len()
            invariant
                i <= tables.len(),
                tables@.len() == self@.len(),
                named(tables@) == self@,
                snapshot@.len() == i,
                forall|k: int|
                    0 <= k < i ==> (#[trigger] snapshot_view(snapshot@)[k]) == snapshot_of(self@)[k],
            decreases tables.len() - i,
        {
            assert(self@[i as int] == (tables@[i as int].0@, tables@[i as int].1@));
            let table = &tables[i].1;
            let ghost earlier = snapshot_view(snapshot@);
            snapshot.push((tables[i].0.clone(), (copy_strings(table.columns()), stored_rows(table))));
            assert forall|k: int| 0 <= k < i + 1 implies (#[trigger] snapshot_view(snapshot@)[k])
                == snapshot_of(self@)[k] by {
                if k < i {
                    assert(snapshot_view(snapshot@)[k] == earlier[k]);
                }
            }
            i += 1;
        }
        assert(snapshot_view(snapshot@) =~= snapshot_of(self@));
        snapshot
    }

    /// The engine that a snapshot holds, if the snapshot is sound.
    pub fn from_snapshot(snapshot: &Snapshot) -> (result: Result<StorageEngine, DatabaseError>)
        ensures
            match result {
                Ok(engine) => sound(snapshot_view(snapshot@)) && engine.wf() && engine@
                    == restored(snapshot_view(snapshot@)),
                Err(e) => !sound(snapshot_view(snapshot@)) && e@ == Failure::CorruptData(
                    fault_of(snapshot_view(snapshot@)),
                ),
            },
    {
        let ghost all = snapshot_view(snapshot@);
        if !names_differ(snapshot) {
            return Err(corrupt("two tables share a name"));
        }
        let mut engine = StorageEngine::new();
        let mut i: usize = 0;
        while i < snapshot.len()
            invariant
                i <= snapshot.len(),
                all == snapshot_view(snapshot@),
                stored_names(all).no_duplicates(),
                engine.wf(),
                engine@.len() == i,
                forall|k: int|
                    0 <= k < i ==> rows_fit((#[trigger] all[k]).1.0, all[k].1.1) && engine@[k] == (
                        all[k].0,
                        table_from(all[k].1.0, all[k].1.1),
                    ),
            decreases snapshot.len() - i,
        {
            assert(all[i as int] == (
                snapshot@[i as int].0@,
                (texts(snapshot@[i as int].1.0@), rows_view(snapshot@[i as int].1.1@)),
            ));
            let table = match table_of_rows(&snapshot[i].1.0, &snapshot[i].1.1) {
                Some(table) => table,
                None => {
                    return Err(corrupt("the rows of a table do not fit it"));
                },
            };
            let ghost before = engine@;
            let added = engine.add_table(snapshot[i].0.as_str(), table);
            proof {
                if added is Err {
                    let p = place_of(before, all[i as int].0);
                    assert(names_of(before)[p] == all[i as int].0);
                    assert(stored_names(all)[p] == all[p].0);
                    assert(stored_names(all)[i as int] == all[i as int].0);
                    assert(false);
                }
            }
            i += 1;
        }
        proof {
            assert(engine@ =~= restored(all));
        }
        Ok(engine)
    }
}

} // verus!
