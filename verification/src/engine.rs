use crate::error::DatabaseError;
use crate::error::Failure;
use crate::schema::appended;
use crate::schema::conforms;
use crate::schema::covers;
use crate::schema::listing;
use crate::schema::matching;
use crate::schema::numbered;
use crate::schema::same_table;
use crate::schema::Row;
use crate::schema::Table;
use crate::schema::TableView;
use crate::text::str_eq;
use crate::text::texts;
use vstd::prelude::*;

verus! {

/// The tables of an engine as mathematics: pairs of name and table, in the
/// order in which the tables were created.
pub type Tables = Seq<(Seq<char>, TableView)>;

/// Named tables as mathematics.
pub open spec fn named(tables: Seq<(String, Table)>) -> Tables {
    tables.map_values(|t: (String, Table)| (t.0@, t.1@))
}

/// The names of `tables`, in order.
pub open spec fn names_of(tables: Tables) -> Seq<Seq<char>> {
    tables.map_values(|t: (Seq<char>, TableView)| t.0)
}

/// Whether `tables` has a table called `name`.
pub open spec fn has_table(tables: Tables, name: Seq<char>) -> bool {
    names_of(tables).contains(name)
}

/// Where the table called `name` stands; meaningful only if there is one.
pub open spec fn place_of(tables: Tables, name: Seq<char>) -> int {
    names_of(tables).index_of(name)
}

/// The table called `name`; meaningful only if there is one.
pub open spec fn table_of(tables: Tables, name: Seq<char>) -> TableView {
    tables[place_of(tables, name)].1
}

/// No name occurs twice, and every table conforms to its schema.
pub open spec fn valid(tables: Tables) -> bool {
    &&& names_of(tables).no_duplicates()
    &&& forall|i: int| 0 <= i < tables.len() ==> conforms((#[trigger] tables[i]).1)
}

/// `tables` with the table called `name` replaced by `table`.
pub open spec fn with_table(tables: Tables, name: Seq<char>, table: TableView) -> Tables {
    tables.update(place_of(tables, name), (name, table))
}

/// Whether `tables` has a table of the same name as `named` and equal to it.
pub open spec fn has_equal(tables: Tables, named: (Seq<char>, TableView)) -> bool {
    exists|j: int|
        0 <= j < tables.len() && (#[trigger] tables[j]).0 == named.0 && same_table(
            named.1,
            tables[j].1,
        )
}

/// Whether every table of `a` has an equal table of the same name in `b`.
pub open spec fn tables_within(a: Tables, b: Tables) -> bool {
    forall|i: int| 0 <= i < a.len() ==> has_equal(b, #[trigger] a[i])
}

/// Whether two engines hold equal tables under the same names, in whatever
/// order.
pub open spec fn same_tables(a: Tables, b: Tables) -> bool {
    tables_within(a, b) && tables_within(b, a)
}

/// Among tables with distinct names, a name is found where it stands.
pub proof fn lemma_place(tables: Tables, i: int)
    requires
        names_of(tables).no_duplicates(),
        0 <= i < tables.len(),
    ensures
        has_table(tables, tables[i].0),
        place_of(tables, tables[i].0) == i,
        table_of(tables, tables[i].0) == tables[i].1,
{
    assert(names_of(tables)[i] == tables[i].0);
}

/// In a valid state every row of every table has a value for each column
/// that its table declares.
pub proof fn lemma_rows_cover(tables: Tables, i: int, id: int)
    requires
        valid(tables),
        0 <= i < tables.len(),
        0 <= id < tables[i].1.rows.len(),
    ensures
        covers(tables[i].1.rows[id], tables[i].1.columns),
{
    assert(conforms(tables[i].1));
}

/// A name that is held stands at a place within the tables.
pub proof fn lemma_held(tables: Tables, name: Seq<char>)
    requires
        has_table(tables, name),
    ensures
        0 <= place_of(tables, name) < tables.len(),
        tables[place_of(tables, name)].0 == name,
{
    let p = place_of(tables, name);
    assert(names_of(tables)[p] == name);
}

/// The whole store: tables by name.
///
/// Every operation applies its one effect in full or leaves the engine as
/// it was. Two engines are equal when they hold equal tables under the same
/// names.
#[derive(Debug, Eq)]
pub struct StorageEngine {
    tables: Vec<(String, Table)>,
}

impl View for StorageEngine {
    type V = Tables;

    closed spec fn view(&self) -> Tables {
        named(self.tables@)
    }
}

impl PartialEq for StorageEngine {
    fn eq(&self, other: &StorageEngine) -> (same: bool) {
        self.within(other) && other.within(self)
    }
}

impl vstd::std_specs::cmp::PartialEqSpecImpl for StorageEngine {
    open spec fn obeys_eq_spec() -> bool {
        true
    }

    open spec fn eq_spec(&self, other: &StorageEngine) -> bool {
        same_tables(self@, other@)
    }
}

impl Default for StorageEngine {
    fn default() -> (engine: StorageEngine)
        ensures
            engine.wf(),
            engine@ == Seq::<(Seq<char>, TableView)>::empty(),
    {
        StorageEngine::new()
    }
}

impl StorageEngine {
    /// No name occurs twice, and every table conforms to its schema.
    pub open spec fn wf(&self) -> bool {
        valid(self@)
    }

    /// Whether every table of this engine has an equal table of the same
    /// name in `other`.
    fn within(&self, other: &StorageEngine) -> (all: bool)
        ensures
            all == tables_within(self@, other@),
    {
        let mut i: usize = 0;
        while i < self.tables.len()
            invariant
                i <= self.tables.len(),
                forall|k: int| 0 <= k < i ==> has_equal(other@, #[trigger] self@[k]),
            decreases self.tables.len() - i,
        {
            let mut j: usize = 0;
            let mut hit = false;
            while j < other.tables.len() && !hit
                invariant
                    j <= other.tables.len(),
                    i < self.tables.len(),
                    hit ==> has_equal(other@, self@[i as int]),
                    !hit ==> forall|k: int|
                        0 <= k < j ==> !((#[trigger] other@[k]).0 == self@[i as int].0
                            && same_table(self@[i as int].1, other@[k].1)),
                decreases other.tables.len() - j, if hit { 0int } else { 1int },
            {
                if str_eq(self.tables[i].0.as_str(), other.tables[j].0.as_str())
                    && self.tables[i].1 == other.tables[j].1 {
                    assert(other@[j as int].0 == self@[i as int].0 && same_table(
                        self@[i as int].1,
                        other@[j as int].1,
                    ));
                    hit = true;
                } else {
                    j += 1;
                }
            }
            if !hit {
                assert(other@.len() == j);
                assert(!has_equal(other@, self@[i as int]));
                return false;
            }
            i += 1;
        }
        true
    }

    /// An engine without tables.
    pub fn new() -> (engine: StorageEngine)
        ensures
            engine.wf(),
            engine@ == Seq::<(Seq<char>, TableView)>::empty(),
    {
        let engine = StorageEngine { tables: Vec::new() };
        assert(engine@ =~= Seq::<(Seq<char>, TableView)>::empty());
        engine
    }

    /// All tables with their names, in the order of creation.
    pub fn tables(&self) -> (tables: &Vec<(String, Table)>)
        ensures
            named(tables@) == self@,
    {
        &self.tables
    }

    /// Where the table called `name` stands, if there is one.
    fn find(&self, name: &str) -> (place: Option<usize>)
        requires
            self.wf(),
        ensures
            match place {
                Some(i) => has_table(self@, name@) && i == place_of(self@, name@) && i
                    < self.tables@.len(),
                None => !has_table(self@, name@),
            },
    {
        let mut i: usize = 0;
        while i < self.tables.len()
            invariant
                i <= self.tables.len(),
                self.wf(),
                forall|k: int| 0 <= k < i ==> self@[k].0 != name@,
            decreases self.tables.len() - i,
        {
            if str_eq(self.tables[i].0.as_str(), name) {
                proof {
                    lemma_place(self@, i as int);
                }
                return Some(i);
            }
            i += 1;
        }
        proof {
            if has_table(self@, name@) {
                lemma_held(self@, name@);
            }
        }
        None
    }

    /// Creates an empty table called `name` with the given columns, unless
    /// a table of that name exists.
    pub fn create_table(&mut self, name: &str, columns: Vec<String>) -> (result: Result<
        (),
        DatabaseError,
    >)
        requires
            old(self).wf(),
        ensures
            final(self).wf(),
            match result {
                Ok(_) => !has_table(old(self)@, name@) && final(self)@ == old(self)@.push(
                    (name@, TableView { columns: texts(columns@), rows: Seq::empty() }),
                ),
                Err(e) => has_table(old(self)@, name@) && e@ == Failure::DuplicateTable(name@)
                    && final(self)@ == old(self)@,
            },
    {
        self.add_table(name, Table::new(columns))
    }

    /// Adds `table` under `name`, rows and all, unless a table of that name
    /// exists.
    pub fn add_table(&mut self, name: &str, table: Table) -> (result: Result<(), DatabaseError>)
        requires
            old(self).wf(),
            table.wf(),
        ensures
            final(self).wf(),
            match result {
                Ok(_) => !has_table(old(self)@, name@) && final(self)@ == old(self)@.push(
                    (name@, table@),
                ),
                Err(e) => has_table(old(self)@, name@) && e@ == Failure::DuplicateTable(name@)
                    && final(self)@ == old(self)@,
            },
    {
        if self.find(name).is_some() {
            return Err(DatabaseError::DuplicateTable(name.to_owned()));
        }
        let ghost before = self@;
        self.tables.push((name.to_owned(), table));
        proof {
            assert(self@ =~= before.push((name@, table@)));
            assert(names_of(self@) =~= names_of(before).push(name@));
            assert forall|i: int, j: int| 0 <= i < j < names_of(self@).len() implies names_of(
                self@,
            )[i] != names_of(self@)[j] by {
                if j == before.len() {
                    assert(names_of(before)[i] != name@);
                }
            }
        }
        Ok(())
    }

    /// Appends `row` to the table called `table_name` and gives its id.
    pub fn insert_row(&mut self, table_name: &str, row: Row) -> (result: Result<
        usize,
        DatabaseError,
    >)
        requires
            old(self).wf(),
            row.wf(),
        ensures
            final(self).wf(),
            match result {
                Ok(id) => {
                    let table = table_of(old(self)@, table_name@);
                    &&& has_table(old(self)@, table_name@)
                    &&& covers(row@, table.columns)
                    &&& id == table.rows.len()
                    &&& final(self)@ == with_table(old(self)@, table_name@, appended(table, row@))
                },
                Err(e) => {
                    &&& final(self)@ == old(self)@
                    &&& if has_table(old(self)@, table_name@) {
                        !covers(row@, table_of(old(self)@, table_name@).columns) && e@
                            == Failure::SchemaViolation
                    } else {
                        e@ == Failure::TableNotFound(table_name@)
                    }
                },
            },
    {
        match self.find(table_name) {
            Some(i) => {
                let ghost before = self@;
                assert(conforms(before[i as int].1));
                let table = &mut self.tables[i].1;
                let result = table.insert_row(row);
                proof {
                    lemma_held(before, table_name@);
                    assert(self@.len() == before.len());
                    assert(names_of(self@) =~= names_of(before));
                    if result is Ok {
                        assert(self@ =~= with_table(
                            before,
                            table_name@,
                            appended(before[i as int].1, row@),
                        ));
                    } else {
                        assert(self@ =~= before);
                    }
                }
                result
            },
            None => Err(DatabaseError::TableNotFound(table_name.to_owned())),
        }
    }

    /// All rows of the table called `table_name`, with their ids, in the
    /// order of insertion.
    pub fn select_all(&self, table_name: &str) -> (result: Result<
        Vec<(usize, &Row)>,
        DatabaseError,
    >)
        requires
            self.wf(),
        ensures
            match result {
                Ok(found) => has_table(self@, table_name@) && listing(found@) == numbered(
                    table_of(self@, table_name@).rows,
                ),
                Err(e) => !has_table(self@, table_name@) && e@ == Failure::TableNotFound(
                    table_name@,
                ),
            },
    {
        match self.find(table_name) {
            Some(i) => Ok(self.tables[i].1.get_all_rows()),
            None => Err(DatabaseError::TableNotFound(table_name.to_owned())),
        }
    }

    /// The rows of the table called `table_name` that hold exactly `value`
    /// for `column`, with their ids, in the order of insertion.
    pub fn select_where(&self, table_name: &str, column: &str, value: &str) -> (result: Result<
        Vec<(usize, &Row)>,
        DatabaseError,
    >)
        requires
            self.wf(),
        ensures
            match result {
                Ok(found) => has_table(self@, table_name@) && listing(found@) == matching(
                    table_of(self@, table_name@).rows,
                    column@,
                    value@,
                ),
                Err(e) => !has_table(self@, table_name@) && e@ == Failure::TableNotFound(
                    table_name@,
                ),
            },
    {
        match self.find(table_name) {
            Some(i) => {
                assert(conforms(self@[i as int].1));
                Ok(self.tables[i].1.select_where(column, value))
            },
            None => Err(DatabaseError::TableNotFound(table_name.to_owned())),
        }
    }

    /// The declared columns of the table called `name`.
    pub fn describe_table(&self, name: &str) -> (result: Result<&Vec<String>, DatabaseError>)
        requires
            self.wf(),
        ensures
            match result {
                Ok(columns) => has_table(self@, name@) && texts(columns@) == table_of(
                    self@,
                    name@,
                ).columns,
                Err(e) => !has_table(self@, name@) && e@ == Failure::TableNotFound(name@),
            },
    {
        match self.find(name) {
            Some(i) => Ok(self.tables[i].1.columns()),
            None => Err(DatabaseError::TableNotFound(name.to_owned())),
        }
    }

    /// The names of all tables, in the order of creation.
    pub fn list_tables(&self) -> (names: Vec<&String>)
        ensures
            names@.map_values(|n: &String| n@) == names_of(self@),
    {
        let mut names: Vec<&String> = Vec::new();
        let mut i: usize = 0;
        while i < self.tables.len()
            invariant
                i <= self.tables.len(),
                names@.len() == i,
                forall|k: int| 0 <= k < i ==> (#[trigger] names@[k])@ == self.tables@[k].0@,
            decreases self.tables.len() - i,
        {
            names.push(&self.tables[i].0);
            i += 1;
        }
        assert(names@.map_values(|n: &String| n@) =~= names_of(self@));
        names
    }

    /// Removes the table called `name` with all its rows.
    pub fn drop_table(&mut self, name: &str) -> (result: Result<(), DatabaseError>)
        requires
            old(self).wf(),
        ensures
            final(self).wf(),
            match result {
                Ok(_) => has_table(old(self)@, name@) && final(self)@ == old(self)@.remove(
                    place_of(old(self)@, name@),
                ),
                Err(e) => !has_table(old(self)@, name@) && e@ == Failure::TableNotFound(name@)
                    && final(self)@ == old(self)@,
            },
    {
        match self.find(name) {
            Some(i) => {
                let ghost before = self@;
                let _ = self.tables.remove(i);
                proof {
                    assert(self@ =~= before.remove(i as int));
                    assert(names_of(self@) =~= names_of(before).remove(i as int));
                    assert forall|a: int, b: int|
                        0 <= a < b < names_of(self@).len() implies names_of(self@)[a] != names_of(
                        self@,
                    )[b] by {
                        let a0 = if a < i { a } else { a + 1 };
                        let b0 = if b < i { b } else { b + 1 };
                        assert(names_of(before)[a0] != names_of(before)[b0]);
                    }
                }
                Ok(())
            },
            None => Err(DatabaseError::TableNotFound(name.to_owned())),
        }
    }
}

} // verus!
