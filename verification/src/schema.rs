use crate::error::DatabaseError;
use crate::error::Failure;
use crate::text::pair_texts;
use crate::text::str_eq;
use crate::text::texts;
use vstd::prelude::*;

verus! {

/// The fields of a row as mathematics: pairs of column and value, in the
/// order in which the columns were first set.
pub type Fields = Seq<(Seq<char>, Seq<char>)>;

/// The columns of `fields`, in order.
pub open spec fn columns_of(fields: Fields) -> Seq<Seq<char>> {
    fields.map_values(|f: (Seq<char>, Seq<char>)| f.0)
}

/// No column occurs twice in `fields`.
pub open spec fn distinct(fields: Fields) -> bool {
    columns_of(fields).no_duplicates()
}

/// Whether `fields` holds a value for `column`.
pub open spec fn holds(fields: Fields, column: Seq<char>) -> bool {
    columns_of(fields).contains(column)
}

/// Where `column` stands in `fields`; meaningful only if it is held.
pub open spec fn position(fields: Fields, column: Seq<char>) -> int {
    columns_of(fields).index_of(column)
}

/// The value that `fields` holds for `column`, if any.
pub open spec fn value_of(fields: Fields, column: Seq<char>) -> Option<Seq<char>> {
    if holds(fields, column) {
        Some(fields[position(fields, column)].1)
    } else {
        None
    }
}

/// `fields` after `column` is set to `value`: a column already held keeps
/// its place, a new one goes to the end.
pub open spec fn put(fields: Fields, column: Seq<char>, value: Seq<char>) -> Fields {
    if holds(fields, column) {
        fields.update(position(fields, column), (column, value))
    } else {
        fields.push((column, value))
    }
}

/// `fields` as a mapping from column to value.
pub open spec fn as_map(fields: Fields) -> Map<Seq<char>, Seq<char>> {
    Map::new(
        |column: Seq<char>| holds(fields, column),
        |column: Seq<char>| fields[position(fields, column)].1,
    )
}

/// Whether `fields` holds a value for every name in `required`.
pub open spec fn covers(fields: Fields, required: Seq<Seq<char>>) -> bool {
    forall|i: int| 0 <= i < required.len() ==> holds(fields, #[trigger] required[i])
}

/// Among distinct fields, a column is found where it stands.
pub proof fn lemma_position(fields: Fields, i: int)
    requires
        distinct(fields),
        0 <= i < fields.len(),
    ensures
        holds(fields, fields[i].0),
        position(fields, fields[i].0) == i,
        value_of(fields, fields[i].0) == Some(fields[i].1),
{
    let names = columns_of(fields);
    assert(names[i] == fields[i].0);
}

/// Setting a column keeps the fields distinct, gives that column the new
/// value and leaves every other column as it was.
pub proof fn lemma_put(fields: Fields, column: Seq<char>, value: Seq<char>)
    requires
        distinct(fields),
    ensures
        distinct(put(fields, column, value)),
        as_map(put(fields, column, value)) == as_map(fields).insert(column, value),
        value_of(put(fields, column, value), column) == Some(value),
        forall|other: Seq<char>|
            other != column ==> value_of(put(fields, column, value), other) == value_of(
                fields,
                other,
            ),
{
    let after = put(fields, column, value);
    let names = columns_of(fields);
    let names_after = columns_of(after);
    if holds(fields, column) {
        let p = position(fields, column);
        assert(names[p] == column);
        assert(names_after =~= names);
        assert forall|other: Seq<char>| holds(after, other) implies #[trigger] value_of(
            after,
            other,
        ) == (if other == column {
            Some(value)
        } else {
            value_of(fields, other)
        }) by {
            let q = position(fields, other);
            assert(names[q] == other);
        }
    } else {
        assert(names_after =~= names.push(column));
        assert forall|i: int, j: int| 0 <= i < j < names_after.len() implies names_after[i]
            != names_after[j] by {
            if j == names.len() {
                assert(names[i] != column);
            }
        }
        assert(names_after[names.len() as int] == column);
        assert forall|other: Seq<char>| holds(after, other) implies #[trigger] value_of(
            after,
            other,
        ) == (if other == column {
            Some(value)
        } else {
            value_of(fields, other)
        }) by {
            let q = position(after, other);
            assert(names_after[q] == other);
            if other == column {
                lemma_position(after, names.len() as int);
            } else {
                assert(names[q] == other);
                lemma_position(fields, q);
                lemma_position(after, q);
            }
        }
        assert forall|other: Seq<char>| holds(fields, other) implies holds(after, other) by {
            let q = position(fields, other);
            assert(names[q] == other);
            assert(names_after[q] == other);
        }
    }
    assert(holds(after, column));
    assert forall|other: Seq<char>| other != column implies value_of(after, other) == value_of(
        fields,
        other,
    ) by {
        if holds(after, other) {
        } else if holds(fields, other) {
            let q = position(fields, other);
            assert(names[q] == other);
            assert(names_after[q] == other);
        }
    }
    assert(as_map(after) =~= as_map(fields).insert(column, value)) by {
        assert forall|k: Seq<char>| as_map(after).contains_key(k) <==> as_map(fields).insert(
            column,
            value,
        ).contains_key(k) by {
            if k != column {
                assert(value_of(after, k) == value_of(fields, k));
            }
        }
        assert forall|k: Seq<char>| as_map(after).contains_key(k) implies as_map(after)[k]
            == as_map(fields).insert(column, value)[k] by {
            if k != column {
                assert(value_of(after, k) == value_of(fields, k));
            } else {
                assert(value_of(after, k) == Some(value));
            }
        }
    }
}

/// Whether two sequences of fields hold the same pairs, in whatever order.
pub open spec fn same_fields(a: Fields, b: Fields) -> bool {
    forall|pair: (Seq<char>, Seq<char>)| a.contains(pair) <==> b.contains(pair)
}

/// Distinct fields hold the same pairs exactly when they are the same
/// mapping.
pub proof fn lemma_same_fields(a: Fields, b: Fields)
    requires
        distinct(a),
        distinct(b),
    ensures
        same_fields(a, b) <==> as_map(a) == as_map(b),
{
    if same_fields(a, b) {
        assert forall|k: Seq<char>| holds(a, k) implies holds(b, k) && value_of(a, k) == value_of(
            b,
            k,
        ) by {
            lemma_same_fields_half(a, b, k);
        }
        assert forall|k: Seq<char>| holds(b, k) implies holds(a, k) by {
            lemma_same_fields_half(b, a, k);
        }
        assert(as_map(a) =~= as_map(b));
    }
    if as_map(a) == as_map(b) {
        assert forall|pair: (Seq<char>, Seq<char>)| a.contains(pair) implies b.contains(pair) by {
            lemma_map_half(a, b, pair);
        }
        assert forall|pair: (Seq<char>, Seq<char>)| b.contains(pair) implies a.contains(pair) by {
            lemma_map_half(b, a, pair);
        }
    }
}

proof fn lemma_same_fields_half(a: Fields, b: Fields, k: Seq<char>)
    requires
        distinct(a),
        distinct(b),
        same_fields(a, b),
        holds(a, k),
    ensures
        holds(b, k),
        value_of(a, k) == value_of(b, k),
{
    let p = position(a, k);
    assert(columns_of(a)[p] == k);
    lemma_position(a, p);
    assert(a.contains(a[p]));
    assert(b.contains(a[p]));
    let q = choose|q: int| 0 <= q < b.len() && b[q] == a[p];
    assert(columns_of(b)[q] == k);
    lemma_position(b, q);
}

proof fn lemma_map_half(a: Fields, b: Fields, pair: (Seq<char>, Seq<char>))
    requires
        distinct(a),
        distinct(b),
        as_map(a) == as_map(b),
        a.contains(pair),
    ensures
        b.contains(pair),
{
    let p = choose|p: int| 0 <= p < a.len() && a[p] == pair;
    lemma_position(a, p);
    assert(as_map(a).contains_key(pair.0));
    assert(as_map(b).contains_key(pair.0));
    let q = position(b, pair.0);
    assert(columns_of(b)[q] == pair.0);
    lemma_position(b, q);
    assert(as_map(b)[pair.0] == b[q].1);
    assert(as_map(a)[pair.0] == pair.1);
    assert(b[q] == pair);
}

/// A row: a value for each of a set of columns.
///
/// The columns are kept in the order in which they were first set; setting a
/// column again replaces its value and keeps its place. Two rows are equal
/// when they hold the same values for the same columns, in whatever order.
#[derive(Debug, Eq)]
pub struct Row {
    entries: Vec<(String, String)>,
}

impl Clone for Row {
    fn clone(&self) -> (copy: Self)
        ensures
            copy@ == self@,
    {
        let mut entries: Vec<(String, String)> = Vec::new();
        let mut i: usize = 0;
        while i < self.entries.len()
            invariant
                i <= self.entries.len(),
                entries@.len() == i,
                forall|k: int|
                    0 <= k < i ==> (#[trigger] entries@[k]).0@ == self.entries@[k].0@
                        && entries@[k].1@ == self.entries@[k].1@,
            decreases self.entries.len() - i,
        {
            entries.push((self.entries[i].0.clone(), self.entries[i].1.clone()));
            i += 1;
        }
        let copy = Row { entries };
        assert(copy@ =~= self@);
        copy
    }
}

impl PartialEq for Row {
    fn eq(&self, other: &Row) -> (same: bool) {
        let forth = self.within(other);
        let same = forth && other.within(self);
        proof {
            if same {
                assert forall|pair: (Seq<char>, Seq<char>)|
                    self@.contains(pair) <==> other@.contains(pair) by {
                    if self@.contains(pair) {
                        let p = choose|p: int| 0 <= p < self@.len() && self@[p] == pair;
                        assert(other@.contains(self@[p]));
                    }
                    if other@.contains(pair) {
                        let p = choose|p: int| 0 <= p < other@.len() && other@[p] == pair;
                        assert(self@.contains(other@[p]));
                    }
                }
            } else if !forth {
                let p = choose|p: int| 0 <= p < self@.len() && !other@.contains(#[trigger] self@[p]);
                assert(self@.contains(self@[p]));
            } else {
                let p = choose|p: int| 0 <= p < other@.len() && !self@.contains(#[trigger] other@[p]);
                assert(other@.contains(other@[p]));
            }
        }
        same
    }
}

impl vstd::std_specs::cmp::PartialEqSpecImpl for Row {
    open spec fn obeys_eq_spec() -> bool {
        true
    }

    open spec fn eq_spec(&self, other: &Row) -> bool {
        same_fields(self@, other@)
    }
}

impl View for Row {
    type V = Fields;

    closed spec fn view(&self) -> Fields {
        pair_texts(self.entries@)
    }
}

impl Row {
    /// No column occurs twice.
    pub open spec fn wf(&self) -> bool {
        distinct(self@)
    }

    /// The row as a mapping from column to value.
    pub open spec fn fields(&self) -> Map<Seq<char>, Seq<char>> {
        as_map(self@)
    }

    /// Whether every field of this row is a field of `other`.
    fn within(&self, other: &Row) -> (all: bool)
        ensures
            all == forall|i: int| 0 <= i < self@.len() ==> other@.contains(#[trigger] self@[i]),
    {
        let mut i: usize = 0;
        while i < self.entries.len()
            invariant
                i <= self.entries.len(),
                forall|k: int| 0 <= k < i ==> other@.contains(#[trigger] self@[k]),
            decreases self.entries.len() - i,
        {
            let mut j: usize = 0;
            let mut hit = false;
            while j < other.entries.len() && !hit
                invariant
                    j <= other.entries.len(),
                    i < self.entries.len(),
                    hit ==> other@.contains(self@[i as int]),
                    !hit ==> forall|k: int| 0 <= k < j ==> other@[k] != self@[i as int],
                decreases other.entries.len() - j, if hit { 0int } else { 1int },
            {
                if str_eq(self.entries[i].0.as_str(), other.entries[j].0.as_str()) && str_eq(
                    self.entries[i].1.as_str(),
                    other.entries[j].1.as_str(),
                ) {
                    assert(other@[j as int] == self@[i as int]);
                    hit = true;
                } else {
                    j += 1;
                }
            }
            if !hit {
                assert(other@.len() == j);
                assert(!other@.contains(self@[i as int]));
                return false;
            }
            i += 1;
        }
        true
    }

    /// A row without fields.
    pub fn new() -> (row: Row)
        ensures
            row.wf(),
            row@ == Seq::<(Seq<char>, Seq<char>)>::empty(),
    {
        let row = Row { entries: Vec::new() };
        assert(row@ =~= Seq::<(Seq<char>, Seq<char>)>::empty());
        row
    }

    /// The fields of the row, in the order in which their columns were
    /// first set.
    pub fn entries(&self) -> (entries: &Vec<(String, String)>)
        ensures
            pair_texts(entries@) == self@,
    {
        &self.entries
    }

    /// Sets `column` to `value`, whether or not the row held it before.
    pub fn insert(&mut self, column: String, value: String)
        requires
            old(self).wf(),
        ensures
            final(self).wf(),
            final(self)@ == put(old(self)@, column@, value@),
            final(self).fields() == old(self).fields().insert(column@, value@),
    {
        let n: usize = self.entries.len();
        let mut i: usize = 0;
        while i < n
            invariant
                i <= n,
                n == self.entries@.len(),
                *self == *old(self),
                self.wf(),
                forall|j: int| 0 <= j < i ==> self@[j].0 != column@,
            decreases n - i,
        {
            if str_eq(self.entries[i].0.as_str(), column.as_str()) {
                proof {
                    lemma_position(self@, i as int);
                    lemma_put(self@, column@, value@);
                }
                let ghost before = self@;
                self.entries[i].1 = value;
                assert(self@ =~= before.update(i as int, (column@, value@)));
                return ;
            }
            i += 1;
        }
        proof {
            if holds(self@, column@) {
                let p = position(self@, column@);
                assert(columns_of(self@)[p] == column@);
            }
            lemma_put(self@, column@, value@);
        }
        let ghost before = self@;
        self.entries.push((column, value));
        assert(self@ =~= before.push((column@, value@)));
    }

    /// The value held for `column`, if any.
    pub fn get(&self, column: &str) -> (found: Option<&String>)
        requires
            self.wf(),
        ensures
            match found {
                Some(value) => value_of(self@, column@) == Some(value@),
                None => value_of(self@, column@) is None,
            },
    {
        let n: usize = self.entries.len();
        let mut i: usize = 0;
        while i < n
            invariant
                i <= n,
                n == self.entries@.len(),
                self.wf(),
                forall|j: int| 0 <= j < i ==> self@[j].0 != column@,
            decreases n - i,
        {
            if str_eq(self.entries[i].0.as_str(), column) {
                proof {
                    lemma_position(self@, i as int);
                }
                return Some(&self.entries[i].1);
            }
            i += 1;
        }
        proof {
            if holds(self@, column@) {
                let p = position(self@, column@);
                assert(columns_of(self@)[p] == column@);
            }
        }
        None
    }

    /// Whether the row holds a value for every column in `required`.
    pub fn validate_columns(&self, required: &[String]) -> (ok: bool)
        requires
            self.wf(),
        ensures
            ok == covers(self@, texts(required@)),
    {
        let mut i: usize = 0;
        while i < required.len()
            invariant
                i <= required.len(),
                self.wf(),
                forall|j: int| 0 <= j < i ==> holds(self@, #[trigger] texts(required@)[j]),
            decreases required.len() - i,
        {
            if self.get(required[i].as_str()).is_none() {
                assert(!holds(self@, texts(required@)[i as int]));
                return false;
            }
            i += 1;
        }
        true
    }
}

/// A table as mathematics: its declared columns, and its rows in the order
/// in which they were inserted. The id of a row is its place in `rows`.
pub struct TableView {
    pub columns: Seq<Seq<char>>,
    pub rows: Seq<Fields>,
}

/// Every row has distinct fields and a value for each declared column.
pub open spec fn conforms(table: TableView) -> bool {
    forall|id: int|
        0 <= id < table.rows.len() ==> distinct(#[trigger] table.rows[id]) && covers(
            table.rows[id],
            table.columns,
        )
}

/// `table` with `row` appended: the row gets the number of rows before it as
/// its id.
pub open spec fn appended(table: TableView, row: Fields) -> TableView {
    TableView { columns: table.columns, rows: table.rows.push(row) }
}

/// `table` after `rows` are appended one after the other.
pub open spec fn inserted(table: TableView, rows: Seq<Fields>) -> TableView
    decreases rows.len(),
{
    if rows.len() == 0 {
        table
    } else {
        appended(inserted(table, rows.drop_last()), rows.last())
    }
}

/// The id that the row at place `k` of `rows` gets when `rows` are appended
/// to `table` one after the other.
pub open spec fn id_given(table: TableView, rows: Seq<Fields>, k: int) -> int {
    inserted(table, rows.take(k)).rows.len() as int
}

/// Rows inserted into an empty table get the ids 0, 1, 2, ... in the order
/// of insertion, so no id is given twice; the table then holds exactly
/// these rows, each under its id, and conforms to its schema. This holds
/// of every sequence of rows: whichever callers they come from, and in
/// whatever order those had their turn, no row is lost and no id shared.
pub proof fn lemma_ids_count_up(columns: Seq<Seq<char>>, rows: Seq<Fields>)
    requires
        forall|k: int| 0 <= k < rows.len() ==> distinct(#[trigger] rows[k]) && covers(rows[k], columns),
    ensures
        inserted(TableView { columns, rows: Seq::empty() }, rows) == (TableView { columns, rows }),
        conforms(TableView { columns, rows }),
        forall|k: int|
            0 <= k < rows.len() ==> #[trigger] id_given(
                TableView { columns, rows: Seq::empty() },
                rows,
                k,
            ) == k,
        forall|j: int, k: int|
            0 <= j < k < rows.len() ==> #[trigger] id_given(
                TableView { columns, rows: Seq::empty() },
                rows,
                j,
            ) != #[trigger] id_given(TableView { columns, rows: Seq::empty() }, rows, k),
    decreases rows.len(),
{
    let start = TableView { columns, rows: Seq::empty() };
    if rows.len() == 0 {
        assert(inserted(start, rows).rows =~= rows);
    } else {
        lemma_ids_count_up(columns, rows.drop_last());
        assert(rows.drop_last().push(rows.last()) =~= rows);
        assert forall|k: int| 0 <= k < rows.len() implies #[trigger] id_given(start, rows, k)
            == k by {
            lemma_ids_count_up(columns, rows.take(k));
        }
    }
}

/// Setting a column twice to the same value is the same as setting it once.
pub proof fn lemma_put_twice(fields: Fields, column: Seq<char>, value: Seq<char>)
    requires
        distinct(fields),
    ensures
        put(put(fields, column, value), column, value) == put(fields, column, value),
{
    let once = put(fields, column, value);
    lemma_put(fields, column, value);
    let p = position(once, column);
    assert(columns_of(once)[p] == column);
    if holds(fields, column) {
        let q = position(fields, column);
        assert(columns_of(fields)[q] == column);
        assert(columns_of(once) =~= columns_of(fields));
    } else {
        assert(columns_of(once)[fields.len() as int] == column);
    }
    assert(once[p] == (column, value));
    assert(once.update(p, (column, value)) =~= once);
}

/// The rows of a table, each with its id.
pub open spec fn numbered(rows: Seq<Fields>) -> Seq<(int, Fields)> {
    Seq::new(rows.len(), |id: int| (id, rows[id]))
}

/// The rows among `rows` that hold `value` for `column`, each with its id,
/// in the order of their ids.
pub open spec fn matching(rows: Seq<Fields>, column: Seq<char>, value: Seq<char>) -> Seq<
    (int, Fields),
> {
    numbered(rows).filter(|r: (int, Fields)| value_of(r.1, column) == Some(value))
}

/// What a selection hands out, as mathematics.
pub open spec fn listing(found: Seq<(usize, &Row)>) -> Seq<(int, Fields)> {
    found.map_values(|r: (usize, &Row)| (r.0 as int, r.1@))
}

/// Whether two tables declare the same columns in the same order and hold,
/// id by id, rows with the same fields.
pub open spec fn same_table(a: TableView, b: TableView) -> bool {
    &&& a.columns == b.columns
    &&& a.rows.len() == b.rows.len()
    &&& forall|id: int| 0 <= id < a.rows.len() ==> same_fields(#[trigger] a.rows[id], b.rows[id])
}

/// A table: declared columns and the rows inserted so far.
///
/// Two tables are equal when they declare the same columns in the same order
/// and hold equal rows under the same ids.
#[derive(Debug, Eq)]
pub struct Table {
    columns: Vec<String>,
    rows: Vec<Row>,
}

impl Clone for Table {
    fn clone(&self) -> (copy: Self)
        ensures
            copy@ == self@,
    {
        let mut columns: Vec<String> = Vec::new();
        let mut i: usize = 0;
        while i < self.columns.len()
            invariant
                i <= self.columns.len(),
                columns@.len() == i,
                forall|k: int| 0 <= k < i ==> (#[trigger] columns@[k])@ == self.columns@[k]@,
            decreases self.columns.len() - i,
        {
            columns.push(self.columns[i].clone());
            i += 1;
        }
        let mut rows: Vec<Row> = Vec::new();
        let mut id: usize = 0;
        while id < self.rows.len()
            invariant
                id <= self.rows.len(),
                rows@.len() == id,
                forall|k: int| 0 <= k < id ==> (#[trigger] rows@[k])@ == self.rows@[k]@,
            decreases self.rows.len() - id,
        {
            rows.push(self.rows[id].clone());
            id += 1;
        }
        let copy = Table { columns, rows };
        assert(copy@.columns =~= self@.columns);
        assert(copy@.rows =~= self@.rows);
        copy
    }
}

impl PartialEq for Table {
    fn eq(&self, other: &Table) -> (same: bool) {
        if self.columns.len() != other.columns.len() || self.rows.len() != other.rows.len() {
            assert(self@.columns.len() != other@.columns.len() || self@.rows.len()
                != other@.rows.len());
            return false;
        }
        let mut i: usize = 0;
        while i < self.columns.len()
            invariant
                i <= self.columns.len(),
                self.columns.len() == other.columns.len(),
                forall|k: int| 0 <= k < i ==> self@.columns[k] == other@.columns[k],
            decreases self.columns.len() - i,
        {
            if !str_eq(self.columns[i].as_str(), other.columns[i].as_str()) {
                assert(self@.columns[i as int] != other@.columns[i as int]);
                return false;
            }
            i += 1;
        }
        assert(self@.columns =~= other@.columns);
        let mut id: usize = 0;
        while id < self.rows.len()
            invariant
                id <= self.rows.len(),
                self.rows.len() == other.rows.len(),
                self@.columns == other@.columns,
                forall|k: int|
                    0 <= k < id ==> same_fields(#[trigger] self@.rows[k], other@.rows[k]),
            decreases self.rows.len() - id,
        {
            if !(self.rows[id] == other.rows[id]) {
                assert(!same_fields(self@.rows[id as int], other@.rows[id as int]));
                return false;
            }
            id += 1;
        }
        true
    }
}

impl vstd::std_specs::cmp::PartialEqSpecImpl for Table {
    open spec fn obeys_eq_spec() -> bool {
        true
    }

    open spec fn eq_spec(&self, other: &Table) -> bool {
        same_table(self@, other@)
    }
}

impl View for Table {
    type V = TableView;

    closed spec fn view(&self) -> TableView {
        TableView { columns: texts(self.columns@), rows: self.rows@.map_values(|r: Row| r@) }
    }
}

impl Table {
    /// Every row has distinct fields and a value for each declared column.
    pub open spec fn wf(&self) -> bool {
        conforms(self@)
    }

    /// An empty table with the given columns, kept as they are given.
    pub fn new(columns: Vec<String>) -> (table: Table)
        ensures
            table.wf(),
            table@ == (TableView { columns: texts(columns@), rows: Seq::empty() }),
    {
        let table = Table { columns, rows: Vec::new() };
        assert(table@.rows =~= Seq::empty());
        table
    }

    /// The declared columns.
    pub fn columns(&self) -> (columns: &Vec<String>)
        ensures
            texts(columns@) == self@.columns,
    {
        &self.columns
    }

    /// The number of rows.
    pub fn row_count(&self) -> (count: usize)
        ensures
            count == self@.rows.len(),
    {
        self.rows.len()
    }

    /// Appends `row` if it has a value for every declared column, and gives
    /// its id: the number of rows before it.
    pub fn insert_row(&mut self, row: Row) -> (result: Result<usize, DatabaseError>)
        requires
            old(self).wf(),
            row.wf(),
        ensures
            final(self).wf(),
            match result {
                Ok(id) => {
                    &&& covers(row@, old(self)@.columns)
                    &&& id == old(self)@.rows.len()
                    &&& final(self)@ == appended(old(self)@, row@)
                },
                Err(e) => {
                    &&& !covers(row@, old(self)@.columns)
                    &&& e@ == Failure::SchemaViolation
                    &&& final(self)@ == old(self)@
                },
            },
    {
        if !row.validate_columns(self.columns.as_slice()) {
            return Err(DatabaseError::SchemaViolation);
        }
        let row_id: usize = self.rows.len();
        let ghost before = self@;
        self.rows.push(row);
        proof {
            assert(self@.rows =~= before.rows.push(row@));
            assert(self@.columns == before.columns);
        }
        Ok(row_id)
    }

    /// The row with the given id, if there is one.
    pub fn get_row(&self, id: usize) -> (found: Option<&Row>)
        ensures
            match found {
                Some(row) => id < self@.rows.len() && row@ == self@.rows[id as int],
                None => id >= self@.rows.len(),
            },
    {
        if id < self.rows.len() {
            Some(&self.rows[id])
        } else {
            None
        }
    }

    /// All rows with their ids, in the order of insertion.
    pub fn get_all_rows(&self) -> (found: Vec<(usize, &Row)>)
        ensures
            listing(found@) == numbered(self@.rows),
    {
        let mut found: Vec<(usize, &Row)> = Vec::new();
        let mut id: usize = 0;
        while id < self.rows.len()
            invariant
                id <= self.rows.len(),
                found@.len() == id,
                forall|k: int|
                    0 <= k < id ==> (#[trigger] found@[k]).0 == k && found@[k].1@ == self.rows@[k]@,
            decreases self.rows.len() - id,
        {
            found.push((id, &self.rows[id]));
            id += 1;
        }
        assert(listing(found@) =~= numbered(self@.rows));
        found
    }

    /// The rows that hold exactly `value` for `column`, with their ids, in
    /// the order of insertion. Every row is looked at: there is no index.
    pub fn select_where(&self, column: &str, value: &str) -> (found: Vec<(usize, &Row)>)
        requires
            self.wf(),
        ensures
            listing(found@) == matching(self@.rows, column@, value@),
    {
        let ghost wanted = |r: (int, Fields)| value_of(r.1, column@) == Some(value@);
        let mut found: Vec<(usize, &Row)> = Vec::new();
        let mut id: usize = 0;
        proof {
            assert(numbered(self@.rows).take(0) =~= Seq::empty());
        }
        while id < self.rows.len()
            invariant
                id <= self.rows.len(),
                self.wf(),
                wanted == |r: (int, Fields)| value_of(r.1, column@) == Some(value@),
                listing(found@) == numbered(self@.rows).take(id as int).filter(wanted),
            decreases self.rows.len() - id,
        {
            let row = &self.rows[id];
            assert(row@ == self@.rows[id as int]);
            let hit = match row.get(column) {
                Some(held) => str_eq(held.as_str(), value),
                None => false,
            };
            proof {
                let all = numbered(self@.rows);
                assert(all.take(id + 1) =~= all.take(id as int).push(all[id as int]));
                all.take(id as int).lemma_filter_push(all[id as int], wanted);
                assert(hit == wanted(all[id as int]));
            }
            if hit {
                found.push((id, row));
            }
            id += 1;
            assert(listing(found@) =~= numbered(self@.rows).take(id as int).filter(wanted));
        }
        assert(numbered(self@.rows).take(id as int) =~= numbered(self@.rows));
        found
    }
}

} // verus!
