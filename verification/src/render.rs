use crate::schema::listing;
use crate::schema::Fields;
use crate::schema::Row;
use crate::text::debug_text;
use crate::text::decimal;
use crate::text::decimal_text;
use crate::text::joined;
use crate::text::pair_texts;
use crate::text::quoted;
use crate::text::ref_texts;
use crate::text::texts;
use vstd::prelude::*;
use vstd::string::*;

verus! {

/// One field as it is listed: the quoted column, a colon, the quoted value.
pub open spec fn field_text(field: (Seq<char>, Seq<char>)) -> Seq<char> {
    debug_text(field.0) + ": "@ + debug_text(field.1)
}

/// The fields of a row as they are listed: between braces, separated by
/// commas, in the order of the row.
pub open spec fn fields_text(fields: Fields) -> Seq<char> {
    "{"@ + joined(fields.map_values(|f: (Seq<char>, Seq<char>)| field_text(f)), ", "@) + "}"@
}

/// Names as they are listed: quoted, between brackets, separated by commas.
pub open spec fn names_text(names: Seq<Seq<char>>) -> Seq<char> {
    "["@ + joined(names.map_values(|n: Seq<char>| debug_text(n)), ", "@) + "]"@
}

/// The line that lists one row with its id.
pub open spec fn row_line(row: (int, Fields)) -> Seq<char> {
    "ID: "@ + decimal(row.0 as nat) + " | "@ + fields_text(row.1) + "\n"@
}

/// The lines that list `rows`, one line for each, in order.
pub open spec fn row_lines(rows: Seq<(int, Fields)>) -> Seq<char>
    decreases rows.len(),
{
    if rows.len() == 0 {
        Seq::empty()
    } else {
        row_lines(rows.drop_last()) + row_line(rows.last())
    }
}

/// The listing of the rows found in the table called `table`.
pub open spec fn rows_text(table: Seq<char>, rows: Seq<(int, Fields)>) -> Seq<char> {
    "Results from table '"@ + table + "':\n"@ + row_lines(rows)
}

/// `parts`, with `sep` between each two of them.
pub fn join(parts: &Vec<String>, sep: &str) -> (out: String)
    ensures
        out@ == joined(texts(parts@), sep@),
{
    let ghost all = texts(parts@);
    let mut out = String::new();
    let mut i: usize = 0;
    assert(all.take(0) =~= Seq::<Seq<char>>::empty());
    while i < parts.len()
        invariant
            i <= parts.len(),
            all == texts(parts@),
            out@ == joined(all.take(i as int), sep@),
        decreases parts.len() - i,
    {
        if i > 0 {
            out.append(sep);
        }
        out.append(parts[i].as_str());
        proof {
            let now = all.take(i + 1);
            assert(now.drop_last() =~= all.take(i as int));
            assert(now.last() == parts@[i as int]@);
            if i == 0 {
                assert(out@ =~= now[0]);
            }
        }
        i += 1;
    }
    assert(all.take(parts.len() as int) =~= all);
    out
}

/// The fields of `row` as they are listed.
pub fn render_fields(row: &Row) -> (text: String)
    ensures
        text@ == fields_text(row@),
{
    let entries = row.entries();
    let mut parts: Vec<String> = Vec::new();
    let mut i: usize = 0;
    while i < entries.len()
        invariant
            i <= entries.len(),
            parts@.len() == i,
            pair_texts(entries@) == row@,
            forall|k: int| 0 <= k < i ==> (#[trigger] parts@[k])@ == field_text(row@[k]),
        decreases entries.len() - i,
    {
        assert(row@[i as int] == (entries@[i as int].0@, entries@[i as int].1@));
        let mut part = quoted(entries[i].0.as_str());
        part.append(": ");
        part.append(quoted(entries[i].1.as_str()).as_str());
        parts.push(part);
        i += 1;
    }
    assert(texts(parts@) =~= row@.map_values(
        |f: (Seq<char>, Seq<char>)| field_text(f),
    ));
    let mut text = "{".to_owned();
    text.append(join(&parts, ", ").as_str());
    text.append("}");
    text
}

/// `names` as they are listed.
pub fn render_names(names: &Vec<&String>) -> (text: String)
    ensures
        text@ == names_text(ref_texts(names@)),
{
    let mut parts: Vec<String> = Vec::new();
    let mut i: usize = 0;
    while i < names.len()
        invariant
            i <= names.len(),
            parts@.len() == i,
            forall|k: int| 0 <= k < i ==> (#[trigger] parts@[k])@ == debug_text(names@[k]@),
        decreases names.len() - i,
    {
        parts.push(quoted(names[i].as_str()));
        i += 1;
    }
    assert(texts(parts@) =~= ref_texts(names@).map_values(
        |n: Seq<char>| debug_text(n),
    ));
    let mut text = "[".to_owned();
    text.append(join(&parts, ", ").as_str());
    text.append("]");
    text
}

/// The listing of `rows`, found in the table called `table`.
pub fn render_rows(table: &str, rows: &Vec<(usize, &Row)>) -> (text: String)
    ensures
        text@ == rows_text(table@, listing(rows@)),
{
    let ghost all = listing(rows@);
    let mut lines = String::new();
    let mut i: usize = 0;
    assert(all.take(0) =~= Seq::<(int, Fields)>::empty());
    while i < rows.len()
        invariant
            i <= rows.len(),
            all == listing(rows@),
            lines@ == row_lines(all.take(i as int)),
        decreases rows.len() - i,
    {
        let ghost before = lines@;
        lines.append("ID: ");
        lines.append(decimal_text(rows[i].0).as_str());
        lines.append(" | ");
        lines.append(render_fields(rows[i].1).as_str());
        lines.append("\n");
        proof {
            let now = all.take(i + 1);
            assert(now.drop_last() =~= all.take(i as int));
            assert(now.last() == (rows@[i as int].0 as int, rows@[i as int].1@));
            assert(lines@ =~= before + row_line(now.last()));
        }
        i += 1;
    }
    assert(all.take(rows.len() as int) =~= all);
    let mut text = "Results from table '".to_owned();
    text.append(table);
    text.append("':\n");
    text.append(lines.as_str());
    text
}

} // verus!
