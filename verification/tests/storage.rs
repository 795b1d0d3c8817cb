use atom::DatabaseError;
use atom::Row;
use atom::StorageEngine;
use atom::Table;

fn strings(items: &[&str]) -> Vec<String> {
    items.iter().map(|s| s.to_string()).collect()
}

fn row(fields: &[(&str, &str)]) -> Row {
    let mut row = Row::new();
    for (column, value) in fields {
        row.insert(column.to_string(), value.to_string());
    }
    row
}

#[test]
fn row_starts_empty() {
    let row = Row::new();
    assert!(row.entries().is_empty());
    assert_eq!(row.get("id"), None);
}

#[test]
fn row_insert_then_get() {
    let row = row(&[("id", "1"), ("name", "Alice")]);
    assert_eq!(row.get("id"), Some(&"1".to_string()));
    assert_eq!(row.get("name"), Some(&"Alice".to_string()));
    assert_eq!(row.get("email"), None);
}

#[test]
fn row_insert_replaces_and_keeps_place() {
    let mut row = row(&[("id", "1"), ("name", "Alice")]);
    row.insert("id".to_string(), "7".to_string());
    assert_eq!(row.get("id"), Some(&"7".to_string()));
    assert_eq!(
        row.entries(),
        &vec![
            ("id".to_string(), "7".to_string()),
            ("name".to_string(), "Alice".to_string())
        ]
    );
}

#[test]
fn row_insert_is_idempotent() {
    let mut once = row(&[("id", "1")]);
    let twice = {
        let mut r = row(&[("id", "1")]);
        r.insert("id".to_string(), "1".to_string());
        r
    };
    assert_eq!(once, twice);
    once.insert("id".to_string(), "1".to_string());
    assert_eq!(once.entries().len(), 1);
}

#[test]
fn row_equality_ignores_order() {
    let a = row(&[("id", "1"), ("name", "Alice")]);
    let b = row(&[("name", "Alice"), ("id", "1")]);
    let c = row(&[("name", "Alice"), ("id", "2")]);
    let d = row(&[("name", "Alice")]);
    assert_eq!(a, b);
    assert_ne!(a, c);
    assert_ne!(a, d);
    assert_ne!(d, a);
}

#[test]
fn row_clone_is_equal() {
    let a = row(&[("id", "1"), ("name", "Alice")]);
    let b = a.clone();
    assert_eq!(a, b);
    assert_eq!(a.entries(), b.entries());
}

#[test]
fn row_validate_columns() {
    let row = row(&[("id", "1"), ("name", "Alice"), ("extra", "x")]);
    assert!(row.validate_columns(&strings(&["id", "name"])));
    assert!(row.validate_columns(&strings(&["name", "id"])));
    assert!(row.validate_columns(&strings(&[])));
    assert!(!row.validate_columns(&strings(&["id", "email"])));
}

#[test]
fn table_new_keeps_columns_verbatim() {
    let table = Table::new(strings(&["id", "id", "name"]));
    assert_eq!(table.columns(), &strings(&["id", "id", "name"]));
    assert_eq!(table.row_count(), 0);
    assert!(table.get_all_rows().is_empty());
}

#[test]
fn table_ids_count_up_from_zero() {
    let mut table = Table::new(strings(&["id"]));
    for n in 0..12usize {
        let id = table.insert_row(row(&[("id", &n.to_string())]));
        assert_eq!(id, Ok(n));
    }
    assert_eq!(table.row_count(), 12);
    let all = table.get_all_rows();
    for (n, (id, found)) in all.iter().enumerate() {
        assert_eq!(*id, n);
        assert_eq!(found.get("id"), Some(&n.to_string()));
    }
}

#[test]
fn table_rejects_row_without_declared_column() {
    let mut table = Table::new(strings(&["id", "name"]));
    let result = table.insert_row(row(&[("name", "Dan")]));
    assert_eq!(result, Err(DatabaseError::SchemaViolation));
    assert_eq!(table.row_count(), 0);
}

#[test]
fn table_accepts_extra_fields() {
    let mut table = Table::new(strings(&["id"]));
    let result = table.insert_row(row(&[("id", "1"), ("note", "hello")]));
    assert_eq!(result, Ok(0));
    assert_eq!(
        table.get_row(0).unwrap().get("note"),
        Some(&"hello".to_string())
    );
}

#[test]
fn table_get_row_out_of_range() {
    let mut table = Table::new(strings(&["id"]));
    table.insert_row(row(&[("id", "1")])).unwrap();
    assert!(table.get_row(0).is_some());
    assert!(table.get_row(1).is_none());
}

#[test]
fn table_select_where_finds_bob() {
    let mut table = Table::new(strings(&["id", "name"]));
    table
        .insert_row(row(&[("id", "1"), ("name", "Alice")]))
        .unwrap();
    table
        .insert_row(row(&[("id", "2"), ("name", "Bob")]))
        .unwrap();
    let found = table.select_where("name", "Bob");
    assert_eq!(found.len(), 1);
    assert_eq!(found[0].0, 1);
    assert_eq!(found[0].1.get("id"), Some(&"2".to_string()));
}

#[test]
fn table_select_where_is_exact_and_ordered() {
    let mut table = Table::new(strings(&["k"]));
    table.insert_row(row(&[("k", "a")])).unwrap();
    table.insert_row(row(&[("k", "A")])).unwrap();
    table.insert_row(row(&[("k", "a"), ("x", "1")])).unwrap();
    table.insert_row(row(&[("k", "ab")])).unwrap();
    let ids: Vec<usize> = table
        .select_where("k", "a")
        .iter()
        .map(|(id, _)| *id)
        .collect();
    assert_eq!(ids, vec![0, 2]);
    assert!(table.select_where("x", "a").is_empty());
    assert!(table.select_where("missing", "a").is_empty());
}

#[test]
fn table_equality_and_clone() {
    let mut a = Table::new(strings(&["id", "name"]));
    a.insert_row(row(&[("id", "1"), ("name", "Alice")])).unwrap();
    let mut b = Table::new(strings(&["id", "name"]));
    b.insert_row(row(&[("name", "Alice"), ("id", "1")])).unwrap();
    assert_eq!(a, b);
    assert_eq!(a.clone(), a);
    let c = Table::new(strings(&["name", "id"]));
    assert_ne!(a, c);
    b.insert_row(row(&[("id", "2"), ("name", "Bob")])).unwrap();
    assert_ne!(a, b);
}

#[test]
fn engine_starts_empty() {
    let engine = StorageEngine::new();
    assert!(engine.list_tables().is_empty());
    assert_eq!(engine, StorageEngine::default());
}

#[test]
fn engine_create_table_twice_is_duplicate() {
    let mut engine = StorageEngine::new();
    assert_eq!(engine.create_table("users", strings(&["id"])), Ok(()));
    assert_eq!(
        engine.create_table("users", strings(&["other"])),
        Err(DatabaseError::DuplicateTable("users".to_string()))
    );
    assert_eq!(engine.describe_table("users"), Ok(&strings(&["id"])));
}

#[test]
fn engine_insert_into_missing_table() {
    let mut engine = StorageEngine::new();
    assert_eq!(
        engine.insert_row("ghost", row(&[("id", "1")])),
        Err(DatabaseError::TableNotFound("ghost".to_string()))
    );
}

#[test]
fn engine_insert_propagates_schema_violation() {
    let mut engine = StorageEngine::new();
    engine
        .create_table("users", strings(&["id", "name", "email", "age"]))
        .unwrap();
    let before = engine.to_snapshot();
    assert_eq!(
        engine.insert_row("users", row(&[("name", "Dan")])),
        Err(DatabaseError::SchemaViolation)
    );
    assert_eq!(engine.to_snapshot(), before);
}

#[test]
fn engine_insert_assigns_ids_per_table() {
    let mut engine = StorageEngine::new();
    engine.create_table("a", strings(&["k"])).unwrap();
    engine.create_table("b", strings(&["k"])).unwrap();
    assert_eq!(engine.insert_row("a", row(&[("k", "1")])), Ok(0));
    assert_eq!(engine.insert_row("a", row(&[("k", "2")])), Ok(1));
    assert_eq!(engine.insert_row("b", row(&[("k", "3")])), Ok(0));
    assert_eq!(engine.insert_row("a", row(&[("k", "4")])), Ok(2));
}

#[test]
fn engine_select_all_and_where() {
    let mut engine = StorageEngine::new();
    engine.create_table("users", strings(&["id", "name"])).unwrap();
    engine
        .insert_row("users", row(&[("id", "1"), ("name", "Alice")]))
        .unwrap();
    engine
        .insert_row("users", row(&[("id", "2"), ("name", "Bob")]))
        .unwrap();
    let all = engine.select_all("users").unwrap();
    assert_eq!(all.len(), 2);
    assert_eq!(all[0].0, 0);
    assert_eq!(all[1].0, 1);
    let bob = engine.select_where("users", "name", "Bob").unwrap();
    assert_eq!(bob.len(), 1);
    assert_eq!(bob[0].1.get("id"), Some(&"2".to_string()));
    assert_eq!(
        engine.select_all("ghost"),
        Err(DatabaseError::TableNotFound("ghost".to_string()))
    );
    assert_eq!(
        engine.select_where("ghost", "name", "Bob"),
        Err(DatabaseError::TableNotFound("ghost".to_string()))
    );
}

#[test]
fn engine_describe_missing_table() {
    let engine = StorageEngine::new();
    assert_eq!(
        engine.describe_table("ghost"),
        Err(DatabaseError::TableNotFound("ghost".to_string()))
    );
}

#[test]
fn engine_lists_tables_in_creation_order() {
    let mut engine = StorageEngine::new();
    engine.create_table("b", strings(&["k"])).unwrap();
    engine.create_table("a", strings(&["k"])).unwrap();
    engine.create_table("c", strings(&["k"])).unwrap();
    let names: Vec<String> = engine.list_tables().into_iter().cloned().collect();
    assert_eq!(names, strings(&["b", "a", "c"]));
    engine.drop_table("a").unwrap();
    let names: Vec<String> = engine.list_tables().into_iter().cloned().collect();
    assert_eq!(names, strings(&["b", "c"]));
}

#[test]
fn engine_drop_table() {
    let mut engine = StorageEngine::new();
    engine.create_table("users", strings(&["id"])).unwrap();
    engine.insert_row("users", row(&[("id", "1")])).unwrap();
    assert_eq!(engine.drop_table("users"), Ok(()));
    assert_eq!(
        engine.drop_table("users"),
        Err(DatabaseError::TableNotFound("users".to_string()))
    );
    assert_eq!(
        engine.select_all("users"),
        Err(DatabaseError::TableNotFound("users".to_string()))
    );
    engine.create_table("users", strings(&["id"])).unwrap();
    assert_eq!(engine.insert_row("users", row(&[("id", "9")])), Ok(0));
}

#[test]
fn engine_add_table_with_rows() {
    let mut table = Table::new(strings(&["id"]));
    table.insert_row(row(&[("id", "1")])).unwrap();
    let mut engine = StorageEngine::new();
    assert_eq!(engine.add_table("t", table.clone()), Ok(()));
    assert_eq!(
        engine.add_table("t", table),
        Err(DatabaseError::DuplicateTable("t".to_string()))
    );
    assert_eq!(engine.select_all("t").unwrap().len(), 1);
}

#[test]
fn engine_equality_ignores_table_order() {
    let mut a = StorageEngine::new();
    a.create_table("x", strings(&["k"])).unwrap();
    a.create_table("y", strings(&["k"])).unwrap();
    let mut b = StorageEngine::new();
    b.create_table("y", strings(&["k"])).unwrap();
    b.create_table("x", strings(&["k"])).unwrap();
    assert_eq!(a, b);
    b.insert_row("x", row(&[("k", "1")])).unwrap();
    assert_ne!(a, b);
    assert_ne!(a, StorageEngine::new());
}

#[test]
fn error_messages() {
    assert_eq!(
        DatabaseError::TableNotFound("ghost".to_string()).message(),
        "Table 'ghost' not found"
    );
    assert_eq!(
        DatabaseError::DuplicateTable("users".to_string()).message(),
        "Table 'users' already exists"
    );
    assert_eq!(
        DatabaseError::SchemaViolation.message(),
        "Row missing required columns"
    );
    assert_eq!(
        DatabaseError::InvalidSyntax("Invalid SELECT syntax".to_string()).message(),
        "Invalid SELECT syntax"
    );
    assert_eq!(DatabaseError::UnknownCommand.message(), "Unknown command");
    assert_eq!(
        DatabaseError::CorruptData("eof".to_string()).message(),
        "Corrupt data: eof"
    );
    assert_eq!(
        DatabaseError::MissingFile("db.bin".to_string()).message(),
        "File not found: db.bin"
    );
    assert_eq!(
        DatabaseError::IOFailure("disk full".to_string()).message(),
        "I/O failure: disk full"
    );
    let e = DatabaseError::TableNotFound("t".to_string());
    assert_eq!(e.clone(), e);
}
