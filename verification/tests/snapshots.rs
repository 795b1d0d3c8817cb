use atom::setup_demo_data;
use atom::snapshot::Snapshot;
use atom::DatabaseError;
use atom::Row;
use atom::StorageEngine;

fn pair(column: &str, value: &str) -> (String, String) {
    (column.to_string(), value.to_string())
}

fn sample() -> StorageEngine {
    let mut engine = StorageEngine::new();
    setup_demo_data(&mut engine).unwrap();
    engine
        .create_table("empty", vec!["a".to_string(), "a".to_string()])
        .unwrap();
    engine.create_table("notes", vec!["text".to_string()]).unwrap();
    let mut row = Row::new();
    row.insert("text".to_string(), "line one\nline \"two\" \u{e9}".to_string());
    row.insert("extra".to_string(), "".to_string());
    engine.insert_row("notes", row).unwrap();
    engine
}

fn is_corrupt(result: Result<StorageEngine, DatabaseError>) -> bool {
    matches!(result, Err(DatabaseError::CorruptData(_)))
}

#[test]
fn snapshot_lists_tables_and_rows_in_order() {
    let mut engine = StorageEngine::new();
    engine
        .create_table("t", vec!["a".to_string(), "b".to_string()])
        .unwrap();
    let mut row = Row::new();
    row.insert("b".to_string(), "2".to_string());
    row.insert("a".to_string(), "1".to_string());
    engine.insert_row("t", row.clone()).unwrap();
    engine.insert_row("t", row).unwrap();
    engine.create_table("u", Vec::new()).unwrap();
    let expected: Snapshot = vec![
        (
            "t".to_string(),
            (
                vec!["a".to_string(), "b".to_string()],
                vec![
                    (0, vec![pair("b", "2"), pair("a", "1")]),
                    (1, vec![pair("b", "2"), pair("a", "1")]),
                ],
            ),
        ),
        ("u".to_string(), (Vec::new(), Vec::new())),
    ];
    assert_eq!(engine.to_snapshot(), expected);
}

#[test]
fn snapshot_round_trip() {
    let engine = sample();
    let snapshot = engine.to_snapshot();
    let back = StorageEngine::from_snapshot(&snapshot).unwrap();
    assert_eq!(back, engine);
    assert_eq!(back.to_snapshot(), snapshot);
    let empty = StorageEngine::new();
    assert_eq!(StorageEngine::from_snapshot(&empty.to_snapshot()), Ok(empty));
}

#[test]
fn snapshot_rows_may_come_in_any_order() {
    let snapshot: Snapshot = vec![(
        "t".to_string(),
        (
            vec!["k".to_string()],
            vec![
                (2, vec![pair("k", "c")]),
                (0, vec![pair("k", "a")]),
                (1, vec![pair("k", "b")]),
            ],
        ),
    )];
    let engine = StorageEngine::from_snapshot(&snapshot).unwrap();
    let rows = engine.select_all("t").unwrap();
    assert_eq!(rows[0].1.get("k"), Some(&"a".to_string()));
    assert_eq!(rows[1].1.get("k"), Some(&"b".to_string()));
    assert_eq!(rows[2].1.get("k"), Some(&"c".to_string()));
}

#[test]
fn snapshot_with_two_tables_of_one_name_is_corrupt() {
    let snapshot: Snapshot = vec![
        ("t".to_string(), (Vec::new(), Vec::new())),
        ("u".to_string(), (Vec::new(), vec![(5, Vec::new())])),
        ("t".to_string(), (Vec::new(), Vec::new())),
    ];
    assert_eq!(
        StorageEngine::from_snapshot(&snapshot),
        Err(DatabaseError::CorruptData("two tables share a name".to_string()))
    );
}

#[test]
fn snapshot_with_gap_in_ids_is_corrupt() {
    let gap: Snapshot = vec![(
        "t".to_string(),
        (Vec::new(), vec![(0, Vec::new()), (2, Vec::new())]),
    )];
    assert_eq!(
        StorageEngine::from_snapshot(&gap),
        Err(DatabaseError::CorruptData("the rows of a table do not fit it".to_string()))
    );
    let twice: Snapshot = vec![(
        "t".to_string(),
        (Vec::new(), vec![(0, Vec::new()), (0, Vec::new())]),
    )];
    assert!(is_corrupt(StorageEngine::from_snapshot(&twice)));
    let far: Snapshot = vec![("t".to_string(), (Vec::new(), vec![(u64::MAX, Vec::new())]))];
    assert!(is_corrupt(StorageEngine::from_snapshot(&far)));
}

#[test]
fn snapshot_with_row_outside_schema_is_corrupt() {
    let snapshot: Snapshot = vec![(
        "t".to_string(),
        (vec!["id".to_string()], vec![(0, vec![pair("name", "x")])]),
    )];
    assert!(is_corrupt(StorageEngine::from_snapshot(&snapshot)));
}

#[test]
fn snapshot_with_repeated_column_in_row_is_corrupt() {
    let snapshot: Snapshot = vec![(
        "t".to_string(),
        (
            vec!["id".to_string()],
            vec![(0, vec![pair("id", "1"), pair("id", "2")])],
        ),
    )];
    assert!(is_corrupt(StorageEngine::from_snapshot(&snapshot)));
}

#[test]
fn binary_round_trip() {
    let engine = sample();
    let bytes = engine.serialize_binary().unwrap();
    let back = StorageEngine::deserialize_binary(&bytes).unwrap();
    assert_eq!(back, engine);
    assert_eq!(back.to_snapshot(), engine.to_snapshot());
    assert_eq!(back.serialize_binary().unwrap(), bytes);
}

#[test]
fn binary_form_of_small_engines() {
    let mut engine = StorageEngine::new();
    assert_eq!(engine.serialize_binary().unwrap(), vec![0u8; 8]);
    engine.create_table("t", vec!["a".to_string()]).unwrap();
    let mut row = Row::new();
    row.insert("a".to_string(), "xy".to_string());
    engine.insert_row("t", row).unwrap();
    let mut expected: Vec<u8> = Vec::new();
    expected.extend_from_slice(&1u64.to_le_bytes());
    expected.extend_from_slice(&1u64.to_le_bytes());
    expected.extend_from_slice(b"t");
    expected.extend_from_slice(&1u64.to_le_bytes());
    expected.extend_from_slice(&1u64.to_le_bytes());
    expected.extend_from_slice(b"a");
    expected.extend_from_slice(&1u64.to_le_bytes());
    expected.extend_from_slice(&0u64.to_le_bytes());
    expected.extend_from_slice(&1u64.to_le_bytes());
    expected.extend_from_slice(&1u64.to_le_bytes());
    expected.extend_from_slice(b"a");
    expected.extend_from_slice(&2u64.to_le_bytes());
    expected.extend_from_slice(b"xy");
    assert_eq!(engine.serialize_binary().unwrap(), expected);
    assert_eq!(StorageEngine::deserialize_binary(&expected), Ok(engine));
}

#[test]
fn binary_reads_what_maps_of_the_same_shape_encode_to() {
    let mut data = std::collections::HashMap::new();
    data.insert("a".to_string(), "1".to_string());
    let mut rows = std::collections::HashMap::new();
    rows.insert(0usize, data);
    let mut tables = std::collections::HashMap::new();
    tables.insert("t".to_string(), (vec!["a".to_string()], rows));
    let bytes = bincode::serialize(&tables).unwrap();
    let engine = StorageEngine::deserialize_binary(&bytes).unwrap();
    assert_eq!(engine.describe_table("t"), Ok(&vec!["a".to_string()]));
    assert_eq!(
        engine.select_all("t").unwrap()[0].1.get("a"),
        Some(&"1".to_string())
    );
    assert_eq!(engine.serialize_binary().unwrap(), bytes);
}

#[test]
fn binary_corrupt_data() {
    assert!(is_corrupt(StorageEngine::deserialize_binary(&[])));
    assert!(is_corrupt(StorageEngine::deserialize_binary(&[1, 2, 3])));
    assert!(is_corrupt(StorageEngine::deserialize_binary(&[0xff; 8])));
    let mut bytes = sample().serialize_binary().unwrap();
    bytes.truncate(bytes.len() - 1);
    assert!(is_corrupt(StorageEngine::deserialize_binary(&bytes)));
    let twice: Snapshot = vec![
        ("t".to_string(), (Vec::new(), Vec::new())),
        ("t".to_string(), (Vec::new(), Vec::new())),
    ];
    let bytes = bincode::serialize(&twice).unwrap();
    assert!(is_corrupt(StorageEngine::deserialize_binary(&bytes)));
}

#[test]
fn readable_round_trip() {
    let engine = sample();
    let text = engine.serialize().unwrap();
    let back = StorageEngine::deserialize(&text).unwrap();
    assert_eq!(back, engine);
    assert_eq!(back.to_snapshot(), engine.to_snapshot());
    assert_eq!(back.serialize().unwrap(), text);
}

#[test]
fn readable_form_of_small_engines() {
    let mut engine = StorageEngine::new();
    assert_eq!(engine.serialize().unwrap(), "[]");
    assert_eq!(StorageEngine::deserialize("[]"), Ok(StorageEngine::new()));
    engine.create_table("t", vec!["a".to_string()]).unwrap();
    let mut row = Row::new();
    row.insert("a".to_string(), "x\"y".to_string());
    engine.insert_row("t", row).unwrap();
    let text = engine.serialize().unwrap();
    let value: serde_json::Value = serde_json::from_str(&text).unwrap();
    assert_eq!(value[0][0], "t");
    assert_eq!(value[0][1][0][0], "a");
    assert_eq!(value[0][1][1][0][0], 0);
    assert_eq!(value[0][1][1][0][1][0][0], "a");
    assert_eq!(value[0][1][1][0][1][0][1], "x\"y");
    assert!(text.contains('\n'));
    assert_eq!(
        StorageEngine::deserialize("[[\"t\",[[\"a\"],[[0,[[\"a\",\"x\\\"y\"]]]]]]]"),
        Ok(engine)
    );
}

#[test]
fn readable_corrupt_data() {
    assert!(is_corrupt(StorageEngine::deserialize("")));
    assert!(is_corrupt(StorageEngine::deserialize("{}")));
    assert!(is_corrupt(StorageEngine::deserialize("[[\"t\"]]")));
    assert!(is_corrupt(StorageEngine::deserialize("[[\"t\",[[],[]]]")));
    assert!(is_corrupt(StorageEngine::deserialize(
        "[[\"t\",[[],[]]],[\"t\",[[],[]]]]"
    )));
    assert!(is_corrupt(StorageEngine::deserialize(
        "[[\"t\",[[\"a\"],[[0,[]]]]]]"
    )));
    assert!(is_corrupt(StorageEngine::deserialize(
        "[[\"t\",[[],[[1,[]]]]]]"
    )));
}
