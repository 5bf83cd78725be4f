//! Table model behaviour: creation, row insertion, selection, coercion.

use minidb::error::DbError;
use minidb::table::Table;
use minidb::value::coerce;
use minidb::value::Value;

fn users() -> Table {
    Table::new(
        "users".to_string(),
        &vec![
            ("id".to_string(), "int".to_string()),
            ("name".to_string(), "text".to_string()),
            ("age".to_string(), "int".to_string()),
        ],
    )
}

fn strings(vals: &[&str]) -> Vec<String> {
    vals.iter().map(|v| v.to_string()).collect()
}

#[test]
fn create_builds_ordered_empty_columns() {
    let t = users();
    assert_eq!(t.name, "users");
    assert_eq!(t.schema.columns, vec!["id", "name", "age"]);
    assert_eq!(t.schema.types, vec!["int", "text", "int"]);
    assert_eq!(t.data.len(), 3);
    assert!(t.data.iter().all(|c| c.is_empty()));
}

#[test]
fn insert_then_select_all_keeps_row_order() {
    let mut t = users();
    t.insert_row(&strings(&["1", "Alice", "30"])).unwrap();
    t.insert_row(&strings(&["2", "Bob", "25"])).unwrap();
    let rows = t.select_all();
    assert_eq!(rows.len(), 2);
    assert_eq!(
        rows[0],
        vec![Value::Int32(1), Value::Text("Alice".to_string()), Value::Int32(30)]
    );
    assert_eq!(
        rows[1],
        vec![Value::Int32(2), Value::Text("Bob".to_string()), Value::Int32(25)]
    );
}

#[test]
fn select_where_returns_first_match() {
    let mut t = users();
    t.insert_row(&strings(&["1", "Alice", "30"])).unwrap();
    t.insert_row(&strings(&["2", "Bob", "25"])).unwrap();
    let row = t.select_where("id", 2).unwrap().unwrap();
    assert_eq!(
        row,
        vec![Value::Int32(2), Value::Text("Bob".to_string()), Value::Int32(25)]
    );
    assert_eq!(t.select_where("id", 9).unwrap(), None);
}

#[test]
fn select_where_lowest_index_wins() {
    let mut t = Table::new(
        "dup".to_string(),
        &vec![("k".to_string(), "int".to_string()), ("v".to_string(), "text".to_string())],
    );
    t.insert_row(&strings(&["7", "first"])).unwrap();
    t.insert_row(&strings(&["7", "second"])).unwrap();
    let row = t.select_where("k", 7).unwrap().unwrap();
    assert_eq!(row[1], Value::Text("first".to_string()));
}

#[test]
fn select_where_skips_non_integer_cells() {
    let mut t = Table::new(
        "notes".to_string(),
        &vec![("tag".to_string(), "text".to_string())],
    );
    t.insert_row(&strings(&["2"])).unwrap();
    // the text cell "2" must not match the integer 2
    assert_eq!(t.select_where("tag", 2).unwrap(), None);
}

#[test]
fn select_where_unknown_column() {
    let t = users();
    assert_eq!(t.select_where("salary", 1), Err(DbError::ColumnNotFound));
}

#[test]
fn insert_arity_mismatch_changes_nothing() {
    let mut t = users();
    t.insert_row(&strings(&["1", "Alice", "30"])).unwrap();
    let before = t.select_all();
    let r = t.insert_row(&strings(&["1", "Alice"]));
    assert_eq!(r, Err(DbError::ColumnCountMismatch));
    assert_eq!(t.select_all(), before);
    assert!(t.data.iter().all(|c| c.len() == 1));
}

#[test]
fn insert_coercion_failure_changes_nothing() {
    let mut t = users();
    let r = t.insert_row(&strings(&["one", "Alice", "30"]));
    assert_eq!(r, Err(DbError::TypeCoercion));
    assert!(t.data.iter().all(|c| c.is_empty()));
    let r = t.insert_row(&strings(&["1", "Alice", "old"]));
    assert_eq!(r, Err(DbError::TypeCoercion));
    assert!(t.data.iter().all(|c| c.is_empty()));
}

#[test]
fn zero_column_table_has_zero_rows() {
    let mut t = Table::new("unit".to_string(), &Vec::new());
    assert_eq!(t.select_all().len(), 0);
    assert_eq!(t.insert_row(&Vec::new()), Ok(()));
    assert_eq!(t.select_all().len(), 0);
}

#[test]
fn from_parts_round_trips_a_stored_table() {
    let mut t = users();
    t.insert_row(&strings(&["1", "Alice", "30"])).unwrap();
    let rebuilt = Table::from_parts(
        "users".to_string(),
        vec!["id".to_string(), "name".to_string(), "age".to_string()],
        vec!["int".to_string(), "text".to_string(), "int".to_string()],
        vec![
            vec![Value::Int32(1)],
            vec![Value::Text("Alice".to_string())],
            vec![Value::Int32(30)],
        ],
    )
    .unwrap();
    assert_eq!(rebuilt, t);
}

#[test]
fn from_parts_refuses_ragged_or_mismatched_parts() {
    // a type tag is missing
    assert!(Table::from_parts(
        "t".to_string(),
        vec!["a".to_string()],
        Vec::new(),
        vec![Vec::new()],
    )
    .is_none());
    // columns of unequal length
    assert!(Table::from_parts(
        "t".to_string(),
        vec!["a".to_string(), "b".to_string()],
        vec!["int".to_string(), "int".to_string()],
        vec![vec![Value::Int32(1)], Vec::new()],
    )
    .is_none());
}

#[test]
fn coerce_int_and_text_and_float() {
    assert_eq!(coerce("int", "-17"), Ok(Value::Int32(-17)));
    assert_eq!(coerce("int", "x"), Err(DbError::TypeCoercion));
    assert_eq!(coerce("text", "1.5"), Ok(Value::Text("1.5".to_string())));
    assert_eq!(coerce("blob", "raw"), Ok(Value::Text("raw".to_string())));
    assert_eq!(coerce("float", "2.5"), Ok(Value::Float32("2.5".to_string())));
    assert_eq!(coerce("float", "two"), Err(DbError::TypeCoercion));
}

#[test]
fn float_literals_follow_the_grammar() {
    for good in ["1", "-1.5", "+.5", "5.", "1e5", "1E-5", "-2.5e+10", "inf", "-INFINITY", "NaN"] {
        assert!(coerce("float", good).is_ok(), "expected {good:?} to be accepted");
        assert!(good.parse::<f32>().is_ok(), "std disagrees on {good:?}");
    }
    for bad in ["", "+", ".", "1.2.3", "e5", "1e", "1e+", "abc", "nan5", "1 .5", "0x1"] {
        assert_eq!(coerce("float", bad), Err(DbError::TypeCoercion), "expected {bad:?} refused");
        assert!(bad.parse::<f32>().is_err(), "std disagrees on {bad:?}");
    }
}

#[test]
fn float_cells_keep_their_literal() {
    let mut t = Table::new(
        "m".to_string(),
        &vec![("x".to_string(), "float".to_string())],
    );
    t.insert_row(&strings(&["2.50"])).unwrap();
    let rows = t.select_all();
    assert_eq!(rows[0][0], Value::Float32("2.50".to_string()));
    assert_eq!("2.50".parse::<f32>().unwrap(), 2.5f32);
}
