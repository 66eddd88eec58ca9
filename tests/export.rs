use parqr::dataset::Dataset;
use parqr::export::{select_columns, ExportError};
use parqr::value::Value;

fn table() -> Dataset {
    Dataset::new(
        vec!["a".to_string(), "b".to_string(), "c".to_string()],
        vec![
            vec![Value::Int(1), Value::Int(2), Value::Int(3)],
            vec![Value::Int(4), Value::Null, Value::Int(6)],
            vec![Value::Bool(true), Value::Bool(false), Value::Null],
        ],
    )
    .unwrap()
}

fn names(v: &[&str]) -> Vec<String> {
    v.iter().map(|s| s.to_string()).collect()
}

#[test]
fn subset_keeps_dataset_order_and_rows() {
    let d = select_columns(&table(), &names(&["c", "a"])).unwrap();
    assert_eq!(d.column_names(), vec!["a", "c"]);
    assert_eq!(d.height(), 3);
    assert_eq!(d.column(0), &vec![Value::Int(1), Value::Int(2), Value::Int(3)]);
    assert_eq!(d.column(1), &vec![Value::Bool(true), Value::Bool(false), Value::Null]);
}

#[test]
fn all_columns_give_dataset_back() {
    let t = table();
    let d = select_columns(&t, &names(&["b", "c", "a"])).unwrap();
    assert_eq!(d.column_names(), t.column_names());
    assert_eq!(d.column(1), t.column(1));
}

#[test]
fn empty_selection_rejected() {
    assert_eq!(select_columns(&table(), &vec![]).unwrap_err(), ExportError::EmptySelection);
}

#[test]
fn unknown_selected_column() {
    assert_eq!(
        select_columns(&table(), &names(&["a", "z", "y"])).unwrap_err(),
        ExportError::ColumnNotFound("z".to_string())
    );
}
