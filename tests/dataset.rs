use parqr::dataset::Dataset;
use parqr::value::less;
use parqr::value::{Real, Value};

fn float(x: f64, text: &str) -> Value {
    Value::Float(Real { bits: x.to_bits(), text: text.to_string() })
}

fn text(s: &str) -> Value {
    Value::Text(s.to_string())
}

fn cities() -> Dataset {
    Dataset::new(
        vec!["id".to_string(), "lat".to_string(), "lon".to_string(), "city".to_string()],
        vec![
            vec![Value::Int(1), Value::Int(2)],
            vec![float(40.7, "40.7"), float(34.0, "34.0")],
            vec![float(-74.0, "-74.0"), float(-118.2, "-118.2")],
            vec![text("NYC"), text("LA")],
        ],
    )
    .unwrap()
}

#[test]
fn new_rejects_ragged_columns() {
    let r = Dataset::new(
        vec!["a".to_string(), "b".to_string()],
        vec![vec![Value::Int(1)], vec![Value::Int(1), Value::Int(2)]],
    );
    assert_eq!(r.unwrap_err(), parqr::dataset::DatasetError::ShapeMismatch);
}

#[test]
fn new_rejects_name_count_mismatch() {
    let r = Dataset::new(vec!["a".to_string()], vec![]);
    assert_eq!(r.unwrap_err(), parqr::dataset::DatasetError::ShapeMismatch);
}

#[test]
fn new_rejects_duplicate_names() {
    let r = Dataset::new(
        vec!["a".to_string(), "a".to_string()],
        vec![vec![Value::Int(1)], vec![Value::Int(2)]],
    );
    assert_eq!(r.unwrap_err(), parqr::dataset::DatasetError::DuplicateName);
}

#[test]
fn shape_accessors() {
    let d = cities();
    assert_eq!(d.height(), 2);
    assert_eq!(d.width(), 4);
    assert_eq!(d.column_index("city"), Some(3));
    assert_eq!(d.column_index("City"), None);
    assert_eq!(d.column_names(), vec!["id", "lat", "lon", "city"]);
}

#[test]
fn row_index_is_first_and_counts_from_zero() {
    let d = cities().with_row_index("Row Index").unwrap();
    assert_eq!(d.column_names(), vec!["Row Index", "id", "lat", "lon", "city"]);
    assert_eq!(d.column(0), &vec![Value::Int(0), Value::Int(1)]);
    assert_eq!(d.column(4), &vec![text("NYC"), text("LA")]);
}

#[test]
fn row_index_refuses_taken_name() {
    let r = cities().with_row_index("id");
    assert_eq!(r.unwrap_err(), parqr::dataset::DatasetError::DuplicateName);
}

#[test]
fn cell_text_forms() {
    assert_eq!(Value::Int(-42).text(), Some(vec!['-', '4', '2']));
    assert_eq!(Value::Int(0).text(), Some(vec!['0']));
    assert_eq!(
        Value::Int(i64::MIN).text().unwrap().into_iter().collect::<String>(),
        "-9223372036854775808"
    );
    assert_eq!(Value::Bool(true).text(), Some(vec!['t', 'r', 'u', 'e']));
    assert_eq!(Value::Null.text(), None);
    assert_eq!(float(40.7, "40.7").text(), Some(vec!['4', '0', '.', '7']));
}

#[test]
fn cell_order() {
    assert!(less(&Value::Null, &Value::Int(-5)));
    assert!(less(&Value::Int(-5), &Value::Int(3)));
    assert!(!less(&Value::Int(3), &Value::Int(3)));
    assert!(less(&float(-118.2, "-118.2"), &float(-74.0, "-74.0")));
    assert!(less(&float(-0.5, "-0.5"), &float(0.25, "0.25")));
    assert!(!less(&float(-0.0, "-0.0"), &float(0.0, "0.0")));
    assert!(!less(&float(0.0, "0.0"), &float(-0.0, "-0.0")));
    assert!(less(&float(f64::INFINITY, "inf"), &float(f64::NAN, "NaN")));
    assert!(less(&float(f64::NEG_INFINITY, "-inf"), &float(-1.0e300, "-1e300")));
    assert!(less(&float(1.0, "1.0"), &float(-f64::NAN, "NaN")));
    assert!(!less(&float(f64::NAN, "NaN"), &float(-f64::NAN, "NaN")));
    assert!(!less(&float(-f64::NAN, "NaN"), &float(f64::NAN, "NaN")));
    assert!(less(&text("LA"), &text("NYC")));
    assert!(less(&text("ab"), &text("abc")));
    assert!(!less(&text("b"), &text("abc")));
}
