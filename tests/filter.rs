use parqr::dataset::Dataset;
use parqr::filter::{filter_dataframe, FilterCondition, FilterError, FilterType};
use parqr::sort::{sort_dataframe, SortCondition};
use parqr::value::{Real, Value};

fn float(x: f64, text: &str) -> Value {
    Value::Float(Real { bits: x.to_bits(), text: text.to_string() })
}

fn text(s: &str) -> Value {
    Value::Text(s.to_string())
}

fn cities() -> Dataset {
    Dataset::new(
        vec!["id".to_string(), "lat".to_string(), "lon".to_string(), "city".to_string()],
        vec![
            vec![Value::Int(1), Value::Int(2)],
            vec![float(40.7, "40.7"), float(34.0, "34.0")],
            vec![float(-74.0, "-74.0"), float(-118.2, "-118.2")],
            vec![text("NYC"), text("LA")],
        ],
    )
    .unwrap()
}

fn people() -> Dataset {
    Dataset::new(
        vec!["name".to_string(), "age".to_string()],
        vec![
            vec![text("Ann"), text("Bob"), Value::Null, text("Annette"), text("ann")],
            vec![Value::Int(31), Value::Int(12), Value::Int(31), Value::Null, Value::Int(131)],
        ],
    )
    .unwrap()
}

fn cond(ft: FilterType, col: &str, value: &str) -> FilterCondition {
    FilterCondition { filter_type: ft, column_name: col.to_string(), filter_value: value.to_string() }
}

#[test]
fn scenario_contains_then_sort_descending() {
    let df = cities();
    let f = filter_dataframe(&df, &[cond(FilterType::Contains, "city", "Y")]).unwrap();
    assert_eq!(f.height(), 1);
    assert_eq!(f.column(3), &vec![text("NYC")]);
    assert_eq!(f.column(0), &vec![Value::Int(1)]);
    let s = sort_dataframe(
        &df,
        &Some(SortCondition { column_name: "id".to_string(), ascending: false }),
    )
    .unwrap();
    assert_eq!(s.column(0), &vec![Value::Int(2), Value::Int(1)]);
    assert_eq!(s.column(3), &vec![text("LA"), text("NYC")]);
}

#[test]
fn no_conditions_keeps_everything() {
    let df = people();
    let f = filter_dataframe(&df, &[]).unwrap();
    assert_eq!(f.column_names(), df.column_names());
    assert_eq!(f.column(0), df.column(0));
    assert_eq!(f.column(1), df.column(1));
}

#[test]
fn equals_is_exact_and_case_sensitive() {
    let f = filter_dataframe(&people(), &[cond(FilterType::Equals, "name", "Ann")]).unwrap();
    assert_eq!(f.column(0), &vec![text("Ann")]);
    assert_eq!(f.column(1), &vec![Value::Int(31)]);
}

#[test]
fn equals_on_integers_compares_text() {
    let f = filter_dataframe(&people(), &[cond(FilterType::Equals, "age", "31")]).unwrap();
    assert_eq!(f.column(0), &vec![text("Ann"), Value::Null]);
}

#[test]
fn contains_is_substring_and_skips_nulls() {
    let f = filter_dataframe(&people(), &[cond(FilterType::Contains, "name", "Ann")]).unwrap();
    assert_eq!(f.column(0), &vec![text("Ann"), text("Annette")]);
    let g = filter_dataframe(&people(), &[cond(FilterType::Contains, "age", "31")]).unwrap();
    assert_eq!(g.column(1), &vec![Value::Int(31), Value::Int(31), Value::Int(131)]);
}

#[test]
fn contains_empty_value_keeps_non_null_rows() {
    let f = filter_dataframe(&people(), &[cond(FilterType::Contains, "name", "")]).unwrap();
    assert_eq!(f.height(), 4);
}

#[test]
fn two_conditions_equal_filtering_twice() {
    let df = people();
    let c1 = cond(FilterType::Contains, "name", "nn");
    let c2 = cond(FilterType::Equals, "age", "31");
    let both = filter_dataframe(&df, &[c1.clone(), c2.clone()]).unwrap();
    let first = filter_dataframe(&df, &[c1]).unwrap();
    let twice = filter_dataframe(&first, &[c2]).unwrap();
    assert_eq!(both.column(0), twice.column(0));
    assert_eq!(both.column(1), twice.column(1));
    assert_eq!(both.column(0), &vec![text("Ann")]);
}

#[test]
fn unknown_column_is_reported_first() {
    let r = filter_dataframe(
        &people(),
        &[
            cond(FilterType::Equals, "name", "Ann"),
            cond(FilterType::Equals, "height", "1"),
            cond(FilterType::Equals, "width", "1"),
        ],
    );
    assert_eq!(r.unwrap_err(), FilterError::ColumnNotFound("height".to_string()));
}

#[test]
fn filter_type_labels() {
    assert_eq!(FilterType::Equals.label(), "Equals");
    assert_eq!(FilterType::Contains.label(), "Contains");
}
