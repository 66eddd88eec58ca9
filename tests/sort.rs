use parqr::dataset::Dataset;
use parqr::sort::{sort_dataframe, stable_sort_order, SortCondition, SortError};
use parqr::value::{Real, Value};

fn float(x: f64, text: &str) -> Value {
    Value::Float(Real { bits: x.to_bits(), text: text.to_string() })
}

fn text(s: &str) -> Value {
    Value::Text(s.to_string())
}

fn scores() -> Dataset {
    Dataset::new(
        vec!["team".to_string(), "score".to_string(), "ratio".to_string()],
        vec![
            vec![text("c"), text("a"), text("b"), text("d")],
            vec![Value::Int(3), Value::Int(1), Value::Int(3), Value::Null],
            vec![float(0.5, "0.5"), float(-2.0, "-2.0"), float(10.0, "10.0"), float(-0.25, "-0.25")],
        ],
    )
    .unwrap()
}

fn by(col: &str, ascending: bool) -> Option<SortCondition> {
    Some(SortCondition { column_name: col.to_string(), ascending })
}

#[test]
fn no_condition_is_identity() {
    let d = scores();
    let s = sort_dataframe(&d, &None).unwrap();
    assert_eq!(s.column(0), d.column(0));
    assert_eq!(s.column(1), d.column(1));
}

#[test]
fn ascending_is_stable_with_nulls_first() {
    let s = sort_dataframe(&scores(), &by("score", true)).unwrap();
    assert_eq!(s.column(0), &vec![text("d"), text("a"), text("c"), text("b")]);
}

#[test]
fn descending_keeps_ties_in_row_order() {
    let s = sort_dataframe(&scores(), &by("score", false)).unwrap();
    assert_eq!(s.column(0), &vec![text("c"), text("b"), text("a"), text("d")]);
}

#[test]
fn floats_sort_numerically() {
    let s = sort_dataframe(&scores(), &by("ratio", true)).unwrap();
    assert_eq!(s.column(0), &vec![text("a"), text("d"), text("c"), text("b")]);
}

#[test]
fn sorting_sorted_data_changes_nothing() {
    let once = sort_dataframe(&scores(), &by("score", true)).unwrap();
    let twice = sort_dataframe(&once, &by("score", true)).unwrap();
    assert_eq!(once.column(0), twice.column(0));
    assert_eq!(once.column(1), twice.column(1));
    assert_eq!(once.column(2), twice.column(2));
}

#[test]
fn descending_reverses_ascending_without_ties() {
    let up = sort_dataframe(&scores(), &by("team", true)).unwrap();
    let down = sort_dataframe(&scores(), &by("team", false)).unwrap();
    let mut rev = up.column(0).iter().map(|v| format!("{:?}", v)).collect::<Vec<_>>();
    rev.reverse();
    let down_text = down.column(0).iter().map(|v| format!("{:?}", v)).collect::<Vec<_>>();
    assert_eq!(rev, down_text);
    assert_eq!(up.column(0), &vec![text("a"), text("b"), text("c"), text("d")]);
}

#[test]
fn sort_order_of_column() {
    let col = vec![Value::Int(5), Value::Int(-1), Value::Int(5), Value::Int(0)];
    assert_eq!(stable_sort_order(&col, true), vec![1, 3, 0, 2]);
    assert_eq!(stable_sort_order(&col, false), vec![0, 2, 3, 1]);
    assert_eq!(stable_sort_order(&vec![], true), Vec::<usize>::new());
}

#[test]
fn unknown_sort_column() {
    let r = sort_dataframe(&scores(), &by("rank", true));
    assert_eq!(r.unwrap_err(), SortError::ColumnNotFound("rank".to_string()));
}

#[test]
fn zeros_tie_and_nans_go_last() {
    let col = vec![
        float(f64::NAN, "NaN"),
        float(0.0, "0.0"),
        float(-f64::NAN, "NaN"),
        float(-0.0, "-0.0"),
        float(-3.5, "-3.5"),
    ];
    assert_eq!(stable_sort_order(&col, true), vec![4, 1, 3, 0, 2]);
    assert_eq!(stable_sort_order(&col, false), vec![0, 2, 1, 3, 4]);
}
