use parqr::dataset::Dataset;
use parqr::filter::{FilterCondition, FilterType};
use parqr::value::{Real, Value};
use parqr::viewer::{Parqr, ViewTab};

fn float(x: f64) -> Value {
    Value::Float(Real { bits: x.to_bits(), text: format!("{}", x) })
}

fn cities() -> Dataset {
    Dataset::new(
        vec!["id".to_string(), "lat".to_string(), "lon".to_string(), "city".to_string()],
        vec![
            vec![Value::Int(1), Value::Int(2)],
            vec![float(40.7), float(34.0)],
            vec![float(-74.0), float(-118.2)],
            vec![Value::Text("NYC".to_string()), Value::Text("LA".to_string())],
        ],
    )
    .unwrap()
}

fn loaded() -> Parqr {
    let mut p = Parqr::new(vec!["a.parquet".to_string()]);
    let files = p.process_pending_files().unwrap();
    assert_eq!(files, vec!["a.parquet"]);
    p.load_parquet_data(Ok(cities()));
    p
}

#[test]
fn pending_files_handed_out_once() {
    let mut p = Parqr::new(vec!["a.parquet".to_string()]);
    assert!(p.process_pending_files().is_some());
    assert!(p.files_loaded);
    assert!(p.process_pending_files().is_none());
    let mut q = Parqr::new(vec![]);
    assert!(q.process_pending_files().is_none());
    assert_eq!(q.selected_tab, ViewTab::Table);
}

#[test]
fn load_adds_row_index_and_positions() {
    let p = loaded();
    assert_eq!(p.column_names, vec!["Row Index", "id", "lat", "lon", "city"]);
    assert_eq!(p.dataframe.as_ref().unwrap().column(0), &vec![Value::Int(0), Value::Int(1)]);
    assert_eq!(p.error_message, None);
    assert_eq!(
        p.positions,
        vec![(40.7f64.to_bits(), (-74.0f64).to_bits()), (34.0f64.to_bits(), (-118.2f64).to_bits())]
    );
}

#[test]
fn load_error_clears_data() {
    let mut p = loaded();
    p.load_parquet_data(Err("bad magic".to_string()));
    assert!(p.dataframe.is_none());
    assert!(p.original_dataframe.is_none());
    assert!(p.column_names.is_empty());
    assert_eq!(p.error_message.as_deref(), Some("Error processing Parquet files: bad magic"));
}

#[test]
fn browse_results() {
    let mut p = loaded();
    p.handle_browse_button_click(Some(vec![]));
    assert_eq!(
        p.error_message.as_deref(),
        Some("No files selected. Please select at least one Parquet file.")
    );
    p.handle_browse_button_click(Some(vec!["b.parquet".to_string()]));
    assert_eq!(p.files_to_load, vec!["b.parquet"]);
    assert!(!p.files_loaded);
    assert_eq!(p.error_message, None);
    p.handle_browse_button_click(None);
    assert_eq!(p.files_to_load, vec!["b.parquet"]);
}

#[test]
fn header_clicks_toggle_sort() {
    let mut p = loaded();
    let id = "id".to_string();
    p.toggle_sort(&id);
    assert_eq!(p.sort_indicator(&id), "\u{2B06}");
    assert_eq!(p.dataframe.as_ref().unwrap().column(1), &vec![Value::Int(1), Value::Int(2)]);
    p.toggle_sort(&id);
    assert_eq!(p.sort_indicator(&id), "\u{2B07}");
    assert_eq!(p.dataframe.as_ref().unwrap().column(1), &vec![Value::Int(2), Value::Int(1)]);
    let city = "city".to_string();
    assert_eq!(p.sort_indicator(&city), "");
    p.toggle_sort(&city);
    assert!(p.sort_condition.as_ref().unwrap().ascending);
    assert_eq!(p.dataframe.as_ref().unwrap().column(1), &vec![Value::Int(2), Value::Int(1)]);
}

#[test]
fn filter_dialog_edits() {
    let mut p = loaded();
    p.end_filter_dialog(false, false, &vec![]);
    assert_eq!(p.filter_conditions.len(), 1);
    assert_eq!(p.filter_conditions[0].filter_type, FilterType::Contains);
    assert_eq!(p.filter_conditions[0].column_name, "Row Index");
    assert_eq!(p.dataframe.as_ref().unwrap().height(), 2);
    p.filter_conditions[0] = FilterCondition {
        filter_type: FilterType::Contains,
        column_name: "city".to_string(),
        filter_value: "Y".to_string(),
    };
    p.end_filter_dialog(true, false, &vec![]);
    assert_eq!(p.dataframe.as_ref().unwrap().height(), 1);
    assert_eq!(p.positions.len(), 1);
    p.end_filter_dialog(false, true, &vec![]);
    assert_eq!(p.filter_conditions.len(), 2);
    assert_eq!(p.filter_conditions[1].filter_type, FilterType::Equals);
    assert_eq!(p.dataframe.as_ref().unwrap().height(), 0);
    p.end_filter_dialog(false, false, &vec![1]);
    assert_eq!(p.filter_conditions.len(), 1);
    assert_eq!(p.filter_conditions[0].filter_value, "Y");
    assert_eq!(p.dataframe.as_ref().unwrap().height(), 1);
    assert_eq!(p.dataframe.as_ref().unwrap().column(4), &vec![Value::Text("NYC".to_string())]);
}

#[test]
fn filter_error_shows_unfiltered_data() {
    let mut p = loaded();
    p.filter_conditions = vec![FilterCondition {
        filter_type: FilterType::Equals,
        column_name: "country".to_string(),
        filter_value: "US".to_string(),
    }];
    p.apply_filter();
    assert_eq!(p.error_message.as_deref(), Some("Filter error: column not found: country"));
    assert_eq!(p.dataframe.as_ref().unwrap().height(), 2);
}

#[test]
fn sort_error_keeps_data() {
    let mut p = loaded();
    let x = "x".to_string();
    p.toggle_sort(&x);
    assert_eq!(p.error_message.as_deref(), Some("Sort error: column not found: x"));
    assert_eq!(p.dataframe.as_ref().unwrap().column(1), &vec![Value::Int(1), Value::Int(2)]);
}

#[test]
fn h3_cells_from_display() {
    let mut p = Parqr::new(vec![]);
    let d = Dataset::new(
        vec!["H3Point".to_string()],
        vec![vec![Value::Text("8a2a1072b59ffff".to_string()), Value::Null]],
    )
    .unwrap();
    p.load_parquet_data(Ok(d));
    assert_eq!(p.h3cells, vec!["8a2a1072b59ffff"]);
    assert_eq!(p.find_h3cell_columns(), Some("H3Point".to_string()));
    assert_eq!(p.find_lat_lon_columns(), None);
    assert!(p.positions.is_empty());
}

#[test]
fn filter_shows_rows_in_loaded_order() {
    let mut p = loaded();
    let id = "id".to_string();
    p.toggle_sort(&id);
    p.toggle_sort(&id);
    assert_eq!(p.dataframe.as_ref().unwrap().column(1), &vec![Value::Int(2), Value::Int(1)]);
    p.filter_conditions = vec![FilterCondition {
        filter_type: FilterType::Contains,
        column_name: "city".to_string(),
        filter_value: "".to_string(),
    }];
    p.apply_filter();
    assert_eq!(p.error_message, None);
    assert_eq!(p.dataframe.as_ref().unwrap().column(1), &vec![Value::Int(1), Value::Int(2)]);
    assert_eq!(p.positions[0], (40.7f64.to_bits(), (-74.0f64).to_bits()));
}

#[test]
fn filter_error_not_hidden_by_stale_sort() {
    let mut p = loaded();
    let x = "x".to_string();
    p.toggle_sort(&x);
    p.filter_conditions = vec![FilterCondition {
        filter_type: FilterType::Equals,
        column_name: "country".to_string(),
        filter_value: "US".to_string(),
    }];
    p.apply_filter();
    assert_eq!(p.error_message.as_deref(), Some("Filter error: column not found: country"));
    p.filter_conditions = vec![];
    p.apply_filter();
    assert_eq!(p.error_message, None);
    assert_eq!(p.dataframe.as_ref().unwrap().column(1), &vec![Value::Int(1), Value::Int(2)]);
}

#[test]
fn map_cells_follow_filter() {
    let mut p = Parqr::new(vec![]);
    let d = Dataset::new(
        vec!["h3cell".to_string(), "k".to_string()],
        vec![
            vec![Value::Text("8a2a1072b59ffff".to_string()), Value::Text("8a2a1072b5affff".to_string())],
            vec![Value::Int(1), Value::Int(2)],
        ],
    )
    .unwrap();
    p.load_parquet_data(Ok(d));
    assert_eq!(p.h3cells.len(), 2);
    p.filter_conditions = vec![FilterCondition {
        filter_type: FilterType::Equals,
        column_name: "k".to_string(),
        filter_value: "2".to_string(),
    }];
    p.apply_filter();
    assert_eq!(p.h3cells, vec!["8a2a1072b5affff"]);
}
