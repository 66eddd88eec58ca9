use parqr::dataset::Dataset;
use parqr::geometry::{extract_h3cells, extract_lat_lons, lat_lon_positions};
use parqr::hexagon::{Hexagon, HexagonPlot};
use parqr::value::{Real, Value};

fn float(x: f64) -> Value {
    Value::Float(Real { bits: x.to_bits(), text: format!("{}", x) })
}

fn places() -> Dataset {
    Dataset::new(
        vec!["Latitude".to_string(), "LON".to_string(), "h3index".to_string()],
        vec![
            vec![float(40.7), Value::Null, float(34.0)],
            vec![float(-74.0), float(-118.2), Value::Null],
            vec![
                Value::Text("8a2a1072b59ffff".to_string()),
                Value::Null,
                Value::Text("zz".to_string()),
            ],
        ],
    )
    .unwrap()
}

#[test]
fn nulls_dropped_per_column() {
    let (lat, lon) = extract_lat_lons(&places()).unwrap();
    assert_eq!(lat, vec![40.7f64.to_bits(), 34.0f64.to_bits()]);
    assert_eq!(lon, vec![(-74.0f64).to_bits(), (-118.2f64).to_bits()]);
}

#[test]
fn positions_pair_up_to_shorter() {
    let d = Dataset::new(
        vec!["lat".to_string(), "lng".to_string()],
        vec![vec![float(1.0), float(2.0)], vec![float(3.0), Value::Null]],
    )
    .unwrap();
    assert_eq!(lat_lon_positions(&d), vec![(1.0f64.to_bits(), 3.0f64.to_bits())]);
}

#[test]
fn non_float_column_gives_no_positions() {
    let d = Dataset::new(
        vec!["lat".to_string(), "lon".to_string()],
        vec![vec![Value::Int(1)], vec![float(3.0)]],
    )
    .unwrap();
    assert_eq!(extract_lat_lons(&d), None);
    assert_eq!(lat_lon_positions(&d), vec![]);
}

#[test]
fn h3_cells_without_nulls() {
    assert_eq!(
        extract_h3cells(&places()),
        Some(vec!["8a2a1072b59ffff".to_string(), "zz".to_string()])
    );
}

#[test]
fn hexagon_cell_index() {
    assert_eq!(Hexagon::new("8a2a1072b59ffff".to_string()).cell_index(), Some(0x8a2a1072b59ffff));
    assert_eq!(Hexagon::new("zz".to_string()).cell_index(), None);
    assert_eq!(Hexagon::new("ffffffffffffffff".to_string()).cell_index(), None);
}

#[test]
fn hexagon_plot_keeps_cells() {
    let plot = HexagonPlot::new(vec!["a".to_string(), "b".to_string()]);
    let hs = plot.hexagons();
    assert_eq!(hs.len(), 2);
    assert_eq!(hs[1].h3cell(), "b");
}
