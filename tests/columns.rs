use parqr::columns::{
    find_column, find_columns, find_h3cell_columns, find_lat_lon_columns, last_alias_match,
    latitude_names,
};

fn names(v: &[&str]) -> Vec<String> {
    v.iter().map(|s| s.to_string()).collect()
}

#[test]
fn no_alias_means_no_pair() {
    assert_eq!(find_lat_lon_columns(&names(&["X", "Y"])), None);
}

#[test]
fn pair_found_case_insensitively() {
    assert_eq!(
        find_lat_lon_columns(&names(&["id", "LAT", "Lng", "city"])),
        Some(("LAT".to_string(), "Lng".to_string()))
    );
}

#[test]
fn one_role_missing_gives_no_pair() {
    assert_eq!(find_lat_lon_columns(&names(&["latitude", "city"])), None);
}

#[test]
fn last_match_wins() {
    assert_eq!(
        find_lat_lon_columns(&names(&["lat", "lon", "Latitude", "LONGITUDE"])),
        Some(("Latitude".to_string(), "LONGITUDE".to_string()))
    );
}

#[test]
fn no_fuzzy_matching() {
    assert_eq!(find_column(&names(&["latitude_deg", "my_lat"]), &latitude_names()), None);
}

#[test]
fn h3_column() {
    assert_eq!(find_h3cell_columns(&names(&["a", "H3Cell", "b"])), Some("H3Cell".to_string()));
    assert_eq!(find_h3cell_columns(&names(&["a", "h3"])), None);
}

#[test]
fn several_roles_at_once() {
    let groups = vec![names(&["latitude", "lat"]), names(&["x"]), names(&["city", "town"])];
    assert_eq!(
        find_columns(&names(&["Town", "LAT", "CITY"]), &groups),
        vec![Some("LAT".to_string()), None, Some("CITY".to_string())]
    );
}

#[test]
fn alias_match_on_lowered_names() {
    assert_eq!(last_alias_match(&names(&["lat", "x", "lat"]), &names(&["lat"])), Some(2));
    assert_eq!(last_alias_match(&names(&["LAT"]), &names(&["lat"])), None);
    assert_eq!(last_alias_match(&names(&[]), &names(&["lat"])), None);
}
