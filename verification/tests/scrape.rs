use cta_collectthemall::scrape::{
    extract_map_page_json, extract_named_var_json, map_data_url, map_page_url, sprite_source, SpriteSource,
    MAP_DATA_PREFIX, NO_JSON_AFTER_PREFIX,
};

#[test]
fn extracts_window_variable() {
    let html = r#"<script>window.mapData = {"mapConfig": {"tile_sets": []}, "n": [1, 2]}; var other = 3;</script>"#;
    let v = extract_named_var_json(html, "window.mapData = ").unwrap();
    let expected: serde_json::Value = serde_json::from_str(r#"{"mapConfig": {"tile_sets": []}, "n": [1, 2]}"#).unwrap();
    assert_eq!(v, expected);
}

#[test]
fn extracts_const_variable_after_first_occurrence() {
    let html = r#"const A = {"a":1}; const A = {"a":2};"#;
    let v = extract_named_var_json(html, "const A = ").unwrap();
    let expected: serde_json::Value = serde_json::from_str(r#"{"a":1}"#).unwrap();
    assert_eq!(v, expected);
}

#[test]
fn bare_number_needs_a_delimiter() {
    assert!(extract_named_var_json("const A = 1;", "const A = ").is_err());
    assert_eq!(extract_named_var_json("const A = 1 ;", "const A = ").unwrap(), serde_json::Value::from(1));
}

#[test]
fn extraction_skips_leading_whitespace() {
    let v = extract_named_var_json("x=\n\t [true]", "x=").unwrap();
    let expected: serde_json::Value = serde_json::from_str("[true]").unwrap();
    assert_eq!(v, expected);
}

#[test]
fn missing_prefix_reports_trimmed_prefix() {
    let e = extract_named_var_json("<html></html>", "window.mapData = ").unwrap_err();
    assert_eq!(e, "'window.mapData =' not found in page");
}

#[test]
fn nothing_after_prefix_is_reported() {
    let e = extract_named_var_json("window.mapData =   \n", "window.mapData =").unwrap_err();
    assert_eq!(e, NO_JSON_AFTER_PREFIX);
    assert_eq!(e, "Failed to parse JSON after variable prefix");
}

#[test]
fn malformed_json_reports_serde_error() {
    let html = "window.mapData = {oops};";
    let e = extract_named_var_json(html, "window.mapData = ").unwrap_err();
    let expected = serde_json::Deserializer::from_str("{oops};")
        .into_iter::<serde_json::Value>()
        .next()
        .unwrap()
        .unwrap_err()
        .to_string();
    assert_eq!(e, expected);
}

#[test]
fn map_page_with_and_without_positions() {
    let html = format!(
        "{}{}; const MARKER_SPRITE_POSITIONS_V3 = {};",
        MAP_DATA_PREFIX, r#"{"mapConfig":{"tile_sets":[]}}"#, r#"{"12":{"x":0}}"#
    );
    let page = extract_map_page_json(&html).unwrap();
    assert!(page.map_data.is_object());
    assert!(page.marker_positions.unwrap().is_object());

    let html2 = format!("{}{};", MAP_DATA_PREFIX, "[1]");
    let page2 = extract_map_page_json(&html2).unwrap();
    assert!(page2.marker_positions.is_none());

    assert_eq!(extract_map_page_json("nothing").err().unwrap(), "'window.mapData =' not found in page");
}

#[test]
fn page_urls() {
    assert_eq!(map_page_url("elden-ring", "the-lands-between"), "https://mapgenie.io/elden-ring/maps/the-lands-between");
    assert_eq!(map_data_url(382), "https://mapgenie.io/api/v1/maps/382/data");
}

#[test]
fn map_page_fields_hold_their_own_values() {
    let html = format!(
        "{}{}; const MARKER_SPRITE_POSITIONS_V3 = {};",
        MAP_DATA_PREFIX, r#"{"mapConfig":{"tile_sets":[]}}"#, r#"{"12":{"x":0}}"#
    );
    let page = extract_map_page_json(&html).unwrap();
    let map_data: serde_json::Value = serde_json::from_str(r#"{"mapConfig":{"tile_sets":[]}}"#).unwrap();
    let positions: serde_json::Value = serde_json::from_str(r#"{"12":{"x":0}}"#).unwrap();
    assert_eq!(page.map_data, map_data);
    assert_eq!(page.marker_positions, Some(positions));
}

#[test]
fn unreadable_positions_are_absent() {
    let html = format!("{}{}; const MARKER_SPRITE_POSITIONS_V3 = {{oops;", MAP_DATA_PREFIX, "[1]");
    let page = extract_map_page_json(&html).unwrap();
    assert_eq!(page.map_data, serde_json::Value::Array(vec![serde_json::Value::from(1)]));
    assert!(page.marker_positions.is_none());
}

#[test]
fn sprite_source_takes_object_positions() {
    let positions: serde_json::Value = serde_json::from_str(r#"{"b":{"x":1},"a":{"x":0}}"#).unwrap();
    match sprite_source(Some(positions)) {
        SpriteSource::Positions(members) => {
            let names: Vec<&str> = members.iter().map(|(k, _)| k.as_str()).collect();
            assert_eq!(names, vec!["a", "b"]);
            assert_eq!(members[0].1, serde_json::from_str::<serde_json::Value>(r#"{"x":0}"#).unwrap());
        }
        SpriteSource::Atlas => panic!("object positions must be used"),
    }
}

#[test]
fn sprite_source_falls_back_to_atlas() {
    assert!(matches!(sprite_source(None), SpriteSource::Atlas));
    assert!(matches!(sprite_source(Some(serde_json::Value::from(3))), SpriteSource::Atlas));
    let arr: serde_json::Value = serde_json::from_str("[1, 2]").unwrap();
    assert!(matches!(sprite_source(Some(arr)), SpriteSource::Atlas));
}

#[test]
fn empty_object_positions_are_used() {
    let empty: serde_json::Value = serde_json::from_str("{}").unwrap();
    match sprite_source(Some(empty)) {
        SpriteSource::Positions(members) => assert!(members.is_empty()),
        SpriteSource::Atlas => panic!("an empty object is still an object"),
    }
}
