use cta_collectthemall::models::TileMeta;
use cta_collectthemall::serve::{
    parse_tile_request, plan_tile_source, tile_content_type, tile_fetch_failure_status, TileFetchFailure,
    STATUS_BAD_GATEWAY, STATUS_NOT_FOUND,
};

#[test]
fn parses_tile_path() {
    let r = parse_tile_request("/12/345/3/4/5.png").unwrap();
    assert_eq!((r.game_id, r.map_id), (12, 345));
    assert_eq!((r.z.as_str(), r.x.as_str(), r.y.as_str()), ("3", "4", "5"));
}

#[test]
fn tile_path_variants() {
    assert!(parse_tile_request("12/345/3/4/5").is_some());
    assert!(parse_tile_request("///12/345/3/4/5.jpg").is_some());
    assert_eq!(parse_tile_request("/+1/2/3/4/5").unwrap().game_id, 1);
    assert_eq!(parse_tile_request("/1/2/3/4/5.png.bak").unwrap().y, "5");
    assert!(parse_tile_request("/1/2/../x/y").is_none());
}

#[test]
fn bad_tile_paths() {
    assert!(parse_tile_request("/1/2/3/4").is_none());
    assert!(parse_tile_request("/1/2/3/4/5/").is_none());
    assert!(parse_tile_request("/a/2/3/4/5").is_none());
    assert!(parse_tile_request("/1/-2/3/4/5").is_none());
    assert!(parse_tile_request("/4294967296/2/3/4/5").is_none());
    assert!(parse_tile_request("").is_none());
}

#[test]
fn content_types() {
    assert_eq!(tile_content_type("jpg"), "image/jpeg");
    assert_eq!(tile_content_type("jpeg"), "image/jpeg");
    assert_eq!(tile_content_type("png"), "image/png");
    assert_eq!(tile_content_type("JPG"), "image/png");
    assert_eq!(tile_content_type("webp"), "image/png");
}

#[test]
fn no_meta_is_not_found() {
    let r = parse_tile_request("/1/2/3/4/5").unwrap();
    assert_eq!(plan_tile_source(&r, None).err(), Some(STATUS_NOT_FOUND));
}

#[test]
fn source_of_a_tile() {
    let r = parse_tile_request("/1/2/3/4/5.jpg").unwrap();
    let meta = TileMeta {
        min_zoom: 0,
        max_zoom: 9,
        extension: "jpg".to_string(),
        url_template: "https://tiles.mapgenie.io/games/g/{z}/{x}/{y}.jpg?z={z}".to_string(),
    };
    let s = plan_tile_source(&r, Some(meta)).ok().unwrap();
    assert_eq!(s.content_type, "image/jpeg");
    assert_eq!(s.file, vec!["assets", "1", "maps", "2", "tiles", "3", "4", "5.jpg"]);
    assert_eq!(s.fetch_url.unwrap(), "https://tiles.mapgenie.io/games/g/3/4/5.jpg?z=3");
}

#[test]
fn empty_template_has_no_fetch_url() {
    let r = parse_tile_request("/1/2/3/4/5").unwrap();
    let meta = TileMeta { min_zoom: 0, max_zoom: 9, extension: "png".to_string(), url_template: String::new() };
    let s = plan_tile_source(&r, Some(meta)).ok().unwrap();
    assert!(s.fetch_url.is_none());
    assert_eq!(s.file.last().unwrap(), "5.png");
}

#[test]
fn fetch_failures() {
    assert_eq!(tile_fetch_failure_status(TileFetchFailure::Unreachable), STATUS_BAD_GATEWAY);
    assert_eq!(tile_fetch_failure_status(TileFetchFailure::Rejected), 404);
    assert_eq!(tile_fetch_failure_status(TileFetchFailure::Unreadable), 502);
}

#[test]
fn round_trip_of_frontend_paths() {
    for (g, m) in [(0u32, 0u32), (7, 382), (u32::MAX, 1)] {
        let path = format!("/{}/{}/{}/{}/{}.{}", g, m, "5", "17", "9", "png");
        let r = parse_tile_request(&path).unwrap();
        assert_eq!((r.game_id, r.map_id, r.z.as_str(), r.x.as_str(), r.y.as_str()), (g, m, "5", "17", "9"));
    }
}

#[test]
fn refuses_parent_folder_segments() {
    assert!(parse_tile_request("/1/2/../../5.png").is_none());
    assert!(parse_tile_request("/1/2/3/../5.png").is_none());
    assert!(parse_tile_request("/1/2/3/4/...png").is_some());
    assert!(parse_tile_request("/1/2/3/4/...").is_some());
}

#[test]
fn refuses_backslash_segments() {
    assert!(parse_tile_request("/1/2/a\\b/4/5").is_none());
    assert!(parse_tile_request("/1/2/3/4/a\\b.png").is_none());
}

#[test]
fn accepts_empty_and_current_folder_segments() {
    let r = parse_tile_request("/1/2//3/4").unwrap();
    assert_eq!((r.z.as_str(), r.x.as_str(), r.y.as_str()), ("", "3", "4"));
    let r = parse_tile_request("/1/2/./4/5").unwrap();
    assert_eq!(r.z, ".");
    let r = parse_tile_request("/1/2/3/4/.png").unwrap();
    assert_eq!(r.y, "");
}

#[test]
fn accepts_dots_inside_segments() {
    let r = parse_tile_request("/1/2/3.5/x..y/7.png").unwrap();
    assert_eq!((r.z.as_str(), r.x.as_str(), r.y.as_str()), ("3.5", "x..y", "7"));
}
