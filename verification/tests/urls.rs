use cta_collectthemall::urls::{normalize_url, sibling_markers_json_url, strip_density_suffix};

#[test]
fn normalize_scheme_relative_url() {
    assert_eq!(normalize_url("//cdn.mapgenie.io/a.png", "x.io"), "https://cdn.mapgenie.io/a.png");
}

#[test]
fn normalize_root_relative_url() {
    assert_eq!(normalize_url("/images/sprite@2x.png", "cdn.mapgenie.io"), "https://cdn.mapgenie.io/images/sprite@2x.png");
}

#[test]
fn normalize_absolute_url_unchanged() {
    assert_eq!(normalize_url("https://a.b/c", "cdn.mapgenie.io"), "https://a.b/c");
    assert_eq!(normalize_url("", "cdn.mapgenie.io"), "");
}

#[test]
fn normalize_url_is_idempotent() {
    for u in ["//h/x", "/x", "x", "https://h/x", "/", "//"] {
        let once = normalize_url(u, "host");
        assert_eq!(normalize_url(&once, "host"), once);
    }
}

#[test]
fn strip_density_suffix_doc_example() {
    assert_eq!(strip_density_suffix("https://cdn.mapgenie.io/x/sprite@2x.png"), "https://cdn.mapgenie.io/x/sprite.png");
    assert_eq!(strip_density_suffix("sprite@3x.png"), "sprite.png");
    assert_eq!(strip_density_suffix("sprite@12x.webp?v=1"), "sprite.webp?v=1");
}

#[test]
fn strip_density_suffix_bare_x() {
    assert_eq!(strip_density_suffix("sprite@x.png"), "sprite@x.png");
    assert_eq!(strip_density_suffix("https://a.io/s@x.png"), "https://a.io/s@x.png");
}

#[test]
fn strip_density_suffix_leaves_other_urls() {
    assert_eq!(strip_density_suffix("sprite.png"), "sprite.png");
    assert_eq!(strip_density_suffix("user@host.png"), "user@host.png");
    assert_eq!(strip_density_suffix("sprite@2x"), "sprite@2x");
    assert_eq!(strip_density_suffix("sprite@.png"), "sprite@.png");
    assert_eq!(strip_density_suffix("a@2y.png"), "a@2y.png");
    assert_eq!(strip_density_suffix(""), "");
}

#[test]
fn strip_density_suffix_uses_last_at() {
    assert_eq!(strip_density_suffix("a@2x/b@3x.png"), "a@2x/b.png");
    assert_eq!(strip_density_suffix("a@2x.png@b"), "a@2x.png@b");
}

#[test]
fn strip_density_suffix_non_ascii() {
    assert_eq!(strip_density_suffix("karte-é@2x.png"), "karte-é.png");
}

#[test]
fn sibling_markers_json_from_retina_sprite() {
    assert_eq!(
        sibling_markers_json_url("https://cdn.mapgenie.io/images/games/elden/markers@2x.png?v=12").unwrap(),
        "https://cdn.mapgenie.io/images/games/elden/markers.json"
    );
}

#[test]
fn sibling_markers_json_from_plain_sprite() {
    assert_eq!(sibling_markers_json_url("https://a/b/sprite.png").unwrap(), "https://a/b/markers.json");
}

#[test]
fn sibling_markers_json_query_with_slash_is_dropped() {
    assert_eq!(sibling_markers_json_url("https://a/b/s.png?x=/y/z").unwrap(), "https://a/b/markers.json");
}

#[test]
fn sibling_markers_json_without_folder_is_an_error() {
    assert_eq!(
        sibling_markers_json_url("sprite@2x.png").unwrap_err(),
        "Unexpected marker sprite URL format: sprite@2x.png"
    );
}

#[test]
fn sibling_markers_json_keeps_a_folder_with_density_in_its_name() {
    assert_eq!(
        sibling_markers_json_url("https://h.io/v@2x.d/sprite.png").unwrap(),
        "https://h.io/v@2x.d/markers.json"
    );
}
