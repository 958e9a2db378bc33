use cta_collectthemall::assets::{game_art_jobs, plan_game_assets, plan_marker_slices};
use cta_collectthemall::models::{Game, GameConfig, GameMap, MarkerSpriteEntry};

fn game_map(id: u32, slug: &str, image: Option<&str>) -> GameMap {
    GameMap {
        id,
        game_id: 7,
        title: slug.to_string(),
        slug: slug.to_string(),
        image: image.map(|s| s.to_string()),
        order: 0,
        enabled: true,
        available: true,
        work_in_progress: false,
        initial_zoom: 3,
        initial_latitude_bits: 1.5f64.to_bits(),
        initial_longitude_bits: (-2.0f64).to_bits(),
        locations_count: 10,
        map_style: None,
    }
}

fn game(id: u32, image: Option<&str>, logo: Option<&str>, sprite: &str, maps: Vec<GameMap>) -> Game {
    Game {
        id,
        title: "T".to_string(),
        slug: "the-game".to_string(),
        status: "active".to_string(),
        image: image.map(|s| s.to_string()),
        logo: logo.map(|s| s.to_string()),
        config: GameConfig {
            cdn_url: "https://cdn.mapgenie.io".to_string(),
            tiles_base_url: "https://tiles.mapgenie.io".to_string(),
            presets_enabled: true,
            marker_sprite_url: sprite.to_string(),
            compass_enabled: false,
            heatmaps_enabled: false,
        },
        maps,
    }
}

fn entry(x: u32, y: u32, width: u32, height: u32) -> MarkerSpriteEntry {
    MarkerSpriteEntry { width, height, x, y, pixel_ratio: 2 }
}

#[test]
fn art_jobs_keyed_by_game_id() {
    let games = vec![
        game(1, Some("https://i/1.jpg"), Some("https://l/1.jpg"), "", vec![]),
        game(2, None, Some("https://l/2.jpg"), "", vec![]),
        game(3, None, None, "", vec![]),
    ];
    let jobs = game_art_jobs(&games);
    assert_eq!(jobs.len(), 3);
    assert_eq!(jobs[0].game_dir, vec!["assets", "1"]);
    assert_eq!(jobs[0].downloads.len(), 2);
    assert_eq!(jobs[0].downloads[0].url, "https://i/1.jpg");
    assert_eq!(jobs[0].downloads[0].file, vec!["assets", "1", "image.jpg"]);
    assert_eq!(jobs[0].downloads[1].file, vec!["assets", "1", "logo.jpg"]);
    assert_eq!(jobs[1].downloads.len(), 1);
    assert_eq!(jobs[1].downloads[0].file, vec!["assets", "2", "logo.jpg"]);
    assert!(jobs[2].downloads.is_empty());
}

#[test]
fn asset_plan_of_a_game() {
    let g = game(
        7,
        None,
        None,
        "/images/games/the-game/markers@2x.png?v=3",
        vec![game_map(11, "north", Some("https://img/11.jpg")), game_map(12, "south", None)],
    );
    let p = plan_game_assets(&g);
    assert_eq!(p.complete_marker, vec!["assets", "7", ".assets_complete"]);
    assert_eq!(p.maps_dir, vec!["assets", "7", "maps"]);
    assert_eq!(p.markers_dir, vec!["assets", "7", "markers"]);
    assert_eq!(p.map_jobs.len(), 2);
    assert_eq!(p.map_jobs[0].data.url, "https://mapgenie.io/api/v1/maps/11/data");
    assert_eq!(p.map_jobs[0].data.file, vec!["assets", "7", "maps", "11.json"]);
    let img = p.map_jobs[0].image.as_ref().unwrap();
    assert_eq!(img.url, "https://img/11.jpg");
    assert_eq!(img.file, vec!["assets", "7", "maps", "11.jpg"]);
    assert!(p.map_jobs[1].image.is_none());
    assert_eq!(p.positions_page_url.unwrap(), "https://mapgenie.io/the-game/maps/north");
    assert_eq!(p.sprite.url, "https://cdn.mapgenie.io/images/games/the-game/markers@2x.png?v=3");
    assert_eq!(p.sprite.file, vec!["assets", "7", "markers", "sprite@2x.png"]);
    assert_eq!(p.fallback_sprite.url, "https://cdn.mapgenie.io/images/games/the-game/markers.png?v=3");
    assert_eq!(p.fallback_sprite.file, vec!["assets", "7", "markers", "sprite.png"]);
    assert_eq!(p.markers_json_url.unwrap(), "https://cdn.mapgenie.io/images/games/the-game/markers.json");
    assert_eq!(p.markers_json_file, vec!["assets", "7", "markers", "markers.json"]);
}

#[test]
fn asset_plan_without_maps() {
    let g = game(8, None, None, "//cdn.x/sprite@2x.png", vec![]);
    let p = plan_game_assets(&g);
    assert!(p.map_jobs.is_empty());
    assert!(p.positions_page_url.is_none());
    assert_eq!(p.sprite.url, "https://cdn.x/sprite@2x.png");
}

#[test]
fn asset_plan_with_folderless_sprite() {
    let g = game(9, None, None, "sprite.png", vec![]);
    let p = plan_game_assets(&g);
    assert_eq!(p.markers_json_url.unwrap_err(), "Unexpected marker sprite URL format: sprite.png");
}

#[test]
fn slices_skip_empty_and_out_of_bounds() {
    let markers = vec![
        ("12".to_string(), entry(0, 0, 32, 32)),
        ("13".to_string(), entry(0, 0, 0, 32)),
        ("14".to_string(), entry(90, 0, 20, 20)),
        ("15".to_string(), entry(80, 60, 20, 40)),
        ("16".to_string(), entry(u32::MAX, 0, 2, 2)),
        ("17".to_string(), entry(1, u32::MAX - 1, 2, 2)),
    ];
    let slices = plan_marker_slices(&markers, 100, 100);
    let got: Vec<(String, u32, u32, u32, u32)> =
        slices.iter().map(|s| (s.file_name.clone(), s.x, s.y, s.width, s.height)).collect();
    assert_eq!(got, vec![("12.png".to_string(), 0, 0, 32, 32), ("15.png".to_string(), 80, 60, 20, 40)]);
}
