use cta_collectthemall::models::{Game, GameConfig, GameMap};
use cta_collectthemall::tile_config::{normalize_tile_bounds, MapConfig, MinMax, RawTileBounds, TileSet, TileSetBounds};
use cta_collectthemall::tiles::{
    find_map, first_tile_set, progress_start, progress_step, progress_update, tile_count, tile_jobs, tile_meta_for,
    tiles_base, total_tile_count, MapTileJob,
};

fn b(x0: u32, x1: u32, y0: u32, y1: u32) -> TileSetBounds {
    TileSetBounds { x: MinMax { min: x0, max: x1 }, y: MinMax { min: y0, max: y1 } }
}

fn tile_set(min_zoom: u32, max_zoom: u32, raw: RawTileBounds) -> TileSet {
    TileSet {
        pattern: "elden/{z}/{x}/{y}.jpg".to_string(),
        extension: "jpg".to_string(),
        min_zoom,
        max_zoom,
        bounds: normalize_tile_bounds(raw),
    }
}

fn game_map(id: u32, slug: &str) -> GameMap {
    GameMap {
        id,
        game_id: 1,
        title: slug.to_string(),
        slug: slug.to_string(),
        image: None,
        order: 0,
        enabled: true,
        available: true,
        work_in_progress: false,
        initial_zoom: 3,
        initial_latitude_bits: 0f64.to_bits(),
        initial_longitude_bits: 0f64.to_bits(),
        locations_count: 0,
        map_style: None,
    }
}

fn game(maps: Vec<GameMap>) -> Game {
    Game {
        id: 7,
        title: "Elden Ring".to_string(),
        slug: "elden-ring".to_string(),
        status: "active".to_string(),
        image: None,
        logo: None,
        config: GameConfig {
            cdn_url: "https://cdn.mapgenie.io".to_string(),
            tiles_base_url: "https://tiles.mapgenie.io//".to_string(),
            presets_enabled: false,
            marker_sprite_url: "/images/sprite@2x.png".to_string(),
            compass_enabled: false,
            heatmaps_enabled: false,
        },
        maps,
    }
}

#[test]
fn keyed_bounds_are_looked_up_by_zoom() {
    let t = normalize_tile_bounds(RawTileBounds::Keyed(vec![
        ("3".to_string(), b(0, 1, 0, 1)),
        ("03".to_string(), b(9, 9, 9, 9)),
        ("x".to_string(), b(8, 8, 8, 8)),
        ("4".to_string(), b(0, 3, 0, 3)),
        ("3".to_string(), b(2, 2, 5, 5)),
    ]));
    let z3 = t.get(3).unwrap();
    assert_eq!((z3.x.min, z3.x.max, z3.y.min, z3.y.max), (2, 2, 5, 5));
    assert_eq!(t.get(4).unwrap().x.max, 3);
    assert!(t.get(0).is_none());
    assert!(t.get(5).is_none());
}

#[test]
fn indexed_bounds_use_the_index_as_zoom() {
    let t = normalize_tile_bounds(RawTileBounds::Indexed(vec![None, Some(b(0, 0, 0, 0)), None, Some(b(1, 2, 3, 4))]));
    assert!(t.get(0).is_none());
    assert_eq!(t.get(1).unwrap().x.max, 0);
    assert!(t.get(2).is_none());
    assert_eq!(t.get(3).unwrap().y.max, 4);
    assert!(t.get(4).is_none());
}

#[test]
fn missing_bounds_are_empty() {
    let t = normalize_tile_bounds(RawTileBounds::Missing);
    assert!(t.get(0).is_none());
}

#[test]
fn jobs_cover_every_tile_in_order() {
    let ts = tile_set(2, 4, RawTileBounds::Keyed(vec![
        ("2".to_string(), b(0, 1, 5, 6)),
        ("4".to_string(), b(3, 3, 1, 1)),
    ]));
    let jobs = tile_jobs(&ts, "https://tiles.mapgenie.io/games", 7, 11);
    let coords: Vec<(u32, u32, u32)> = jobs.iter().map(|j| (j.z, j.x, j.y)).collect();
    assert_eq!(coords, vec![(2, 0, 5), (2, 0, 6), (2, 1, 5), (2, 1, 6), (4, 3, 1)]);
    assert_eq!(jobs[1].url, "https://tiles.mapgenie.io/games/elden/2/0/6.jpg");
    assert_eq!(jobs[1].file, vec!["assets", "7", "maps", "11", "tiles", "2", "0", "6.jpg"]);
    assert_eq!(tile_count(&ts), Some(jobs.len() as u64));
}

#[test]
fn inverted_ranges_have_no_tiles() {
    let ts = tile_set(0, 1, RawTileBounds::Indexed(vec![Some(b(3, 1, 0, 0)), Some(b(0, 0, 4, 2))]));
    assert!(tile_jobs(&ts, "b", 1, 1).is_empty());
    assert_eq!(tile_count(&ts), Some(0));
    let empty_zoom = tile_set(5, 4, RawTileBounds::Missing);
    assert_eq!(tile_count(&empty_zoom), Some(0));
}

#[test]
fn huge_tile_sets_are_counted_without_overflow() {
    let ts = tile_set(0, 1, RawTileBounds::Indexed(vec![Some(b(0, u32::MAX, 0, u32::MAX)), Some(b(0, 0, 0, 0))]));
    assert_eq!(tile_count(&ts), None);
    let one = tile_set(0, 0, RawTileBounds::Indexed(vec![Some(b(0, u32::MAX, 0, 0))]));
    assert_eq!(tile_count(&one), Some(1u64 << 32));
}

#[test]
fn totals_add_up_over_maps() {
    let jobs = vec![
        MapTileJob { map_id: 1, tile_set: tile_set(1, 1, RawTileBounds::Indexed(vec![None, Some(b(0, 2, 0, 1))])) },
        MapTileJob { map_id: 2, tile_set: tile_set(0, 0, RawTileBounds::Indexed(vec![Some(b(0, 0, 0, 3))])) },
    ];
    assert_eq!(total_tile_count(&jobs), Some(10));
    assert_eq!(total_tile_count(&vec![]), Some(0));
}

#[test]
fn tiles_base_trims_slashes() {
    let g = game(vec![]);
    assert_eq!(tiles_base(&g.config), "https://tiles.mapgenie.io/games");
}

#[test]
fn tile_meta_template() {
    let ts = tile_set(1, 6, RawTileBounds::Missing);
    let m = tile_meta_for(&ts, "https://tiles.mapgenie.io/games");
    assert_eq!((m.min_zoom, m.max_zoom), (1, 6));
    assert_eq!(m.extension, "jpg");
    assert_eq!(m.url_template, "https://tiles.mapgenie.io/games/elden/{z}/{x}/{y}.jpg");
}

#[test]
fn first_tile_set_or_error() {
    let e = first_tile_set(MapConfig { tile_sets: vec![] }).err().unwrap();
    assert_eq!(e, "No tile sets found for this map");
    let ts = first_tile_set(MapConfig { tile_sets: vec![tile_set(1, 2, RawTileBounds::Missing), tile_set(3, 4, RawTileBounds::Missing)] }).ok().unwrap();
    assert_eq!(ts.min_zoom, 1);
}

#[test]
fn find_map_by_id() {
    let g = game(vec![game_map(5, "a"), game_map(6, "b"), game_map(6, "c")]);
    assert_eq!(find_map(&g, 6).unwrap().slug, "b");
    assert_eq!(find_map(&g, 9).err().unwrap(), "Map 9 not found for game 7");
}

#[test]
fn progress_steps() {
    assert_eq!(progress_step(0), 1);
    assert_eq!(progress_step(199), 1);
    assert_eq!(progress_step(250), 2);
    assert_eq!(progress_step(10_000), 100);
    assert!(progress_update(1, 3, 2, 3).is_some());
    assert!(progress_update(1, 3, 2, 5).is_none());
    let p = progress_update(4, 200, 100, 1000).unwrap();
    assert_eq!((p.game_id, p.downloaded, p.total), (4, 200, 1000));
}

#[test]
fn every_tile_reported_for_small_totals() {
    let total = 150;
    let step = progress_step(total);
    for n in 1..=total {
        assert!(progress_update(1, n, step, total).is_some());
    }
}

#[test]
fn progress_start_with_and_without_tiles() {
    let s = progress_start(7, 0);
    assert_eq!((s.first.game_id, s.first.downloaded, s.first.total), (7, 0, 0));
    assert!(!s.has_tiles);
    let s = progress_start(7, 250);
    assert_eq!((s.first.game_id, s.first.downloaded, s.first.total), (7, 0, 250));
    assert!(s.has_tiles);
}

#[test]
fn progress_reports_are_bounded_by_steps() {
    for total in [1u64, 99, 199, 200, 250, 299, 1000, 12_345] {
        let step = progress_step(total);
        let reports = (1..=total).filter(|&n| progress_update(3, n, step, total).is_some()).count() as u64;
        assert!(reports <= total / step + 1);
        assert!(progress_update(3, total, step, total).is_some());
    }
    assert_eq!((1..=1000u64).filter(|&n| progress_update(3, n, 10, 1000).is_some()).count(), 100);
}
