use cta_collectthemall::cache::{
    cache_is_fresh, cached_game_from_read, get_cached_game, CacheRead, TileMetaCache, GAMES_CACHE_MISSING,
    GAMES_CACHE_TTL_SECS,
};
use cta_collectthemall::models::{CacheData, Game, GameConfig, TileMeta};

fn game(id: u32, title: &str) -> Game {
    Game {
        id,
        title: title.to_string(),
        slug: title.to_lowercase(),
        status: "active".to_string(),
        image: None,
        logo: None,
        config: GameConfig {
            cdn_url: String::new(),
            tiles_base_url: String::new(),
            presets_enabled: false,
            marker_sprite_url: String::new(),
            compass_enabled: false,
            heatmaps_enabled: false,
        },
        maps: vec![],
    }
}

fn meta(t: &str) -> TileMeta {
    TileMeta { min_zoom: 1, max_zoom: 5, extension: "png".to_string(), url_template: t.to_string() }
}

#[test]
fn freshness_window_is_twelve_hours() {
    assert_eq!(GAMES_CACHE_TTL_SECS, 12 * 60 * 60);
    let now = 1_700_000_000u64;
    assert!(cache_is_fresh(now, now));
    assert!(cache_is_fresh(now, now - 43_199));
    assert!(!cache_is_fresh(now, now - 43_200));
    assert!(!cache_is_fresh(now, 0));
}

#[test]
fn future_timestamp_wraps_to_stale() {
    let now = 1_700_000_000u64;
    assert!(!cache_is_fresh(now, now + 1));
    assert!(cache_is_fresh(5, u64::MAX));
}

#[test]
fn cached_game_by_id() {
    let cache = CacheData { timestamp: 1, games: vec![game(1, "A"), game(2, "B"), game(2, "C")] };
    let g = get_cached_game(cache, 2).ok().unwrap();
    assert_eq!(g.title, "B");
}

#[test]
fn cached_game_missing() {
    let cache = CacheData { timestamp: 1, games: vec![game(1, "A")] };
    assert_eq!(get_cached_game(cache, 42).err().unwrap(), "Game with id 42 not found in cache");
}

#[test]
fn tile_meta_read_after_write() {
    let mut c = TileMetaCache::new();
    assert!(c.get(1, 2).is_none());
    c.insert(1, 2, meta("u1"));
    c.insert(2, 1, meta("u2"));
    assert_eq!(c.get(1, 2).unwrap().url_template, "u1");
    assert_eq!(c.get(2, 1).unwrap().url_template, "u2");
    c.insert(1, 2, meta("u3"));
    assert_eq!(c.get(1, 2).unwrap().url_template, "u3");
    assert!(c.get(1, 3).is_none());
    c.insert(u32::MAX, u32::MAX, meta("max"));
    assert_eq!(c.get(u32::MAX, u32::MAX).unwrap().url_template, "max");
    assert!(c.get(u32::MAX, 0).is_none());
}

#[test]
fn old_meta_without_template_is_a_miss() {
    let mut c = TileMetaCache::new();
    assert!(c.admit_loaded(3, 4, meta("")).is_none());
    assert!(c.get(3, 4).is_none());
    let m = c.admit_loaded(3, 4, meta("https://t/{z}/{x}/{y}.png")).unwrap();
    assert_eq!(m.url_template, "https://t/{z}/{x}/{y}.png");
    assert_eq!(c.get(3, 4).unwrap().url_template, "https://t/{z}/{x}/{y}.png");
}

#[test]
fn cached_game_from_each_kind_of_read() {
    assert_eq!(
        cached_game_from_read(CacheRead::Unreadable, 1).err().unwrap(),
        "Game cache not found \u{2014} fetch the games list first"
    );
    assert_eq!(cached_game_from_read(CacheRead::Unreadable, 1).err().unwrap(), GAMES_CACHE_MISSING);
    assert_eq!(
        cached_game_from_read(CacheRead::Malformed("expected value at line 1 column 1".to_string()), 1)
            .err()
            .unwrap(),
        "expected value at line 1 column 1"
    );
    let stale = CacheData { timestamp: 0, games: vec![game(7, "Old")] };
    assert_eq!(cached_game_from_read(CacheRead::Parsed(stale), 7).ok().unwrap().title, "Old");
    let cache = CacheData { timestamp: 1, games: vec![game(1, "A")] };
    assert_eq!(
        cached_game_from_read(CacheRead::Parsed(cache), 9).err().unwrap(),
        "Game with id 9 not found in cache"
    );
}
