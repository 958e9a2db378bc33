//! Data models: what the MapGenie servers send and what is kept on disk.
//!
//! Floating-point fields are carried as their IEEE-754 bit patterns and
//! free-form JSON as its text, so that every value here is a plain value.

use vstd::prelude::*;

verus! {

/// Per-game settings that tell where the tiles and marker icons live.
pub struct GameConfig {
    pub cdn_url: String,
    pub tiles_base_url: String,
    pub presets_enabled: bool,
    pub marker_sprite_url: String,
    pub compass_enabled: bool,
    pub heatmaps_enabled: bool,
}

/// A single map that belongs to a game (a game can have several maps).
pub struct GameMap {
    pub id: u32,
    pub game_id: u32,
    pub title: String,
    pub slug: String,
    pub image: Option<String>,
    pub order: i32,
    pub enabled: bool,
    pub available: bool,
    pub work_in_progress: bool,
    pub initial_zoom: i32,
    /// `f64::to_bits` of the initial latitude.
    pub initial_latitude_bits: u64,
    /// `f64::to_bits` of the initial longitude.
    pub initial_longitude_bits: u64,
    pub locations_count: u32,
    /// The map style as JSON text, when present.
    pub map_style: Option<String>,
}

/// One game in the library.
pub struct Game {
    pub id: u32,
    pub title: String,
    pub slug: String,
    pub status: String,
    pub image: Option<String>,
    pub logo: Option<String>,
    pub config: GameConfig,
    pub maps: Vec<GameMap>,
}

/// What the games-list cache file holds: the games and when they were fetched.
pub struct CacheData {
    pub timestamp: u64,
    pub games: Vec<Game>,
}

/// One rectangle inside the marker sprite sheet.
#[derive(Clone, Copy)]
pub struct MarkerSpriteEntry {
    pub width: u32,
    pub height: u32,
    pub x: u32,
    pub y: u32,
    pub pixel_ratio: u32,
}

/// Metadata kept about a map's tiles (saved as tile_meta.json).
pub struct TileMeta {
    pub min_zoom: u32,
    pub max_zoom: u32,
    pub extension: String,
    /// Full CDN URL with `{z}`/`{x}`/`{y}` placeholders.
    pub url_template: String,
}

impl Clone for TileMeta {
    fn clone(&self) -> (r: Self)
        ensures
            r == *self,
    {
        TileMeta {
            min_zoom: self.min_zoom,
            max_zoom: self.max_zoom,
            extension: self.extension.clone(),
            url_template: self.url_template.clone(),
        }
    }
}

/// Progress update sent to the user interface while downloading tiles.
#[derive(Clone, Copy)]
pub struct TileProgress {
    pub game_id: u32,
    pub downloaded: u64,
    pub total: u64,
}

/// The found-marker ids of one game map, as imported from the web storage.
pub struct FoundImportEntry {
    pub game_id: u32,
    pub map_id: u32,
    pub ids: Vec<i64>,
}

} // verus!
