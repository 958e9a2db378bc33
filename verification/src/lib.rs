//! Verified core of the CollectThemAll map-collectible tracker.

pub mod text;
pub mod urls;
pub mod models;
pub mod paths;
pub mod tile_config;
pub mod tiles;
pub mod cache;
pub mod serve;
pub mod scrape;
pub mod assets;
pub mod db;
