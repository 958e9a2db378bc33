//! Where each piece of downloaded data lives, as path segments below the
//! application's data directory.

use vstd::prelude::*;
use crate::text::{decimal, decimal_chars, push_str, string_from_chars};

verus! {

broadcast use vstd::string::group_string_axioms;

/// The text of each segment.
pub open spec fn seg_view(v: Seq<String>) -> Seq<Seq<char>> {
    v.map_values(|s: String| s@)
}

/// The decimal notation of `n` as a `String`.
pub fn decimal_string(n: u64) -> (s: String)
    ensures
        s@ == decimal(n as nat),
{
    let v = decimal_chars(n);
    string_from_chars(&v)
}

/// Appends one segment and keeps `seg_view` in step.
fn push_seg(v: &mut Vec<String>, s: String)
    ensures
        seg_view(final(v)@) == seg_view(old(v)@).push(s@),
{
    v.push(s);
    assert(seg_view(v@) =~= seg_view(old(v)@).push(s@));
}

/// `assets/{game_id}`: the folder of one game's downloaded assets.
pub open spec fn spec_game_dir(game_id: u32) -> Seq<Seq<char>> {
    seq!["assets"@, decimal(game_id as nat)]
}

/// `assets/{game_id}/maps/{map_id}`: the folder of one map's data.
pub open spec fn spec_map_dir(game_id: u32, map_id: u32) -> Seq<Seq<char>> {
    spec_game_dir(game_id) + seq!["maps"@, decimal(map_id as nat)]
}

/// The folder of one game's downloaded assets.
pub fn game_dir_segments(game_id: u32) -> (r: Vec<String>)
    ensures
        seg_view(r@) == spec_game_dir(game_id),
{
    let mut r: Vec<String> = Vec::new();
    push_seg(&mut r, "assets".to_owned());
    push_seg(&mut r, decimal_string(game_id as u64));
    assert(seg_view(r@) =~= spec_game_dir(game_id));
    r
}

/// The path of a cached game asset: `assets/{game_id}/{filename}`.
pub fn game_asset_segments(game_id: u32, filename: &str) -> (r: Vec<String>)
    ensures
        seg_view(r@) == spec_game_dir(game_id).push(filename@),
{
    let mut r = game_dir_segments(game_id);
    push_seg(&mut r, filename.to_owned());
    r
}

/// The marker file whose presence records a finished asset download:
/// `assets/{game_id}/.assets_complete`.
pub fn assets_complete_marker_segments(game_id: u32) -> (r: Vec<String>)
    ensures
        seg_view(r@) == spec_game_dir(game_id).push(".assets_complete"@),
{
    game_asset_segments(game_id, ".assets_complete")
}

/// The folder of one game's per-map data: `assets/{game_id}/maps`.
pub fn maps_dir_segments(game_id: u32) -> (r: Vec<String>)
    ensures
        seg_view(r@) == spec_game_dir(game_id).push("maps"@),
{
    game_asset_segments(game_id, "maps")
}

/// The folder of one game's marker icons: `assets/{game_id}/markers`.
pub fn markers_dir_segments(game_id: u32) -> (r: Vec<String>)
    ensures
        seg_view(r@) == spec_game_dir(game_id).push("markers"@),
{
    game_asset_segments(game_id, "markers")
}

/// The folder of one map's data: `assets/{game_id}/maps/{map_id}`.
pub fn map_dir_segments(game_id: u32, map_id: u32) -> (r: Vec<String>)
    ensures
        seg_view(r@) == spec_map_dir(game_id, map_id),
{
    let mut r = game_dir_segments(game_id);
    push_seg(&mut r, "maps".to_owned());
    push_seg(&mut r, decimal_string(map_id as u64));
    assert(seg_view(r@) =~= spec_map_dir(game_id, map_id));
    r
}

/// A file inside one map's folder: `assets/{game_id}/maps/{map_id}/{name}`.
pub fn map_file_segments(game_id: u32, map_id: u32, name: &str) -> (r: Vec<String>)
    ensures
        seg_view(r@) == spec_map_dir(game_id, map_id).push(name@),
{
    let mut r = map_dir_segments(game_id, map_id);
    push_seg(&mut r, name.to_owned());
    r
}

/// The tile metadata file of one map: `assets/{game_id}/maps/{map_id}/tile_meta.json`.
pub fn tile_meta_segments(game_id: u32, map_id: u32) -> (r: Vec<String>)
    ensures
        seg_view(r@) == spec_map_dir(game_id, map_id).push("tile_meta.json"@),
{
    map_file_segments(game_id, map_id, "tile_meta.json")
}

/// The tile folder of one map: `assets/{game_id}/maps/{map_id}/tiles`.
pub fn map_tiles_dir_segments(game_id: u32, map_id: u32) -> (r: Vec<String>)
    ensures
        seg_view(r@) == spec_map_dir(game_id, map_id).push("tiles"@),
{
    map_file_segments(game_id, map_id, "tiles")
}

/// The file of one cached tile:
/// `assets/{game_id}/maps/{map_id}/tiles/{z}/{x}/{y}.{ext}`.
pub fn tile_file_segments(game_id: u32, map_id: u32, z: &str, x: &str, y: &str, ext: &str) -> (r:
    Vec<String>)
    ensures
        seg_view(r@) == spec_map_dir(game_id, map_id).push("tiles"@).push(z@).push(x@).push(
            y@ + "."@ + ext@,
        ),
{
    let mut r = map_tiles_dir_segments(game_id, map_id);
    push_seg(&mut r, z.to_owned());
    push_seg(&mut r, x.to_owned());
    let mut f: Vec<char> = Vec::new();
    push_str(&mut f, y);
    push_str(&mut f, ".");
    push_str(&mut f, ext);
    push_seg(&mut r, string_from_chars(&f));
    r
}

} // verus!
