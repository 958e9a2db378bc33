use cta_collectthemall::paths::{
    assets_complete_marker_segments, game_asset_segments, map_dir_segments, tile_file_segments, tile_meta_segments,
};

#[test]
fn asset_paths() {
    assert_eq!(game_asset_segments(42, "logo.jpg"), vec!["assets", "42", "logo.jpg"]);
    assert_eq!(assets_complete_marker_segments(42), vec!["assets", "42", ".assets_complete"]);
    assert_eq!(map_dir_segments(1, 2), vec!["assets", "1", "maps", "2"]);
    assert_eq!(tile_meta_segments(1, 2), vec!["assets", "1", "maps", "2", "tile_meta.json"]);
    assert_eq!(tile_file_segments(1, 2, "3", "4", "5", "png"), vec!["assets", "1", "maps", "2", "tiles", "3", "4", "5.png"]);
}
