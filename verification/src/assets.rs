//! Planning the downloads that make a game playable offline: the game's
//! artwork, each map's location data and preview, and the marker icons cut
//! out of the sprite sheet.

use vstd::prelude::*;
use crate::models::{Game, GameMap, MarkerSpriteEntry};
use crate::paths::{
    game_asset_segments, game_dir_segments, seg_view, spec_game_dir,
    assets_complete_marker_segments, maps_dir_segments, markers_dir_segments,
};
use crate::scrape::{map_data_url, map_page_url};
use crate::text::{decimal, push_str, string_from_chars};
use crate::urls::{
    normalize_url, sibling_markers_json_url, spec_normalize_url, spec_sibling_markers_json_url,
    spec_strip_density_suffix, strip_density_suffix,
};

verus! {

broadcast use vstd::string::group_string_axioms;

/// One file to download: where from, and where to (below the application
/// data folder).
pub struct AssetDownload {
    pub url: String,
    pub file: Vec<String>,
}

/// The view of a download.
pub open spec fn download_view(d: AssetDownload) -> (Seq<char>, Seq<Seq<char>>) {
    (d.url@, seg_view(d.file@))
}

/// The views of several downloads.
pub open spec fn downloads_view(ds: Seq<AssetDownload>) -> Seq<(Seq<char>, Seq<Seq<char>>)> {
    ds.map_values(|d: AssetDownload| download_view(d))
}

fn push_download(v: &mut Vec<AssetDownload>, d: AssetDownload)
    ensures
        downloads_view(final(v)@) == downloads_view(old(v)@).push(download_view(d)),
{
    v.push(d);
    assert(downloads_view(v@) =~= downloads_view(old(v)@).push(download_view(d)));
}

/// The artwork of one game in the games list.
pub struct GameArtJob {
    /// `assets/{game_id}`, created before the downloads.
    pub game_dir: Vec<String>,
    /// The cover image, then the logo, each when the game has one.
    pub downloads: Vec<AssetDownload>,
}

/// The artwork downloads of a game: its image to `image.jpg`, then its logo
/// to `logo.jpg`, in the game's folder.
pub open spec fn spec_art_downloads(g: Game) -> Seq<(Seq<char>, Seq<Seq<char>>)> {
    (match g.image {
        Some(u) => seq![(u@, spec_game_dir(g.id).push("image.jpg"@))],
        None => seq![],
    }) + (match g.logo {
        Some(u) => seq![(u@, spec_game_dir(g.id).push("logo.jpg"@))],
        None => seq![],
    })
}

/// The artwork to download for each game of a freshly fetched games list.
pub fn game_art_jobs(games: &Vec<Game>) -> (r: Vec<GameArtJob>)
    ensures
        r.len() == games.len(),
        forall|i: int|
            0 <= i < r.len() ==> seg_view(#[trigger] r[i].game_dir@) == spec_game_dir(games[i].id)
                && downloads_view(r[i].downloads@) == spec_art_downloads(games[i]),
{
    let mut r: Vec<GameArtJob> = Vec::new();
    let mut i: usize = 0;
    while i < games.len()
        invariant
            0 <= i <= games.len(),
            r.len() == i,
            forall|k: int|
                0 <= k < i ==> seg_view(#[trigger] r[k].game_dir@) == spec_game_dir(games[k].id)
                    && downloads_view(r[k].downloads@) == spec_art_downloads(games[k]),
        decreases games.len() - i,
    {
        let g = &games[i];
        let mut downloads: Vec<AssetDownload> = Vec::new();
        match &g.image {
            Some(u) => {
                push_download(
                    &mut downloads,
                    AssetDownload { url: u.clone(), file: game_asset_segments(g.id, "image.jpg") },
                );
            },
            None => {},
        }
        match &g.logo {
            Some(u) => {
                push_download(
                    &mut downloads,
                    AssetDownload { url: u.clone(), file: game_asset_segments(g.id, "logo.jpg") },
                );
            },
            None => {},
        }
        proof {
            assert(downloads_view(downloads@) =~= spec_art_downloads(*g));
        }
        r.push(GameArtJob { game_dir: game_dir_segments(g.id), downloads });
        i = i + 1;
    }
    r
}

/// The downloads of one map: its location data and its preview image.
pub struct MapAssetJob {
    pub map_id: u32,
    /// `https://mapgenie.io/api/v1/maps/{id}/data`, saved as `maps/{id}.json`.
    pub data: AssetDownload,
    /// The map's image, saved as `maps/{id}.jpg`, when it has one.
    pub image: Option<AssetDownload>,
}

/// The host of relative marker sprite URLs.
pub const SPRITE_DEFAULT_HOST: &'static str = "cdn.mapgenie.io";

/// The message when a game has no map to read marker positions from.
pub const NO_MAPS_MESSAGE: &'static str = "Game has no maps";

/// Everything `download_game_assets` fetches and writes for one game.
pub struct GameAssetPlan {
    /// `assets/{id}/.assets_complete`: written last; when present the game is done.
    pub complete_marker: Vec<String>,
    /// `assets/{id}/maps`.
    pub maps_dir: Vec<String>,
    /// `assets/{id}/markers`.
    pub markers_dir: Vec<String>,
    /// One job per map, in the game's order.
    pub map_jobs: Vec<MapAssetJob>,
    /// The page of the first map, which holds the marker sprite positions;
    /// `None` when the game has no maps.
    pub positions_page_url: Option<String>,
    /// The retina (`@2x`) sprite sheet, saved as `markers/sprite@2x.png`.
    pub sprite: AssetDownload,
    /// The plain sprite sheet used when the positions are missing, saved as
    /// `markers/sprite.png`.
    pub fallback_sprite: AssetDownload,
    /// The `markers.json` next to the sprite sheet, or the error when the
    /// sprite URL has no folder.
    pub markers_json_url: Result<String, String>,
    /// `markers/markers.json`.
    pub markers_json_file: Vec<String>,
}

/// The folder `assets/{game_id}/{sub}`.
pub open spec fn sub_dir(game_id: u32, sub: Seq<char>) -> Seq<Seq<char>> {
    spec_game_dir(game_id).push(sub)
}

/// `m` is the plan of the map `map`.
pub open spec fn map_job_matches(j: MapAssetJob, game_id: u32, map: GameMap) -> bool {
    &&& j.map_id == map.id
    &&& download_view(j.data) == (
        "https://mapgenie.io/api/v1/maps/"@ + decimal(map.id as nat) + "/data"@,
        sub_dir(game_id, "maps"@).push(decimal(map.id as nat) + ".json"@),
    )
    &&& match map.image {
        Some(u) => j.image matches Some(d) && download_view(d) == (
            u@,
            sub_dir(game_id, "maps"@).push(decimal(map.id as nat) + ".jpg"@),
        ),
        None => j.image is None,
    }
}

/// The normalized retina sprite sheet URL of a game.
pub open spec fn spec_sprite_url(game: Game) -> Seq<char> {
    spec_normalize_url(game.config.marker_sprite_url@, SPRITE_DEFAULT_HOST@)
}

fn map_file(game_id: u32, map_id: u32, ext: &str) -> (r: Vec<String>)
    ensures
        seg_view(r@) == sub_dir(game_id, "maps"@).push(decimal(map_id as nat) + ext@),
{
    let mut r = maps_dir_segments(game_id);
    let mut name: Vec<char> = crate::text::decimal_chars(map_id as u64);
    push_str(&mut name, ext);
    r.push(string_from_chars(&name));
    assert(seg_view(r@) =~= sub_dir(game_id, "maps"@).push(decimal(map_id as nat) + ext@));
    r
}

/// Plans the offline download of a game.
pub fn plan_game_assets(game: &Game) -> (p: GameAssetPlan)
    ensures
        seg_view(p.complete_marker@) == sub_dir(game.id, ".assets_complete"@),
        seg_view(p.maps_dir@) == sub_dir(game.id, "maps"@),
        seg_view(p.markers_dir@) == sub_dir(game.id, "markers"@),
        p.map_jobs.len() == game.maps.len(),
        forall|i: int|
            0 <= i < p.map_jobs.len() ==> map_job_matches(
                #[trigger] p.map_jobs[i],
                game.id,
                game.maps[i],
            ),
        game.maps.len() == 0 ==> p.positions_page_url is None,
        game.maps.len() > 0 ==> (p.positions_page_url matches Some(u) && u@ == "https://mapgenie.io/"@
            + game.slug@ + "/maps/"@ + game.maps[0].slug@),
        download_view(p.sprite) == (
            spec_sprite_url(*game),
            sub_dir(game.id, "markers"@).push("sprite@2x.png"@),
        ),
        download_view(p.fallback_sprite) == (
            spec_strip_density_suffix(spec_sprite_url(*game)),
            sub_dir(game.id, "markers"@).push("sprite.png"@),
        ),
        match p.markers_json_url {
            Ok(u) => spec_sibling_markers_json_url(spec_sprite_url(*game)) == Ok::<
                Seq<char>,
                Seq<char>,
            >(u@),
            Err(e) => spec_sibling_markers_json_url(spec_sprite_url(*game)) == Err::<
                Seq<char>,
                Seq<char>,
            >(e@),
        },
        seg_view(p.markers_json_file@) == sub_dir(game.id, "markers"@).push("markers.json"@),
{
    let mut map_jobs: Vec<MapAssetJob> = Vec::new();
    let mut i: usize = 0;
    while i < game.maps.len()
        invariant
            0 <= i <= game.maps.len(),
            map_jobs.len() == i,
            forall|k: int|
                0 <= k < i ==> map_job_matches(#[trigger] map_jobs[k], game.id, game.maps[k]),
        decreases game.maps.len() - i,
    {
        let m = &game.maps[i];
        let data = AssetDownload { url: map_data_url(m.id), file: map_file(game.id, m.id, ".json") };
        let image = match &m.image {
            Some(u) => Some(AssetDownload { url: u.clone(), file: map_file(game.id, m.id, ".jpg") }),
            None => None,
        };
        map_jobs.push(MapAssetJob { map_id: m.id, data, image });
        i = i + 1;
    }
    let positions_page_url = if game.maps.len() > 0 {
        Some(map_page_url(game.slug.as_str(), game.maps[0].slug.as_str()))
    } else {
        None
    };
    let sprite_url = normalize_url(game.config.marker_sprite_url.as_str(), SPRITE_DEFAULT_HOST);
    let mut sprite_file = markers_dir_segments(game.id);
    sprite_file.push("sprite@2x.png".to_owned());
    let mut fallback_file = markers_dir_segments(game.id);
    fallback_file.push("sprite.png".to_owned());
    let mut markers_json_file = markers_dir_segments(game.id);
    markers_json_file.push("markers.json".to_owned());
    proof {
        assert(seg_view(sprite_file@) =~= sub_dir(game.id, "markers"@).push("sprite@2x.png"@));
        assert(seg_view(fallback_file@) =~= sub_dir(game.id, "markers"@).push("sprite.png"@));
        assert(seg_view(markers_json_file@) =~= sub_dir(game.id, "markers"@).push(
            "markers.json"@,
        ));
    }
    let fallback_url = strip_density_suffix(sprite_url.as_str());
    let markers_json_url = sibling_markers_json_url(sprite_url.as_str());
    GameAssetPlan {
        complete_marker: assets_complete_marker_segments(game.id),
        maps_dir: maps_dir_segments(game.id),
        markers_dir: markers_dir_segments(game.id),
        map_jobs,
        positions_page_url,
        sprite: AssetDownload { url: sprite_url, file: sprite_file },
        fallback_sprite: AssetDownload { url: fallback_url, file: fallback_file },
        markers_json_url,
        markers_json_file,
    }
}

// ---------------------------------------------------------------------------
// Marker icons
// ---------------------------------------------------------------------------

/// One icon to cut out of the sprite sheet and save as `{name}.png`.
pub struct SpriteSlice {
    pub file_name: String,
    pub x: u32,
    pub y: u32,
    pub width: u32,
    pub height: u32,
}

/// The rectangle of `e` is non-empty and lies inside a `sheet_w` by `sheet_h`
/// sheet (computed without wrap-around).
pub open spec fn slice_fits(e: MarkerSpriteEntry, sheet_w: u32, sheet_h: u32) -> bool {
    &&& e.width != 0
    &&& e.height != 0
    &&& e.x + e.width <= sheet_w
    &&& e.y + e.height <= sheet_h
}

/// The view of a slice: file name and rectangle.
pub open spec fn slice_view(s: SpriteSlice) -> (Seq<char>, u32, u32, u32, u32) {
    (s.file_name@, s.x, s.y, s.width, s.height)
}

/// The icons to cut, in the order of `markers`: the entries whose rectangle
/// is non-empty and inside the sheet; the others are skipped.
pub open spec fn spec_marker_slices(
    markers: Seq<(Seq<char>, MarkerSpriteEntry)>,
    sheet_w: u32,
    sheet_h: u32,
) -> Seq<(Seq<char>, u32, u32, u32, u32)>
    decreases markers.len(),
{
    if markers.len() == 0 {
        seq![]
    } else {
        let (name, e) = markers.last();
        spec_marker_slices(markers.drop_last(), sheet_w, sheet_h) + (if slice_fits(
            e,
            sheet_w,
            sheet_h,
        ) {
            seq![(name + ".png"@, e.x, e.y, e.width, e.height)]
        } else {
            seq![]
        })
    }
}

/// The names (as text) and rectangles of named sprite entries.
pub open spec fn markers_view(m: Seq<(String, MarkerSpriteEntry)>) -> Seq<(Seq<char>, MarkerSpriteEntry)> {
    m.map_values(|p: (String, MarkerSpriteEntry)| (p.0@, p.1))
}

/// Plans cutting the named regions out of a `sheet_w` by `sheet_h` sprite
/// sheet: empty rectangles and rectangles reaching outside the sheet are
/// skipped instead of read out of bounds.
pub fn plan_marker_slices(markers: &Vec<(String, MarkerSpriteEntry)>, sheet_w: u32, sheet_h: u32) -> (r:
    Vec<SpriteSlice>)
    ensures
        r@.map_values(|s: SpriteSlice| slice_view(s)) == spec_marker_slices(
            markers_view(markers@),
            sheet_w,
            sheet_h,
        ),
{
    let mut r: Vec<SpriteSlice> = Vec::new();
    let mut i: usize = 0;
    let ghost mv = markers_view(markers@);
    while i < markers.len()
        invariant
            0 <= i <= markers.len(),
            mv == markers_view(markers@),
            r@.map_values(|s: SpriteSlice| slice_view(s)) == spec_marker_slices(
                mv.take(i as int),
                sheet_w,
                sheet_h,
            ),
        decreases markers.len() - i,
    {
        let e = markers[i].1;
        let ghost prev = r@;
        proof {
            assert(mv.take(i + 1).drop_last() == mv.take(i as int));
            assert(mv.take(i + 1).last() == (markers[i as int].0@, e));
        }
        if e.width != 0 && e.height != 0 && e.x as u64 + e.width as u64 <= sheet_w as u64
            && e.y as u64 + e.height as u64 <= sheet_h as u64 {
            let mut name: Vec<char> = crate::text::chars_of(markers[i].0.as_str());
            push_str(&mut name, ".png");
            r.push(
                SpriteSlice {
                    file_name: string_from_chars(&name),
                    x: e.x,
                    y: e.y,
                    width: e.width,
                    height: e.height,
                },
            );
            proof {
                assert(r@.map_values(|s: SpriteSlice| slice_view(s)) =~= prev.map_values(
                    |s: SpriteSlice| slice_view(s),
                ).push((markers[i as int].0@ + ".png"@, e.x, e.y, e.width, e.height)));
            }
        } else {
            proof {
                assert(spec_marker_slices(mv.take(i + 1), sheet_w, sheet_h) =~= spec_marker_slices(
                    mv.take(i as int),
                    sheet_w,
                    sheet_h,
                ));
            }
        }
        i = i + 1;
    }
    proof {
        assert(mv.take(markers.len() as int) == mv);
    }
    r
}

/// Every planned icon is a non-empty rectangle inside the sheet, so cutting
/// never reads pixels outside the image.
pub proof fn law_slices_inside_sheet(
    markers: Seq<(Seq<char>, MarkerSpriteEntry)>,
    sheet_w: u32,
    sheet_h: u32,
    k: int,
)
    requires
        0 <= k < spec_marker_slices(markers, sheet_w, sheet_h).len(),
    ensures
        ({
            let (_, x, y, w, h) = spec_marker_slices(markers, sheet_w, sheet_h)[k];
            &&& w > 0 && h > 0
            &&& x + w <= sheet_w
            &&& y + h <= sheet_h
        }),
    decreases markers.len(),
{
    let prefix = spec_marker_slices(markers.drop_last(), sheet_w, sheet_h);
    if k < prefix.len() {
        law_slices_inside_sheet(markers.drop_last(), sheet_w, sheet_h, k);
    }
}

/// A game's artwork downloads: its cover image, when it has one, goes to
/// `image.jpg` in its folder whatever its logo is; its logo, when it has one,
/// goes to `logo.jpg` whatever its image is; nothing else is downloaded, and
/// the image comes first.
pub proof fn law_art_downloads(g: Game)
    ensures
        ({
            let d = spec_art_downloads(g);
            &&& g.image matches Some(u) ==> d.contains((u@, spec_game_dir(g.id).push("image.jpg"@)))
            &&& g.image matches Some(u) ==> d[0] == (u@, spec_game_dir(g.id).push("image.jpg"@))
            &&& g.logo matches Some(u) ==> d.contains((u@, spec_game_dir(g.id).push("logo.jpg"@)))
            &&& d.len() == (if g.image is Some { 1int } else { 0int }) + (if g.logo is Some {
                1int
            } else {
                0int
            })
        }),
{
    let d = spec_art_downloads(g);
    if let Some(u) = g.image {
        assert(d[0] == (u@, spec_game_dir(g.id).push("image.jpg"@)));
    }
    if let Some(u) = g.logo {
        assert(d[d.len() - 1] == (u@, spec_game_dir(g.id).push("logo.jpg"@)));
    }
}

/// Every entry whose rectangle is non-empty and lies inside the sheet is
/// cut, whatever its pixel ratio, as `{name}.png` with its own rectangle.
pub proof fn law_fitting_markers_are_cut(
    markers: Seq<(Seq<char>, MarkerSpriteEntry)>,
    sheet_w: u32,
    sheet_h: u32,
    i: int,
)
    requires
        0 <= i < markers.len(),
        markers[i].1.width > 0,
        markers[i].1.height > 0,
        markers[i].1.x + markers[i].1.width <= sheet_w,
        markers[i].1.y + markers[i].1.height <= sheet_h,
    ensures
        spec_marker_slices(markers, sheet_w, sheet_h).contains(
            (
                markers[i].0 + ".png"@,
                markers[i].1.x,
                markers[i].1.y,
                markers[i].1.width,
                markers[i].1.height,
            ),
        ),
    decreases markers.len(),
{
    let all = spec_marker_slices(markers, sheet_w, sheet_h);
    let prefix = spec_marker_slices(markers.drop_last(), sheet_w, sheet_h);
    let e = markers[i].1;
    let want = (markers[i].0 + ".png"@, e.x, e.y, e.width, e.height);
    if i == markers.len() - 1 {
        assert(all[prefix.len() as int] == want);
    } else {
        assert(markers.drop_last()[i] == markers[i]);
        law_fitting_markers_are_cut(markers.drop_last(), sheet_w, sheet_h, i);
        let k = choose|k: int| 0 <= k < prefix.len() && prefix[k] == want;
        assert(all[k] == prefix[k]);
    }
}

/// Every planned icon comes from an entry: it is `{name}.png` with the
/// entry's own rectangle, so only empty or out-of-bounds entries are left out.
pub proof fn law_slices_come_from_entries(
    markers: Seq<(Seq<char>, MarkerSpriteEntry)>,
    sheet_w: u32,
    sheet_h: u32,
    k: int,
)
    requires
        0 <= k < spec_marker_slices(markers, sheet_w, sheet_h).len(),
    ensures
        exists|i: int|
            0 <= i < markers.len() && spec_marker_slices(markers, sheet_w, sheet_h)[k] == (
                markers[i].0 + ".png"@,
                markers[i].1.x,
                markers[i].1.y,
                markers[i].1.width,
                markers[i].1.height,
            ),
    decreases markers.len(),
{
    let all = spec_marker_slices(markers, sheet_w, sheet_h);
    let prefix = spec_marker_slices(markers.drop_last(), sheet_w, sheet_h);
    if k < prefix.len() {
        law_slices_come_from_entries(markers.drop_last(), sheet_w, sheet_h, k);
        let i = choose|i: int|
            0 <= i < markers.drop_last().len() && prefix[k] == (
                markers.drop_last()[i].0 + ".png"@,
                markers.drop_last()[i].1.x,
                markers.drop_last()[i].1.y,
                markers.drop_last()[i].1.width,
                markers.drop_last()[i].1.height,
            );
        assert(markers.drop_last()[i] == markers[i]);
        assert(all[k] == prefix[k]);
    } else {
        let i = markers.len() - 1;
        assert(markers[i] == markers.last());
    }
}

} // verus!
