//! Planning tile downloads: which tiles a tile set has, where each one is
//! fetched from and stored, how many there are, and the tile metadata kept
//! for the map view.

use vstd::prelude::*;
use crate::models::{Game, GameConfig, GameMap, TileMeta, TileProgress};
use crate::paths::{decimal_string, seg_view, spec_map_dir, tile_file_segments};
use crate::text::{
    chars_of, decimal, decimal_chars, push_all, push_str, replace_all, replace_all_exec,
    string_from_chars, trim_end_char, trim_end_char_exec,
};
use crate::tile_config::{MapConfig, TileSet, TileSetBounds};

verus! {

broadcast use vstd::string::group_string_axioms;

// ---------------------------------------------------------------------------
// Which tiles a tile set has
// ---------------------------------------------------------------------------

/// The number of integers from `lo` to `hi` inclusive.
pub open spec fn span(lo: int, hi: int) -> nat {
    if hi < lo {
        0
    } else {
        (hi - lo + 1) as nat
    }
}

/// The tiles `(z, x, y)` of one column, `y` running from `lo` to `hi`.
pub open spec fn column_coords(z: u32, x: u32, lo: int, hi: int) -> Seq<(u32, u32, u32)>
    decreases span(lo, hi),
{
    if hi < lo {
        seq![]
    } else {
        column_coords(z, x, lo, hi - 1).push((z, x, hi as u32))
    }
}

/// The tiles of one zoom level, column by column, `x` running from `lo` to `hi`.
pub open spec fn zoom_coords(z: u32, b: TileSetBounds, lo: int, hi: int) -> Seq<(u32, u32, u32)>
    decreases span(lo, hi),
{
    if hi < lo {
        seq![]
    } else {
        zoom_coords(z, b, lo, hi - 1) + column_coords(z, hi as u32, b.y.min as int, b.y.max as int)
    }
}

/// The tiles of the zoom levels `lo..=hi` that have bounds in `table`, zoom
/// level by zoom level (levels without bounds have no tiles).
pub open spec fn range_coords(table: Map<u32, TileSetBounds>, lo: int, hi: int) -> Seq<
    (u32, u32, u32),
>
    decreases span(lo, hi),
{
    if hi < lo {
        seq![]
    } else {
        range_coords(table, lo, hi - 1) + (if table.contains_key(hi as u32) {
            let b = table[hi as u32];
            zoom_coords(hi as u32, b, b.x.min as int, b.x.max as int)
        } else {
            seq![]
        })
    }
}

/// Every tile of a tile set, in download order.
pub open spec fn tile_coords(ts: &TileSet) -> Seq<(u32, u32, u32)> {
    range_coords(ts.bounds@, ts.min_zoom as int, ts.max_zoom as int)
}

/// The number of tiles of one zoom level with bounds `b`.
pub open spec fn zoom_tile_count(b: TileSetBounds) -> nat {
    span(b.x.min as int, b.x.max as int) * span(b.y.min as int, b.y.max as int)
}

proof fn lemma_column_len(z: u32, x: u32, lo: int, hi: int)
    ensures
        column_coords(z, x, lo, hi).len() == span(lo, hi),
    decreases span(lo, hi),
{
    if hi >= lo {
        lemma_column_len(z, x, lo, hi - 1);
    }
}

proof fn lemma_zoom_len(z: u32, b: TileSetBounds, lo: int, hi: int)
    ensures
        zoom_coords(z, b, lo, hi).len() == span(lo, hi) * span(b.y.min as int, b.y.max as int),
    decreases span(lo, hi),
{
    if hi >= lo {
        lemma_zoom_len(z, b, lo, hi - 1);
        lemma_column_len(z, hi as u32, b.y.min as int, b.y.max as int);
        let ny = span(b.y.min as int, b.y.max as int);
        assert(span(lo, hi) == span(lo, hi - 1) + 1);
        assert(span(lo, hi) * ny == span(lo, hi - 1) * ny + ny) by (nonlinear_arith)
            requires
                span(lo, hi) == span(lo, hi - 1) + 1,
        ;
    }
}

// ---------------------------------------------------------------------------
// Download jobs
// ---------------------------------------------------------------------------

/// One tile to download: its coordinates, its CDN URL and its file below the
/// application data folder.
pub struct TileJob {
    pub z: u32,
    pub x: u32,
    pub y: u32,
    pub url: String,
    /// `assets/{game_id}/maps/{map_id}/tiles/{z}/{x}/{y}.{ext}`.
    pub file: Vec<String>,
}

/// The CDN URL of tile `(z, x, y)`: `{tiles_base}/{pattern}` with `{z}`,
/// `{x}` and `{y}` replaced, in that order, by the decimal coordinates.
pub open spec fn spec_tile_url(tiles_base: Seq<char>, pattern: Seq<char>, z: u32, x: u32, y: u32) -> Seq<char> {
    tiles_base + "/"@ + replace_all(
        replace_all(replace_all(pattern, "{z}"@, decimal(z as nat)), "{x}"@, decimal(x as nat)),
        "{y}"@,
        decimal(y as nat),
    )
}

/// The file of tile `c` of a game map: `tiles/{z}/{x}/{y}.{ext}` in the map's folder.
pub open spec fn spec_tile_file(game_id: u32, map_id: u32, c: (u32, u32, u32), ext: Seq<char>) -> Seq<Seq<char>> {
    spec_map_dir(game_id, map_id).push("tiles"@).push(decimal(c.0 as nat)).push(
        decimal(c.1 as nat),
    ).push(decimal(c.2 as nat) + "."@ + ext)
}

/// `j` is the download job of tile `c`.
pub open spec fn job_matches(
    j: TileJob,
    c: (u32, u32, u32),
    tiles_base: Seq<char>,
    pattern: Seq<char>,
    ext: Seq<char>,
    game_id: u32,
    map_id: u32,
) -> bool {
    &&& j.z == c.0
    &&& j.x == c.1
    &&& j.y == c.2
    &&& j.url@ == spec_tile_url(tiles_base, pattern, c.0, c.1, c.2)
    &&& seg_view(j.file@) == spec_tile_file(game_id, map_id, c, ext)
}

/// `js` are the download jobs of the tiles `cs`, in the same order.
pub open spec fn jobs_match(
    js: Seq<TileJob>,
    cs: Seq<(u32, u32, u32)>,
    tiles_base: Seq<char>,
    pattern: Seq<char>,
    ext: Seq<char>,
    game_id: u32,
    map_id: u32,
) -> bool {
    &&& js.len() == cs.len()
    &&& forall|k: int|
        0 <= k < js.len() ==> #[trigger] job_matches(js[k], cs[k], tiles_base, pattern, ext, game_id, map_id)
}

/// The CDN URL of tile `(z, x, y)`, computed.
fn tile_url_chars(base: &Vec<char>, pattern: &Vec<char>, z: u32, x: u32, y: u32) -> (r: Vec<char>)
    ensures
        r@ == spec_tile_url(base@, pattern@, z, x, y),
{
    proof {
        reveal_strlit("{z}");
        reveal_strlit("{x}");
        reveal_strlit("{y}");
    }
    let pz = chars_of("{z}");
    let px = chars_of("{x}");
    let py = chars_of("{y}");
    let s1 = replace_all_exec(pattern, &pz, &decimal_chars(z as u64));
    let s2 = replace_all_exec(&s1, &px, &decimal_chars(x as u64));
    let s3 = replace_all_exec(&s2, &py, &decimal_chars(y as u64));
    let mut out: Vec<char> = Vec::new();
    push_all(&mut out, base);
    push_str(&mut out, "/");
    push_all(&mut out, &s3);
    assert(out@ =~= spec_tile_url(base@, pattern@, z, x, y));
    out
}

/// The download job of tile `(z, x, y)`.
fn make_job(
    base: &Vec<char>,
    pattern: &Vec<char>,
    ext: &Vec<char>,
    game_id: u32,
    map_id: u32,
    z: u32,
    x: u32,
    y: u32,
) -> (j: TileJob)
    ensures
        job_matches(j, (z, x, y), base@, pattern@, ext@, game_id, map_id),
{
    let url = tile_url_chars(base, pattern, z, x, y);
    let zs = decimal_string(z as u64);
    let xs = decimal_string(x as u64);
    let ys = decimal_string(y as u64);
    let es = string_from_chars(ext);
    let file = tile_file_segments(game_id, map_id, zs.as_str(), xs.as_str(), ys.as_str(), es.as_str());
    TileJob { z, x, y, url: string_from_chars(&url), file }
}

proof fn lemma_jobs_append(
    a: Seq<TileJob>,
    ca: Seq<(u32, u32, u32)>,
    b: Seq<TileJob>,
    cb: Seq<(u32, u32, u32)>,
    base: Seq<char>,
    pattern: Seq<char>,
    ext: Seq<char>,
    game_id: u32,
    map_id: u32,
)
    requires
        jobs_match(a, ca, base, pattern, ext, game_id, map_id),
        jobs_match(b, cb, base, pattern, ext, game_id, map_id),
    ensures
        jobs_match(a + b, ca + cb, base, pattern, ext, game_id, map_id),
{
    assert forall|k: int| 0 <= k < (a + b).len() implies #[trigger] job_matches(
        (a + b)[k],
        (ca + cb)[k],
        base,
        pattern,
        ext,
        game_id,
        map_id,
    ) by {
        if k < a.len() {
            assert(job_matches(a[k], ca[k], base, pattern, ext, game_id, map_id));
        } else {
            assert(job_matches(b[k - a.len()], cb[k - a.len()], base, pattern, ext, game_id, map_id));
        }
    }
}

/// The jobs of one column, `y` running from `lo` to `hi`.
fn column_jobs(base: &Vec<char>, pattern: &Vec<char>, ext: &Vec<char>, game_id: u32, map_id: u32, z: u32, x: u32, lo: u32, hi: u32) -> (r: Vec<TileJob>)
    ensures
        jobs_match(r@, column_coords(z, x, lo as int, hi as int), base@, pattern@, ext@, game_id, map_id),
{
    let mut r: Vec<TileJob> = Vec::new();
    if hi < lo {
        return r;
    }
    let mut y: u64 = lo as u64;
    while y <= hi as u64
        invariant
            lo <= hi,
            lo <= y <= hi as u64 + 1,
            jobs_match(r@, column_coords(z, x, lo as int, y - 1), base@, pattern@, ext@, game_id, map_id),
        decreases hi as u64 + 1 - y,
    {
        let j = make_job(base, pattern, ext, game_id, map_id, z, x, y as u32);
        let ghost prev = r@;
        r.push(j);
        proof {
            assert(column_coords(z, x, lo as int, y as int) == column_coords(z, x, lo as int, y - 1).push((z, x, y as u32)));
            assert forall|k: int| 0 <= k < r@.len() implies #[trigger] job_matches(
                r@[k],
                column_coords(z, x, lo as int, y as int)[k],
                base@,
                pattern@,
                ext@,
                game_id,
                map_id,
            ) by {
                if k < prev.len() {
                    assert(r@[k] == prev[k]);
                }
            }
        }
        y = y + 1;
    }
    r
}

/// The jobs of one zoom level with bounds `b`.
fn zoom_jobs(base: &Vec<char>, pattern: &Vec<char>, ext: &Vec<char>, game_id: u32, map_id: u32, z: u32, b: TileSetBounds) -> (r: Vec<TileJob>)
    ensures
        jobs_match(r@, zoom_coords(z, b, b.x.min as int, b.x.max as int), base@, pattern@, ext@, game_id, map_id),
{
    let mut r: Vec<TileJob> = Vec::new();
    if b.x.max < b.x.min {
        return r;
    }
    let mut x: u64 = b.x.min as u64;
    while x <= b.x.max as u64
        invariant
            b.x.min <= b.x.max,
            b.x.min <= x <= b.x.max as u64 + 1,
            jobs_match(r@, zoom_coords(z, b, b.x.min as int, x - 1), base@, pattern@, ext@, game_id, map_id),
        decreases b.x.max as u64 + 1 - x,
    {
        let mut col = column_jobs(base, pattern, ext, game_id, map_id, z, x as u32, b.y.min, b.y.max);
        let ghost prev = r@;
        let ghost cv = col@;
        r.append(&mut col);
        proof {
            lemma_jobs_append(
                prev,
                zoom_coords(z, b, b.x.min as int, x - 1),
                cv,
                column_coords(z, x as u32, b.y.min as int, b.y.max as int),
                base@,
                pattern@,
                ext@,
                game_id,
                map_id,
            );
        }
        x = x + 1;
    }
    r
}

/// Every tile of a tile set of a game map, as download jobs: the URL is built
/// from `tiles_base` and the set's pattern, the file from the coordinates
/// and the set's extension.
pub fn tile_jobs(tile_set: &TileSet, tiles_base: &str, game_id: u32, map_id: u32) -> (r: Vec<TileJob>)
    ensures
        jobs_match(r@, tile_coords(tile_set), tiles_base@, tile_set.pattern@, tile_set.extension@, game_id, map_id),
{
    let base = chars_of(tiles_base);
    let pattern = chars_of(tile_set.pattern.as_str());
    let ext = chars_of(tile_set.extension.as_str());
    let mut r: Vec<TileJob> = Vec::new();
    let lo = tile_set.min_zoom;
    let hi = tile_set.max_zoom;
    if hi < lo {
        return r;
    }
    let mut z: u64 = lo as u64;
    while z <= hi as u64
        invariant
            lo == tile_set.min_zoom,
            hi == tile_set.max_zoom,
            lo <= hi,
            lo <= z <= hi as u64 + 1,
            base@ == tiles_base@,
            pattern@ == tile_set.pattern@,
            ext@ == tile_set.extension@,
            jobs_match(r@, range_coords(tile_set.bounds@, lo as int, z - 1), base@, pattern@, ext@, game_id, map_id),
        decreases hi as u64 + 1 - z,
    {
        let ghost prev = r@;
        match tile_set.bounds.get(z as u32) {
            Some(b) => {
                let mut zj = zoom_jobs(&base, &pattern, &ext, game_id, map_id, z as u32, b);
                let ghost zv = zj@;
                r.append(&mut zj);
                proof {
                    lemma_jobs_append(
                        prev,
                        range_coords(tile_set.bounds@, lo as int, z - 1),
                        zv,
                        zoom_coords(z as u32, b, b.x.min as int, b.x.max as int),
                        base@,
                        pattern@,
                        ext@,
                        game_id,
                        map_id,
                    );
                }
            },
            None => {
                proof {
                    assert(range_coords(tile_set.bounds@, lo as int, z as int) =~= range_coords(tile_set.bounds@, lo as int, z - 1));
                }
            },
        }
        z = z + 1;
    }
    r
}

// ---------------------------------------------------------------------------
// Counting tiles
// ---------------------------------------------------------------------------

proof fn lemma_range_step(table: Map<u32, TileSetBounds>, lo: int, hi: int)
    requires
        lo <= hi,
    ensures
        range_coords(table, lo, hi).len() == range_coords(table, lo, hi - 1).len() + (
        if table.contains_key(hi as u32) {
            zoom_tile_count(table[hi as u32])
        } else {
            0
        }),
{
    if table.contains_key(hi as u32) {
        let b = table[hi as u32];
        lemma_zoom_len(hi as u32, b, b.x.min as int, b.x.max as int);
    }
}

/// The number of tiles of one zoom level, computed without overflow.
fn zoom_tile_count_exec(b: TileSetBounds) -> (n: u128)
    ensures
        n == zoom_tile_count(b),
        n <= 0x1_0000_0000_0000_0000,
{
    let cols: u128 = if b.x.max < b.x.min {
        0
    } else {
        (b.x.max - b.x.min) as u128 + 1
    };
    let rows: u128 = if b.y.max < b.y.min {
        0
    } else {
        (b.y.max - b.y.min) as u128 + 1
    };
    assert(cols * rows <= 0x1_0000_0000_0000_0000) by (nonlinear_arith)
        requires
            cols <= 0x1_0000_0000,
            rows <= 0x1_0000_0000,
    ;
    cols * rows
}

/// The number of tiles of a tile set, if it fits in a `u64`.
pub fn tile_count(tile_set: &TileSet) -> (r: Option<u64>)
    ensures
        match r {
            Some(n) => n == tile_coords(tile_set).len(),
            None => tile_coords(tile_set).len() > u64::MAX,
        },
{
    let lo = tile_set.min_zoom;
    let hi = tile_set.max_zoom;
    if hi < lo {
        return Some(0);
    }
    let mut acc: u128 = 0;
    let mut z: u64 = lo as u64;
    while z <= hi as u64
        invariant
            lo == tile_set.min_zoom,
            hi == tile_set.max_zoom,
            lo <= hi,
            lo <= z <= hi as u64 + 1,
            acc == range_coords(tile_set.bounds@, lo as int, z - 1).len(),
            acc <= u64::MAX,
        decreases hi as u64 + 1 - z,
    {
        proof {
            lemma_range_step(tile_set.bounds@, lo as int, z as int);
        }
        match tile_set.bounds.get(z as u32) {
            Some(b) => {
                let n = zoom_tile_count_exec(b);
                acc = acc + n;
            },
            None => {},
        }
        if acc > 0xffff_ffff_ffff_ffff {
            proof {
                lemma_range_monotone(tile_set.bounds@, lo as int, z as int, hi as int);
            }
            return None;
        }
        z = z + 1;
    }
    Some(acc as u64)
}

proof fn lemma_range_monotone(table: Map<u32, TileSetBounds>, lo: int, mid: int, hi: int)
    requires
        lo <= mid <= hi,
    ensures
        range_coords(table, lo, mid).len() <= range_coords(table, lo, hi).len(),
    decreases hi - mid,
{
    if mid < hi {
        lemma_range_monotone(table, lo, mid, hi - 1);
        lemma_range_step(table, lo, hi);
    }
}

/// One map whose tiles are to be downloaded, with its tile set.
pub struct MapTileJob {
    pub map_id: u32,
    pub tile_set: TileSet,
}

/// The number of tiles of all the given maps together.
pub open spec fn total_tiles(jobs: Seq<MapTileJob>) -> nat
    decreases jobs.len(),
{
    if jobs.len() == 0 {
        0
    } else {
        total_tiles(jobs.drop_last()) + tile_coords(&jobs.last().tile_set).len()
    }
}

/// The number of tiles of all the given maps together, if it fits in a `u64`:
/// the stable denominator of the download progress.
pub fn total_tile_count(jobs: &Vec<MapTileJob>) -> (r: Option<u64>)
    ensures
        match r {
            Some(n) => n == total_tiles(jobs@),
            None => total_tiles(jobs@) > u64::MAX,
        },
{
    let mut acc: u64 = 0;
    let mut i: usize = 0;
    while i < jobs.len()
        invariant
            0 <= i <= jobs.len(),
            acc == total_tiles(jobs@.take(i as int)),
        decreases jobs.len() - i,
    {
        proof {
            assert(jobs@.take(i + 1).drop_last() == jobs@.take(i as int));
            assert(jobs@.take(i + 1).last() == jobs@[i as int]);
        }
        match tile_count(&jobs[i].tile_set) {
            None => {
                proof {
                    lemma_total_monotone(jobs@, i + 1);
                }
                return None;
            },
            Some(n) => {
                if n > 0xffff_ffff_ffff_ffff - acc {
                    proof {
                        lemma_total_monotone(jobs@, i + 1);
                    }
                    return None;
                }
                acc = acc + n;
            },
        }
        i = i + 1;
    }
    proof {
        assert(jobs@.take(jobs.len() as int) == jobs@);
    }
    Some(acc)
}

proof fn lemma_total_monotone(jobs: Seq<MapTileJob>, k: int)
    requires
        0 <= k <= jobs.len(),
    ensures
        total_tiles(jobs.take(k)) <= total_tiles(jobs),
    decreases jobs.len() - k,
{
    if k < jobs.len() {
        lemma_total_monotone(jobs, k + 1);
        assert(jobs.take(k + 1).drop_last() == jobs.take(k));
    } else {
        assert(jobs.take(k) == jobs);
    }
}

// ---------------------------------------------------------------------------
// Tile metadata and selection
// ---------------------------------------------------------------------------

/// The CDN base of a game's tiles: `tiles_base_url` without trailing `/`,
/// followed by `/games`.
pub open spec fn spec_tiles_base(tiles_base_url: Seq<char>) -> Seq<char> {
    trim_end_char(tiles_base_url, '/') + "/games"@
}

/// The CDN base of a game's tiles.
pub fn tiles_base(config: &GameConfig) -> (r: String)
    ensures
        r@ == spec_tiles_base(config.tiles_base_url@),
{
    let u = chars_of(config.tiles_base_url.as_str());
    let mut t = trim_end_char_exec(&u, '/');
    push_str(&mut t, "/games");
    string_from_chars(&t)
}

/// The tile metadata of a tile set: its zoom range, its extension and the
/// URL template `{tiles_base}/{pattern}`.
pub fn tile_meta_for(tile_set: &TileSet, tiles_base: &str) -> (m: TileMeta)
    ensures
        m.min_zoom == tile_set.min_zoom,
        m.max_zoom == tile_set.max_zoom,
        m.extension@ == tile_set.extension@,
        m.url_template@ == tiles_base@ + "/"@ + tile_set.pattern@,
{
    let mut t: Vec<char> = Vec::new();
    push_str(&mut t, tiles_base);
    push_str(&mut t, "/");
    push_str(&mut t, tile_set.pattern.as_str());
    TileMeta {
        min_zoom: tile_set.min_zoom,
        max_zoom: tile_set.max_zoom,
        extension: tile_set.extension.clone(),
        url_template: string_from_chars(&t),
    }
}

/// The message when a map page holds no tile set.
pub open spec fn no_tile_sets_message() -> Seq<char> {
    "No tile sets found for this map"@
}

/// The first tile set of a map configuration.
pub fn first_tile_set(config: MapConfig) -> (r: Result<TileSet, String>)
    ensures
        match r {
            Ok(ts) => config.tile_sets@.len() > 0 && ts == config.tile_sets@[0],
            Err(e) => config.tile_sets@.len() == 0 && e@ == no_tile_sets_message(),
        },
{
    let mut sets = config.tile_sets;
    if sets.len() == 0 {
        return Err("No tile sets found for this map".to_owned());
    }
    Ok(sets.remove(0))
}

/// `i` is the first position of a map with id `map_id`.
pub open spec fn is_first_map(maps: Seq<GameMap>, map_id: u32, i: int) -> bool {
    &&& 0 <= i < maps.len()
    &&& maps[i].id == map_id
    &&& forall|j: int| 0 <= j < i ==> maps[j].id != map_id
}

/// The message when a game has no map with the requested id.
pub open spec fn map_not_found_message(map_id: u32, game_id: u32) -> Seq<char> {
    "Map "@ + decimal(map_id as nat) + " not found for game "@ + decimal(game_id as nat)
}

/// The first map of `game` whose id is `map_id`.
pub fn find_map(game: &Game, map_id: u32) -> (r: Result<&GameMap, String>)
    ensures
        match r {
            Ok(m) => exists|i: int| is_first_map(game.maps@, map_id, i) && *m == game.maps@[i],
            Err(e) => (forall|i: int| 0 <= i < game.maps@.len() ==> game.maps@[i].id != map_id)
                && e@ == map_not_found_message(map_id, game.id),
        },
{
    let mut i: usize = 0;
    while i < game.maps.len()
        invariant
            0 <= i <= game.maps.len(),
            forall|j: int| 0 <= j < i ==> game.maps@[j].id != map_id,
        decreases game.maps.len() - i,
    {
        if game.maps[i].id == map_id {
            proof {
                assert(is_first_map(game.maps@, map_id, i as int));
            }
            return Ok(&game.maps[i]);
        }
        i = i + 1;
    }
    let mut msg: Vec<char> = Vec::new();
    push_str(&mut msg, "Map ");
    let d1 = decimal_chars(map_id as u64);
    push_all(&mut msg, &d1);
    push_str(&mut msg, " not found for game ");
    let d2 = decimal_chars(game.id as u64);
    push_all(&mut msg, &d2);
    Err(string_from_chars(&msg))
}

// ---------------------------------------------------------------------------
// Progress
// ---------------------------------------------------------------------------

/// The name of the event that carries download progress.
pub const TILE_PROGRESS_EVENT: &'static str = "tile-download-progress";

/// How many downloaded tiles make one progress step: a hundredth of the
/// total, at least one.
pub open spec fn spec_progress_step(total: u64) -> u64 {
    if total / 100 > 1 {
        (total / 100) as u64
    } else {
        1
    }
}

/// How many downloaded tiles make one progress step.
pub fn progress_step(total: u64) -> (s: u64)
    ensures
        s == spec_progress_step(total),
        s >= 1,
{
    let h = total / 100;
    if h > 1 {
        h
    } else {
        1
    }
}

/// Whether finishing the `downloaded`-th tile is reported: on every step,
/// and for the last tile.
pub open spec fn emits_progress(downloaded: u64, step: u64, total: u64) -> bool {
    downloaded % step == 0 || downloaded == total
}

/// How a download of all of a game's tiles begins.
pub struct ProgressStart {
    /// The first progress event: nothing downloaded yet out of `total`.
    pub first: TileProgress,
    /// Whether any tile is to be downloaded; with no tile the download ends
    /// right after the first event.
    pub has_tiles: bool,
}

/// The start of a download of `total` tiles for `game_id`.
pub fn progress_start(game_id: u32, total: u64) -> (r: ProgressStart)
    ensures
        r.first.game_id == game_id,
        r.first.downloaded == 0,
        r.first.total == total,
        r.has_tiles <==> total > 0,
{
    ProgressStart { first: TileProgress { game_id, downloaded: 0, total }, has_tiles: total > 0 }
}

/// The progress update to emit after the `downloaded`-th tile finished.
pub fn progress_update(game_id: u32, downloaded: u64, step: u64, total: u64) -> (r: Option<
    TileProgress,
>)
    requires
        step > 0,
    ensures
        r is Some <==> emits_progress(downloaded, step, total),
        r matches Some(p) ==> p.game_id == game_id && p.downloaded == downloaded && p.total
            == total,
{
    if downloaded % step == 0 || downloaded == total {
        Some(TileProgress { game_id, downloaded, total })
    } else {
        None
    }
}

/// The number of tiles counted up front is the number of download jobs.
pub proof fn law_count_matches_jobs(
    tile_set: &TileSet,
    tiles_base: Seq<char>,
    game_id: u32,
    map_id: u32,
    jobs: Seq<TileJob>,
    n: u64,
)
    requires
        jobs_match(jobs, tile_coords(tile_set), tiles_base, tile_set.pattern@, tile_set.extension@, game_id, map_id),
        n == tile_coords(tile_set).len(),
    ensures
        jobs.len() == n,
{
}

/// Each zoom level contributes its columns times its rows.
pub proof fn law_zoom_tile_count(z: u32, b: TileSetBounds)
    ensures
        zoom_coords(z, b, b.x.min as int, b.x.max as int).len() == zoom_tile_count(b),
{
    lemma_zoom_len(z, b, b.x.min as int, b.x.max as int);
}

/// The last downloaded tile is always reported, so the bar ends at 100%;
/// with fewer than two hundred tiles every tile is reported.
pub proof fn law_progress_reporting(downloaded: u64, total: u64)
    ensures
        emits_progress(total, spec_progress_step(total), total),
        total < 200 ==> emits_progress(downloaded, spec_progress_step(total), total),
{
    if total < 200 {
        assert(spec_progress_step(total) == 1);
    }
}

/// How many of the tiles `1..=upto` of a download of `total` tiles are
/// reported with steps of `step` tiles.
pub open spec fn progress_reports(upto: nat, step: u64, total: u64) -> nat
    decreases upto,
{
    if upto == 0 {
        0
    } else {
        progress_reports((upto - 1) as nat, step, total) + if emits_progress(upto as u64, step, total) {
            1nat
        } else {
            0nat
        }
    }
}

/// Going from `n - 1` to `n` raises `n / step` by one exactly when `n` is a
/// multiple of `step`.
proof fn lemma_div_step(n: int, step: int)
    requires
        n >= 1,
        step >= 1,
    ensures
        n / step == (n - 1) / step + if n % step == 0 { 1int } else { 0int },
{
    let q = (n - 1) / step;
    let r = (n - 1) % step;
    vstd::arithmetic::div_mod::lemma_fundamental_div_mod(n - 1, step);
    assert(0 <= r < step);
    assert(n - 1 == step * q + r);
    if r + 1 == step {
        assert(n == (q + 1) * step + 0) by (nonlinear_arith)
            requires
                n - 1 == step * q + r,
                r + 1 == step,
        ;
        vstd::arithmetic::div_mod::lemma_fundamental_div_mod_converse(n, step, q + 1, 0);
    } else {
        assert(n == q * step + (r + 1)) by (nonlinear_arith)
            requires
                n - 1 == step * q + r,
        ;
        vstd::arithmetic::div_mod::lemma_fundamental_div_mod_converse(n, step, q, r + 1);
    }
}

/// Before the last tile, exactly the multiples of `step` are reported.
proof fn lemma_progress_reports_before_last(upto: nat, step: u64, total: u64)
    requires
        step >= 1,
        upto < total,
    ensures
        progress_reports(upto, step, total) == upto / (step as nat),
    decreases upto,
{
    if upto > 0 {
        lemma_progress_reports_before_last((upto - 1) as nat, step, total);
        lemma_div_step(upto as int, step as int);
        assert(upto as u64 == upto);
    }
}

/// A download of `total` tiles reports at most `total / step + 1` times: once
/// per full step, and once more for the last tile. With the step that
/// `progress_step` picks (a hundredth of the total, and at least one) that
/// bounds the events of a large download to a few hundred at most.
pub proof fn law_progress_report_count(total: u64)
    ensures
        progress_reports(total as nat, spec_progress_step(total), total) <= total
            / spec_progress_step(total) + 1,
{
    let step = spec_progress_step(total);
    if total > 0 {
        lemma_progress_reports_before_last((total - 1) as nat, step, total);
        lemma_div_step(total as int, step as int);
    }
}

/// The number of tiles of zoom levels `lo..=hi` grows, from nothing for an
/// empty range, by the columns times the rows of level `hi` when `hi` has
/// bounds, and by nothing when it has none: every zoom level of the range
/// counts, not only the deepest.
pub proof fn law_zoom_levels_add_up(table: Map<u32, TileSetBounds>, lo: int, hi: int)
    ensures
        hi < lo ==> range_coords(table, lo, hi).len() == 0,
        lo <= hi ==> range_coords(table, lo, hi).len() == range_coords(table, lo, hi - 1).len() + (
        if table.contains_key(hi as u32) {
            span(table[hi as u32].x.min as int, table[hi as u32].x.max as int) * span(
                table[hi as u32].y.min as int,
                table[hi as u32].y.max as int,
            )
        } else {
            0
        }),
{
    if lo <= hi {
        lemma_range_step(table, lo, hi);
    }
}

proof fn lemma_column_has(z: u32, x: u32, lo: int, hi: int, y: u32)
    requires
        lo <= y <= hi,
    ensures
        column_coords(z, x, lo, hi).contains((z, x, y)),
    decreases span(lo, hi),
{
    let c = column_coords(z, x, lo, hi);
    if y == hi {
        assert(c[c.len() - 1] == (z, x, y));
    } else {
        lemma_column_has(z, x, lo, hi - 1, y);
        let p = column_coords(z, x, lo, hi - 1);
        let k = choose|k: int| 0 <= k < p.len() && p[k] == (z, x, y);
        assert(c[k] == p[k]);
    }
}

proof fn lemma_zoom_has(z: u32, b: TileSetBounds, lo: int, hi: int, x: u32, y: u32)
    requires
        lo <= x <= hi,
        b.y.min <= y <= b.y.max,
    ensures
        zoom_coords(z, b, lo, hi).contains((z, x, y)),
    decreases span(lo, hi),
{
    let c = zoom_coords(z, b, lo, hi);
    let p = zoom_coords(z, b, lo, hi - 1);
    if x == hi {
        lemma_column_has(z, x, b.y.min as int, b.y.max as int, y);
        let q = column_coords(z, x, b.y.min as int, b.y.max as int);
        let k = choose|k: int| 0 <= k < q.len() && q[k] == (z, x, y);
        assert(c[p.len() + k] == q[k]);
    } else {
        lemma_zoom_has(z, b, lo, hi - 1, x, y);
        let k = choose|k: int| 0 <= k < p.len() && p[k] == (z, x, y);
        assert(c[k] == p[k]);
    }
}

proof fn lemma_range_has(table: Map<u32, TileSetBounds>, lo: int, hi: int, z: u32, x: u32, y: u32)
    requires
        lo <= z <= hi,
        table.contains_key(z),
        table[z].x.min <= x <= table[z].x.max,
        table[z].y.min <= y <= table[z].y.max,
    ensures
        range_coords(table, lo, hi).contains((z, x, y)),
    decreases span(lo, hi),
{
    let c = range_coords(table, lo, hi);
    let p = range_coords(table, lo, hi - 1);
    if z == hi {
        let b = table[z];
        lemma_zoom_has(z, b, b.x.min as int, b.x.max as int, x, y);
        let q = zoom_coords(z, b, b.x.min as int, b.x.max as int);
        let k = choose|k: int| 0 <= k < q.len() && q[k] == (z, x, y);
        assert(c[p.len() + k] == q[k]);
    } else {
        lemma_range_has(table, lo, hi - 1, z, x, y);
        let k = choose|k: int| 0 <= k < p.len() && p[k] == (z, x, y);
        assert(c[k] == p[k]);
    }
}

/// Every tile inside the bounds of every zoom level from the tile set's
/// minimum to its maximum zoom is among its tiles, hence among its download
/// jobs.
pub proof fn law_tile_set_covers_bounds(ts: TileSet, z: u32, x: u32, y: u32)
    requires
        ts.min_zoom <= z <= ts.max_zoom,
        ts.bounds@.contains_key(z),
        ts.bounds@[z].x.min <= x <= ts.bounds@[z].x.max,
        ts.bounds@[z].y.min <= y <= ts.bounds@[z].y.max,
    ensures
        tile_coords(&ts).contains((z, x, y)),
{
    lemma_range_has(ts.bounds@, ts.min_zoom as int, ts.max_zoom as int, z, x, y);
}

/// The tiles of several maps add up: the total of two lists of maps is the
/// sum of their totals, and the total of one map is the number of tiles its
/// tile set enumerates (the number of its download jobs).
pub proof fn law_total_tiles_add_up(a: Seq<MapTileJob>, b: Seq<MapTileJob>, j: MapTileJob)
    ensures
        total_tiles(seq![]) == 0,
        total_tiles(seq![j]) == tile_coords(&j.tile_set).len(),
        total_tiles(a + b) == total_tiles(a) + total_tiles(b),
    decreases b.len(),
{
    assert(seq![j].drop_last() =~= Seq::<MapTileJob>::empty());
    if b.len() > 0 {
        law_total_tiles_add_up(a, b.drop_last(), j);
        assert((a + b).drop_last() =~= a + b.drop_last());
        assert((a + b).last() == b.last());
    } else {
        assert(a + b =~= a);
    }
}

/// The step is a hundredth of the total, rounded down, and at least one: a
/// total of 200 tiles or more has a step `s` with `100 * s <= total <
/// 100 * s + 100`, a smaller total reports every tile. Either way a download
/// reports at most about a hundred and fifty times, and a small one at most
/// once per tile.
pub proof fn law_progress_step_is_a_hundredth(total: u64)
    ensures
        total >= 200 ==> 100 * spec_progress_step(total) <= total < 100 * spec_progress_step(total)
            + 100,
        total < 200 ==> spec_progress_step(total) == 1,
        total >= 200 ==> progress_reports(total as nat, spec_progress_step(total), total) <= 150,
        total < 200 ==> progress_reports(total as nat, spec_progress_step(total), total) <= total,
{
    let s = spec_progress_step(total);
    law_progress_report_count(total);
    if total >= 200 {
        assert(s == total / 100);
        vstd::arithmetic::div_mod::lemma_fundamental_div_mod(total as int, 100);
        assert(s >= 2);
        assert(total < 150 * s);
        let q = total as int / s as int;
        vstd::arithmetic::div_mod::lemma_fundamental_div_mod(total as int, s as int);
        assert(q < 150) by (nonlinear_arith)
            requires
                total < 150 * s,
                s >= 2,
                total == s * q + total as int % s as int,
                0 <= total as int % s as int,
        ;
    } else {
        assert(s == 1);
        assert(total / 1 == total);
        if total > 0 {
            lemma_progress_reports_before_last((total - 1) as nat, s, total);
        }
    }
}

} // verus!
