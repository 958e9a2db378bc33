//! Serving tiles for the `tile://` protocol: reading the request path and
//! deciding where the tile comes from and what to answer.

use vstd::prelude::*;
use crate::models::TileMeta;
use crate::paths::{seg_view, spec_map_dir, tile_file_segments};
use crate::text::{
    before_char, before_char_exec, chars_of, decimal, lemma_decimal_no_sign, lemma_parse_decimal,
    lemma_before_char_free, lemma_split_char_cons, lemma_split_char_none,
    lemma_split_char_pieces_free, parse_u32, parse_u32_exec, replace_all,
    replace_all_exec, split_char, split_char_exec, str_eq_chars, string_from_chars,
    trim_start_char, trim_start_char_exec,
};

verus! {

broadcast use vstd::string::group_string_axioms;

/// HTTP status: the tile is returned.
pub const STATUS_OK: u16 = 200;

/// HTTP status: the path is not `/{game_id}/{map_id}/{z}/{x}/{y}`.
pub const STATUS_BAD_REQUEST: u16 = 400;

/// HTTP status: no metadata for the map, or the CDN has no such tile.
pub const STATUS_NOT_FOUND: u16 = 404;

/// HTTP status: the application data folder is unavailable.
pub const STATUS_INTERNAL_SERVER_ERROR: u16 = 500;

/// HTTP status: the CDN could not be reached or its answer could not be read.
pub const STATUS_BAD_GATEWAY: u16 = 502;

/// A tile request: `/{game_id}/{map_id}/{z}/{x}/{y}[.ext]`.
pub struct TileRequest {
    pub game_id: u32,
    pub map_id: u32,
    pub z: String,
    pub x: String,
    /// The last segment up to its first `.`.
    pub y: String,
}

/// The segments of a request path: leading slashes are dropped, then the
/// path is split at every `/`.
pub open spec fn tile_path_parts(path: Seq<char>) -> Seq<Seq<char>> {
    split_char(trim_start_char(path, '/'), '/')
}

/// A segment that cannot climb out of its folder: not `..`, and without a
/// backslash (a separator on some systems). An empty or `.` segment stays
/// where it is and is accepted.
pub open spec fn is_safe_segment(s: Seq<char>) -> bool {
    &&& s != seq!['.', '.']
    &&& forall|i: int| 0 <= i < s.len() ==> s[i] != '\\'
}

/// The request a path denotes: exactly five segments, the first two being
/// `u32` ids; the last one is cut at its first `.`. The `z`, `x` and `y`
/// segments become folder and file names, so none may climb out of its folder.
pub open spec fn spec_parse_tile_request(path: Seq<char>) -> Option<
    (u32, u32, Seq<char>, Seq<char>, Seq<char>),
> {
    let parts = tile_path_parts(path);
    if parts.len() != 5 {
        None
    } else {
        let y = before_char(parts[4], '.');
        match (parse_u32(parts[0]), parse_u32(parts[1])) {
            (Some(g), Some(m)) => if is_safe_segment(parts[2]) && is_safe_segment(parts[3])
                && is_safe_segment(y) {
                Some((g, m, parts[2], parts[3], y))
            } else {
                None
            },
            _ => None,
        }
    }
}

/// Whether `v` is a safe segment.
pub fn is_safe_segment_exec(v: &Vec<char>) -> (r: bool)
    ensures
        r == is_safe_segment(v@),
{
    let n = v.len();
    if n == 2 && v[0] == '.' && v[1] == '.' {
        assert(v@ =~= seq!['.', '.']);
        return false;
    }
    assert(v@ != seq!['.', '.']) by {
        if v@ == seq!['.', '.'] {
            assert(v@.len() == 2 && v@[0] == '.' && v@[1] == '.');
        }
    }
    let mut i: usize = 0;
    while i < n
        invariant
            n == v.len(),
            0 <= i <= n,
            forall|j: int| 0 <= j < i ==> v@[j] != '\\',
        decreases n - i,
    {
        if v[i] == '\\' {
            return false;
        }
        i = i + 1;
    }
    true
}

/// The view of a request.
pub open spec fn request_view(r: TileRequest) -> (u32, u32, Seq<char>, Seq<char>, Seq<char>) {
    (r.game_id, r.map_id, r.z@, r.x@, r.y@)
}

/// Reads a `tile://` request path; `None` means the request is answered with
/// `STATUS_BAD_REQUEST`.
pub fn parse_tile_request(path: &str) -> (r: Option<TileRequest>)
    ensures
        match r {
            Some(t) => spec_parse_tile_request(path@) == Some(request_view(t)),
            None => spec_parse_tile_request(path@) is None,
        },
{
    let p = chars_of(path);
    let trimmed = trim_start_char_exec(&p, '/');
    let parts = split_char_exec(&trimmed, '/');
    if parts.len() != 5 {
        return None;
    }
    let g = parse_u32_exec(&parts[0]);
    let m = parse_u32_exec(&parts[1]);
    match (g, m) {
        (Some(g), Some(m)) => {
            let y = before_char_exec(&parts[4], '.');
            if !(is_safe_segment_exec(&parts[2]) && is_safe_segment_exec(&parts[3])
                && is_safe_segment_exec(&y)) {
                return None;
            }
            Some(
                TileRequest {
                    game_id: g,
                    map_id: m,
                    z: string_from_chars(&parts[2]),
                    x: string_from_chars(&parts[3]),
                    y: string_from_chars(&y),
                },
            )
        },
        _ => None,
    }
}

/// The content type of a tile with extension `ext`.
pub open spec fn spec_tile_content_type(ext: Seq<char>) -> Seq<char> {
    if ext == "jpg"@ || ext == "jpeg"@ {
        "image/jpeg"@
    } else {
        "image/png"@
    }
}

/// The content type of a tile with extension `ext`: JPEG for `jpg` and
/// `jpeg`, PNG otherwise.
pub fn tile_content_type(ext: &str) -> (r: String)
    ensures
        r@ == spec_tile_content_type(ext@),
{
    let jpg = chars_of("jpg");
    let jpeg = chars_of("jpeg");
    if str_eq_chars(ext, &jpg) || str_eq_chars(ext, &jpeg) {
        "image/jpeg".to_owned()
    } else {
        "image/png".to_owned()
    }
}

/// The CDN URL of a requested tile: the template with `{z}`, `{x}` and `{y}`
/// replaced, in that order, by the request's segments.
pub open spec fn spec_fetch_url(template: Seq<char>, z: Seq<char>, x: Seq<char>, y: Seq<char>) -> Seq<char> {
    replace_all(replace_all(replace_all(template, "{z}"@, z), "{x}"@, x), "{y}"@, y)
}

/// Where a requested tile comes from.
pub struct TileSource {
    pub content_type: String,
    /// The cached file, below the application data folder.
    pub file: Vec<String>,
    /// The CDN URL to fetch from when the file is not cached; `None` when the
    /// metadata has no URL template (then a miss is `STATUS_NOT_FOUND`).
    pub fetch_url: Option<String>,
}

/// Decides where a requested tile comes from, given the map's tile metadata;
/// without metadata the answer is `STATUS_NOT_FOUND`.
pub fn plan_tile_source(req: &TileRequest, meta: Option<TileMeta>) -> (r: Result<TileSource, u16>)
    ensures
        match meta {
            None => r == Err::<TileSource, u16>(STATUS_NOT_FOUND),
            Some(m) => r matches Ok(s) && {
                &&& s.content_type@ == spec_tile_content_type(m.extension@)
                &&& seg_view(s.file@) == spec_map_dir(req.game_id, req.map_id).push("tiles"@).push(
                    req.z@,
                ).push(req.x@).push(req.y@ + "."@ + m.extension@)
                &&& m.url_template@.len() == 0 ==> s.fetch_url is None
                &&& m.url_template@.len() > 0 ==> (s.fetch_url matches Some(u) && u@
                    == spec_fetch_url(m.url_template@, req.z@, req.x@, req.y@))
            },
        },
{
    let m = match meta {
        None => return Err(STATUS_NOT_FOUND),
        Some(m) => m,
    };
    let content_type = tile_content_type(m.extension.as_str());
    let file = tile_file_segments(
        req.game_id,
        req.map_id,
        req.z.as_str(),
        req.x.as_str(),
        req.y.as_str(),
        m.extension.as_str(),
    );
    let fetch_url = if m.url_template.as_str().is_empty() {
        None
    } else {
        proof {
            reveal_strlit("{z}");
            reveal_strlit("{x}");
            reveal_strlit("{y}");
        }
        let t = chars_of(m.url_template.as_str());
        let s1 = replace_all_exec(&t, &chars_of("{z}"), &chars_of(req.z.as_str()));
        let s2 = replace_all_exec(&s1, &chars_of("{x}"), &chars_of(req.x.as_str()));
        let s3 = replace_all_exec(&s2, &chars_of("{y}"), &chars_of(req.y.as_str()));
        Some(string_from_chars(&s3))
    };
    Ok(TileSource { content_type, file, fetch_url })
}

/// How fetching a missing tile from the CDN went wrong.
pub enum TileFetchFailure {
    /// The request could not be sent.
    Unreachable,
    /// The CDN answered with a non-success status.
    Rejected,
    /// The body of the answer could not be read.
    Unreadable,
}

/// The answer to a request whose tile could not be fetched: an unsent request
/// or unreadable body is `STATUS_BAD_GATEWAY`; a non-success answer is
/// `STATUS_NOT_FOUND`, since tiles outside a sparse map legitimately 404.
pub fn tile_fetch_failure_status(f: TileFetchFailure) -> (s: u16)
    ensures
        s == (match f {
            TileFetchFailure::Rejected => STATUS_NOT_FOUND,
            _ => STATUS_BAD_GATEWAY,
        }),
{
    match f {
        TileFetchFailure::Unreachable => STATUS_BAD_GATEWAY,
        TileFetchFailure::Rejected => STATUS_NOT_FOUND,
        TileFetchFailure::Unreadable => STATUS_BAD_GATEWAY,
    }
}

/// A path built as `/{game_id}/{map_id}/{z}/{x}/{y}.{ext}` is read back as the
/// request for exactly that tile, when `z`, `x` and `y` are safe segments,
/// `z`, `x`, `y` and `ext` hold no `/`, and `y` holds no `.`.
pub proof fn law_tile_path_round_trip(
    game_id: u32,
    map_id: u32,
    z: Seq<char>,
    x: Seq<char>,
    y: Seq<char>,
    ext: Seq<char>,
)
    requires
        is_safe_segment(z),
        is_safe_segment(x),
        is_safe_segment(y),
        forall|i: int| 0 <= i < z.len() ==> z[i] != '/',
        forall|i: int| 0 <= i < x.len() ==> x[i] != '/',
        forall|i: int| 0 <= i < y.len() ==> y[i] != '/' && y[i] != '.',
        forall|i: int| 0 <= i < ext.len() ==> ext[i] != '/',
    ensures
        spec_parse_tile_request(
            seq!['/'] + decimal(game_id as nat) + seq!['/'] + decimal(map_id as nat) + seq!['/']
                + z + seq!['/'] + x + seq!['/'] + y + seq!['.'] + ext,
        ) == Some((game_id, map_id, z, x, y)),
{
    let dg = decimal(game_id as nat);
    let dm = decimal(map_id as nat);
    let last = y + seq!['.'] + ext;
    let body = dg + seq!['/'] + dm + seq!['/'] + z + seq!['/'] + x + seq!['/'] + last;
    let path = seq!['/'] + dg + seq!['/'] + dm + seq!['/'] + z + seq!['/'] + x + seq!['/'] + y
        + seq!['.'] + ext;
    assert(path =~= seq!['/'] + body);
    lemma_decimal_no_sign(game_id as nat);
    lemma_parse_decimal(game_id);
    lemma_parse_decimal(map_id);
    crate::text::lemma_decimal_digits(game_id as nat);
    crate::text::lemma_decimal_digits(map_id as nat);
    // leading slash removal
    assert(path[0] == '/');
    assert(path.drop_first() =~= body);
    assert(trim_start_char(path, '/') == trim_start_char(body, '/'));
    assert(body[0] == dg[0]);
    assert(trim_start_char(body, '/') == body);
    // splitting
    assert forall|i: int| 0 <= i < dg.len() implies dg[i] != '/' by {
        assert(crate::text::is_ascii_digit(dg[i]));
    }
    assert forall|i: int| 0 <= i < dm.len() implies dm[i] != '/' by {
        assert(crate::text::is_ascii_digit(dm[i]));
    }
    assert forall|i: int| 0 <= i < last.len() implies last[i] != '/' by {
        if i < y.len() {
            assert(last[i] == y[i]);
        } else if i > y.len() {
            assert(last[i] == ext[i - y.len() - 1]);
        }
    }
    let r4 = x + seq!['/'] + last;
    let r3 = z + seq!['/'] + r4;
    let r2 = dm + seq!['/'] + r3;
    assert(body =~= dg + seq!['/'] + r2);
    assert(r2 =~= dm + seq!['/'] + r3);
    assert(r3 =~= z + seq!['/'] + r4);
    lemma_split_char_cons(dg, r2, '/');
    lemma_split_char_cons(dm, r3, '/');
    lemma_split_char_cons(z, r4, '/');
    lemma_split_char_cons(x, last, '/');
    lemma_split_char_none(last, '/');
    let parts = tile_path_parts(path);
    assert(parts =~= seq![dg, dm, z, x, last]);
    // the last segment is cut at its first dot
    assert(crate::text::is_first_char(last, '.', y.len() as int));
    crate::text::lemma_find_char(last, '.', y.len() as int);
    assert(last.take(y.len() as int) =~= y);
}

/// Every request read from a path names its tile inside the map's tiles
/// folder: its `z`, `x` and `y` are safe segments and hold no `/`.
pub proof fn law_parsed_request_stays_in_folder(path: Seq<char>)
    ensures
        spec_parse_tile_request(path) matches Some((g, m, z, x, y)) ==> {
            &&& is_safe_segment(z) && is_safe_segment(x) && is_safe_segment(y)
            &&& forall|i: int| 0 <= i < z.len() ==> z[i] != '/'
            &&& forall|i: int| 0 <= i < x.len() ==> x[i] != '/'
            &&& forall|i: int| 0 <= i < y.len() ==> y[i] != '/'
        },
{
    let parts = tile_path_parts(path);
    lemma_split_char_pieces_free(trim_start_char(path, '/'), '/');
    if parts.len() == 5 {
        lemma_before_char_free(parts[4], '.');
        assert forall|i: int| 0 <= i < parts[2].len() implies parts[2][i] != '/' by {
            assert(parts[2][i] == split_char(trim_start_char(path, '/'), '/')[2][i]);
        }
        assert forall|i: int| 0 <= i < parts[3].len() implies parts[3][i] != '/' by {
            assert(parts[3][i] == split_char(trim_start_char(path, '/'), '/')[3][i]);
        }
        let y = before_char(parts[4], '.');
        assert forall|i: int| 0 <= i < y.len() implies y[i] != '/' by {
            assert(y[i] == parts[4][i]);
            assert(parts[4][i] == split_char(trim_start_char(path, '/'), '/')[4][i]);
        }
    }
}

} // verus!
