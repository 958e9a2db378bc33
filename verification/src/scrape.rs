//! Reading the JSON that MapGenie's pages assign to JavaScript variables, and
//! the addresses of those pages.

use vstd::prelude::*;
use crate::text::{
    chars_of, decimal, decimal_chars, find_seq, find_seq_exec, push_all, push_str,
    string_from_chars, trim_ws, trim_ws_exec,
};

verus! {

broadcast use vstd::string::group_string_axioms;

/// A JSON value as parsed by serde_json.
#[verifier::external_type_specification]
#[verifier::external_body]
pub struct ExJsonValue(serde_json::Value);

/// The characters serde_json skips between values.
pub open spec fn is_json_whitespace(c: char) -> bool {
    c == ' ' || c == '\n' || c == '\t' || c == '\r'
}

/// `s` holds nothing but JSON white space.
pub open spec fn all_json_whitespace(s: Seq<char>) -> bool {
    forall|i: int| 0 <= i < s.len() ==> is_json_whitespace(#[trigger] s[i])
}

/// The first JSON value at the start of `text` (after white space) as
/// serde_json's stream deserializer reads it, or the message of the error it
/// reports instead.
pub uninterp spec fn first_json_value(text: Seq<char>) -> Result<serde_json::Value, Seq<char>>;

/// Reads the first JSON value at the start of `text` with serde_json's
/// stream deserializer (`Deserializer::from_str(text).into_iter().next()`),
/// ignoring whatever follows it. `None` when `text` is only white space
/// (serde_json's `parse_whitespace` skips ' ', '\n', '\t', '\r' and then
/// finds the end of input); otherwise the value read, or the error's message,
/// both named by `first_json_value`.
#[verifier::external_body]
fn parse_first_json_value(text: &str) -> (r: Option<Result<serde_json::Value, String>>)
    ensures
        r is None <==> all_json_whitespace(text@),
        r matches Some(Ok(v)) ==> (first_json_value(text@) matches Ok(w) && w == v),
        r matches Some(Err(e)) ==> (first_json_value(text@) matches Err(m) && m == e@),
{
    match serde_json::Deserializer::from_str(text).into_iter::<serde_json::Value>().next() {
        None => None,
        Some(Ok(v)) => Some(Ok(v)),
        Some(Err(e)) => Some(Err(e.to_string())),
    }
}

/// The message when the variable prefix does not occur in the page.
pub open spec fn prefix_not_found_message(prefix: Seq<char>) -> Seq<char> {
    "'"@ + trim_ws(prefix) + "' not found in page"@
}

/// The message when nothing but white space follows the variable prefix.
pub const NO_JSON_AFTER_PREFIX: &'static str = "Failed to parse JSON after variable prefix";

/// The JSON value after the first occurrence of `prefix` in `html`, or the
/// error message: the prefix is missing, nothing but white space follows it,
/// or serde_json cannot read a value there.
pub open spec fn spec_extract_named_var_json(html: Seq<char>, prefix: Seq<char>) -> Result<
    serde_json::Value,
    Seq<char>,
> {
    match find_seq(html, prefix) {
        None => Err(prefix_not_found_message(prefix)),
        Some(i) => {
            let rest = html.skip(i + prefix.len());
            if all_json_whitespace(rest) {
                Err(NO_JSON_AFTER_PREFIX@)
            } else {
                first_json_value(rest)
            }
        },
    }
}

/// Extracts the JSON value of a named JavaScript variable from raw HTML:
/// the first JSON value after the first occurrence of `prefix` (for example
/// `window.mapData = `), ignoring the semicolon and script that follow it.
pub fn extract_named_var_json(html: &str, prefix: &str) -> (r: Result<serde_json::Value, String>)
    ensures
        match r {
            Ok(v) => spec_extract_named_var_json(html@, prefix@) == Ok::<serde_json::Value, Seq<char>>(
                v,
            ),
            Err(e) => spec_extract_named_var_json(html@, prefix@) == Err::<
                serde_json::Value,
                Seq<char>,
            >(e@),
        },
{
    let h = chars_of(html);
    let p = chars_of(prefix);
    match find_seq_exec(&h, &p) {
        None => {
            let mut msg: Vec<char> = Vec::new();
            push_str(&mut msg, "'");
            let t = trim_ws_exec(&p);
            push_all(&mut msg, &t);
            push_str(&mut msg, "' not found in page");
            Err(string_from_chars(&msg))
        },
        Some(i) => {
            proof {
                let k = choose|k: int| crate::text::is_first_occurrence(h@, p@, k);
                assert(crate::text::occurs_at(h@, p@, k));
                assert(k == i);
                assert(i + p.len() <= h.len());
            }
            let rest = html.substring_char(i + p.len(), h.len());
            proof {
                assert(rest@ == html@.skip(i + p.len()));
            }
            match parse_first_json_value(rest) {
                None => Err(NO_JSON_AFTER_PREFIX.to_owned()),
                Some(Ok(v)) => Ok(v),
                Some(Err(e)) => Err(e),
            }
        },
    }
}

/// The prefix of the map data in a map page.
pub const MAP_DATA_PREFIX: &'static str = "window.mapData = ";

/// The prefix of the marker sprite positions in a map page.
pub const MARKER_POSITIONS_PREFIX: &'static str = "const MARKER_SPRITE_POSITIONS_V3 = ";

/// The JSON read from a map page: the map data, and the marker sprite
/// positions when the page has them.
pub struct MapPageJson {
    pub map_data: serde_json::Value,
    pub marker_positions: Option<serde_json::Value>,
}

/// Reads the map data and the marker sprite positions out of a map page. The
/// map data must be there; missing or unreadable positions give `None`.
pub fn extract_map_page_json(html: &str) -> (r: Result<MapPageJson, String>)
    ensures
        match r {
            Ok(page) => {
                &&& spec_extract_named_var_json(html@, MAP_DATA_PREFIX@) == Ok::<
                    serde_json::Value,
                    Seq<char>,
                >(page.map_data)
                &&& match page.marker_positions {
                    Some(v) => spec_extract_named_var_json(html@, MARKER_POSITIONS_PREFIX@) == Ok::<
                        serde_json::Value,
                        Seq<char>,
                    >(v),
                    None => spec_extract_named_var_json(html@, MARKER_POSITIONS_PREFIX@) is Err,
                }
            },
            Err(e) => spec_extract_named_var_json(html@, MAP_DATA_PREFIX@) == Err::<
                serde_json::Value,
                Seq<char>,
            >(e@),
        },
{
    let map_data = extract_named_var_json(html, MAP_DATA_PREFIX)?;
    let marker_positions = match extract_named_var_json(html, MARKER_POSITIONS_PREFIX) {
        Ok(v) => Some(v),
        Err(_) => None,
    };
    Ok(MapPageJson { map_data, marker_positions })
}

/// The members of `v` in serde_json's order, name and value, when `v` is a
/// JSON object; `None` for any other JSON value.
pub uninterp spec fn json_object_members(v: serde_json::Value) -> Option<
    Seq<(Seq<char>, serde_json::Value)>,
>;

/// The members of a JSON object, each name by its text.
pub open spec fn members_view(m: Seq<(String, serde_json::Value)>) -> Seq<(Seq<char>, serde_json::Value)> {
    m.map_values(|p: (String, serde_json::Value)| (p.0@, p.1))
}

/// The members of `v` through serde_json's `Value::as_object`, copied out of
/// its map in the map's order; `None` when `v` is not an object. Which
/// members an object holds, and in what order, is named by
/// `json_object_members`.
#[verifier::external_body]
fn json_object_entries(v: &serde_json::Value) -> (r: Option<Vec<(String, serde_json::Value)>>)
    ensures
        r is None <==> json_object_members(*v) is None,
        r matches Some(e) ==> json_object_members(*v) == Some(members_view(e@)),
{
    v.as_object().map(|m| m.iter().map(|(k, x)| (k.clone(), x.clone())).collect())
}

/// Where the marker sprites of a game are cut from.
pub enum SpriteSource {
    /// The marker sprite positions of a map page: one member per marker.
    Positions(Vec<(String, serde_json::Value)>),
    /// The fallback sprite sheet, with the markers.json beside it.
    Atlas,
}

/// Chooses where the marker sprites are cut from: the positions read from a
/// map page when they are a JSON object, otherwise the fallback sheet.
pub fn sprite_source(positions: Option<serde_json::Value>) -> (r: SpriteSource)
    ensures
        match positions {
            Some(v) => match json_object_members(v) {
                Some(m) => r matches SpriteSource::Positions(e) && members_view(e@) == m,
                None => r is Atlas,
            },
            None => r is Atlas,
        },
{
    match positions {
        Some(v) => match json_object_entries(&v) {
            Some(e) => SpriteSource::Positions(e),
            None => SpriteSource::Atlas,
        },
        None => SpriteSource::Atlas,
    }
}

/// The address of the games list.
pub const GAMES_API_URL: &'static str = "https://mapgenie.io/api/v1/games";

/// The address of a map page: `https://mapgenie.io/{game_slug}/maps/{map_slug}`.
pub fn map_page_url(game_slug: &str, map_slug: &str) -> (r: String)
    ensures
        r@ == "https://mapgenie.io/"@ + game_slug@ + "/maps/"@ + map_slug@,
{
    let mut v: Vec<char> = Vec::new();
    push_str(&mut v, "https://mapgenie.io/");
    push_str(&mut v, game_slug);
    push_str(&mut v, "/maps/");
    push_str(&mut v, map_slug);
    string_from_chars(&v)
}

/// The address of a map's location data:
/// `https://mapgenie.io/api/v1/maps/{map_id}/data`.
pub fn map_data_url(map_id: u32) -> (r: String)
    ensures
        r@ == "https://mapgenie.io/api/v1/maps/"@ + decimal(map_id as nat) + "/data"@,
{
    let mut v: Vec<char> = Vec::new();
    push_str(&mut v, "https://mapgenie.io/api/v1/maps/");
    let d = decimal_chars(map_id as u64);
    push_all(&mut v, &d);
    push_str(&mut v, "/data");
    string_from_chars(&v)
}

} // verus!
