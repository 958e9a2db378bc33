//! The games-list cache and the in-memory cache of per-map tile metadata.

use vstd::prelude::*;
use std::collections::HashMap;
use crate::models::{CacheData, Game, TileMeta};
use crate::text::{decimal, decimal_chars, push_all, push_str, string_from_chars};

verus! {

broadcast use {vstd::std_specs::hash::group_hash_axioms, vstd::string::group_string_axioms};

/// The file (in the application's cache folder) that holds the games list.
pub const GAMES_CACHE_FILE: &'static str = "mapgenie_games_cache.json";

/// How long a cached games list stays fresh: twelve hours, in seconds.
pub const GAMES_CACHE_TTL_SECS: u64 = 43200;

/// The age of a cache written at `timestamp`, seen at `now`, as the unsigned
/// 64-bit difference (a timestamp in the future wraps around to a large age).
pub open spec fn cache_age(now: u64, timestamp: u64) -> int {
    if timestamp <= now {
        now - timestamp
    } else {
        now - timestamp + 0x1_0000_0000_0000_0000
    }
}

/// Whether a games list cached at `timestamp` is still fresh at `now`.
pub fn cache_is_fresh(now: u64, timestamp: u64) -> (r: bool)
    ensures
        r == (cache_age(now, timestamp) < GAMES_CACHE_TTL_SECS),
{
    let age = now.wrapping_sub(timestamp);
    proof {
        if timestamp <= now {
            assert(age == now - timestamp);
        } else {
            assert(age == now - timestamp + 0x1_0000_0000_0000_0000);
        }
    }
    age < GAMES_CACHE_TTL_SECS
}

/// The message when the games-list cache file cannot be read.
pub const GAMES_CACHE_MISSING: &'static str = "Game cache not found \u{2014} fetch the games list first";

/// `i` is the first position of a game with id `game_id`.
pub open spec fn is_first_game(games: Seq<Game>, game_id: u32, i: int) -> bool {
    &&& 0 <= i < games.len()
    &&& games[i].id == game_id
    &&& forall|j: int| 0 <= j < i ==> games[j].id != game_id
}

/// The message when the cache holds no game with the requested id.
pub open spec fn game_not_found_message(game_id: u32) -> Seq<char> {
    "Game with id "@ + decimal(game_id as nat) + " not found in cache"@
}

/// The first game of the cached games list whose id is `game_id`.
pub fn get_cached_game(cache: CacheData, game_id: u32) -> (r: Result<Game, String>)
    ensures
        match r {
            Ok(g) => exists|i: int| is_first_game(cache.games@, game_id, i) && g == cache.games@[i],
            Err(e) => (forall|i: int|
                0 <= i < cache.games@.len() ==> cache.games@[i].id != game_id) && e@
                == game_not_found_message(game_id),
        },
{
    let ghost orig = cache.games@;
    let mut games = cache.games;
    let mut i: usize = 0;
    while i < games.len()
        invariant
            games@ == orig,
            orig == cache.games@,
            0 <= i <= games.len(),
            forall|j: int| 0 <= j < i ==> games@[j].id != game_id,
        decreases games.len() - i,
    {
        if games[i].id == game_id {
            proof {
                assert(is_first_game(orig, game_id, i as int));
            }
            let g = games.remove(i);
            proof {
                assert(g == orig[i as int]);
                assert(orig == cache.games@);
                assert(is_first_game(cache.games@, game_id, i as int) && g == cache.games@[i as int]);
            }
            return Ok(g);
        }
        i = i + 1;
    }
    let mut msg: Vec<char> = Vec::new();
    push_str(&mut msg, "Game with id ");
    let d = decimal_chars(game_id as u64);
    push_all(&mut msg, &d);
    push_str(&mut msg, " not found in cache");
    Err(string_from_chars(&msg))
}

/// What reading the games-list cache file gave.
pub enum CacheRead {
    /// The file could not be read.
    Unreadable,
    /// The file was read but is not a games list; the parser's message.
    Malformed(String),
    /// The games list the file holds.
    Parsed(CacheData),
}

/// A game out of the games-list cache file as it was read: an unreadable
/// file asks for the games list to be fetched first, a malformed one gives
/// the parser's message, and a readable one is searched as by
/// `get_cached_game`. The age of the cache plays no part.
pub fn cached_game_from_read(read: CacheRead, game_id: u32) -> (r: Result<Game, String>)
    ensures
        match read {
            CacheRead::Unreadable => r matches Err(e) && e@ == GAMES_CACHE_MISSING@,
            CacheRead::Malformed(m) => r matches Err(e) && e@ == m@,
            CacheRead::Parsed(cache) => match r {
                Ok(g) => exists|i: int| is_first_game(cache.games@, game_id, i) && g == cache.games@[i],
                Err(e) => (forall|i: int|
                    0 <= i < cache.games@.len() ==> cache.games@[i].id != game_id) && e@
                    == game_not_found_message(game_id),
            },
        },
{
    match read {
        CacheRead::Unreadable => Err(GAMES_CACHE_MISSING.to_owned()),
        CacheRead::Malformed(m) => Err(m),
        CacheRead::Parsed(cache) => get_cached_game(cache, game_id),
    }
}

/// The single integer under which the metadata of a game map is kept:
/// the game id in the high half, the map id in the low half.
pub open spec fn meta_key(game_id: u32, map_id: u32) -> u64 {
    (game_id as int * 0x1_0000_0000 + map_id as int) as u64
}

fn meta_key_exec(game_id: u32, map_id: u32) -> (k: u64)
    ensures
        k == meta_key(game_id, map_id),
{
    game_id as u64 * 0x1_0000_0000 + map_id as u64
}

/// Different game maps have different keys.
pub proof fn lemma_meta_key_injective(g1: u32, m1: u32, g2: u32, m2: u32)
    requires
        meta_key(g1, m1) == meta_key(g2, m2),
    ensures
        g1 == g2 && m1 == m2,
{
    assert(g1 as int * 0x1_0000_0000 + m1 as int == g2 as int * 0x1_0000_0000 + m2 as int);
    if g1 < g2 {
        assert((g1 as int) * 0x1_0000_0000 + (m1 as int) < (g2 as int) * 0x1_0000_0000);
    } else if g1 > g2 {
        assert((g2 as int) * 0x1_0000_0000 + (m2 as int) < (g1 as int) * 0x1_0000_0000);
    }
}

/// Tile metadata kept in memory per (game id, map id), so that serving a tile
/// does not re-read tile_meta.json each time.
pub struct TileMetaCache {
    entries: HashMap<u64, TileMeta>,
}

impl View for TileMetaCache {
    type V = Map<(u32, u32), TileMeta>;

    closed spec fn view(&self) -> Map<(u32, u32), TileMeta> {
        Map::new(
            |k: (u32, u32)| self.entries@.contains_key(meta_key(k.0, k.1)),
            |k: (u32, u32)| self.entries@[meta_key(k.0, k.1)],
        )
    }
}

impl TileMetaCache {
    /// An empty cache.
    pub fn new() -> (c: Self)
        ensures
            c@ == Map::<(u32, u32), TileMeta>::empty(),
    {
        let c = TileMetaCache { entries: HashMap::new() };
        assert(c@ =~= Map::<(u32, u32), TileMeta>::empty());
        c
    }

    /// The metadata cached for a game map, if any.
    pub fn get(&self, game_id: u32, map_id: u32) -> (r: Option<TileMeta>)
        ensures
            r == (if self@.contains_key((game_id, map_id)) {
                Some(self@[(game_id, map_id)])
            } else {
                None
            }),
    {
        let k = meta_key_exec(game_id, map_id);
        match self.entries.get(&k) {
            Some(m) => Some(m.clone()),
            None => None,
        }
    }

    /// Records the metadata of a game map, replacing what was cached for it.
    pub fn insert(&mut self, game_id: u32, map_id: u32, meta: TileMeta)
        ensures
            final(self)@ == old(self)@.insert((game_id, map_id), meta),
    {
        let k = meta_key_exec(game_id, map_id);
        self.entries.insert(k, meta);
        proof {
            assert forall|p: (u32, u32)| p != (game_id, map_id) implies meta_key(p.0, p.1) != k by {
                if meta_key(p.0, p.1) == k {
                    lemma_meta_key_injective(p.0, p.1, game_id, map_id);
                }
            }
            assert(self@ =~= old(self)@.insert((game_id, map_id), meta));
        }
    }

    /// Takes metadata read from a map's tile_meta.json: a file without a URL
    /// template (written by older versions) counts as missing, so nothing is
    /// cached and `None` is returned; otherwise it is cached and returned.
    pub fn admit_loaded(&mut self, game_id: u32, map_id: u32, meta: TileMeta) -> (r: Option<
        TileMeta,
    >)
        ensures
            meta.url_template@.len() == 0 ==> r is None && final(self)@ == old(self)@,
            meta.url_template@.len() > 0 ==> r == Some(meta) && final(self)@ == old(self)@.insert(
                (game_id, map_id),
                meta,
            ),
    {
        if meta.url_template.as_str().is_empty() {
            return None;
        }
        let kept = meta.clone();
        self.insert(game_id, map_id, kept);
        Some(meta)
    }
}

/// What was cached for a game map is what a later lookup returns.
pub proof fn law_tile_meta_read_after_write(
    cache: Map<(u32, u32), TileMeta>,
    game_id: u32,
    map_id: u32,
    meta: TileMeta,
)
    ensures
        cache.insert((game_id, map_id), meta).contains_key((game_id, map_id)),
        cache.insert((game_id, map_id), meta)[(game_id, map_id)] == meta,
{
}

/// Caching one game map leaves the others as they were.
pub proof fn law_tile_meta_other_keys(
    cache: Map<(u32, u32), TileMeta>,
    game_id: u32,
    map_id: u32,
    meta: TileMeta,
    other: (u32, u32),
)
    requires
        other != (game_id, map_id),
    ensures
        cache.insert((game_id, map_id), meta).contains_key(other) == cache.contains_key(other),
        cache.contains_key(other) ==> cache.insert((game_id, map_id), meta)[other] == cache[other],
{
}

/// A cache written `age` seconds ago (with `age` not in the future) is fresh
/// exactly when it is younger than twelve hours.
pub proof fn law_cache_freshness(now: u64, timestamp: u64)
    requires
        timestamp <= now,
    ensures
        (cache_age(now, timestamp) < GAMES_CACHE_TTL_SECS) <==> now - timestamp < 12 * 60 * 60,
{
}

} // verus!
