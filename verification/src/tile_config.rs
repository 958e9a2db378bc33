//! The tile configuration that MapGenie embeds in each map page.
//!
//! Games encode the per-zoom tile bounds in different shapes: an object keyed
//! by the zoom level's decimal string, an array indexed by zoom level, or
//! `null`. All of them are normalized here into one table keyed by zoom level.

use vstd::prelude::*;
use std::collections::HashMap;
use crate::text::{chars_of, decimal, lemma_decimal_injective, parse_canonical_u32};

verus! {

broadcast use {vstd::std_specs::hash::group_hash_axioms, vstd::string::group_string_axioms};

/// An inclusive range of tile indices.
#[derive(Clone, Copy)]
pub struct MinMax {
    pub min: u32,
    pub max: u32,
}

/// Which tile columns (x) and rows (y) exist at one zoom level.
#[derive(Clone, Copy)]
pub struct TileSetBounds {
    pub x: MinMax,
    pub y: MinMax,
}

/// The per-zoom bounds as they were written in the page, before normalization.
pub enum RawTileBounds {
    /// An object: each entry's key is meant to be a zoom level's decimal string.
    Keyed(Vec<(String, TileSetBounds)>),
    /// An array: the index of an element is its zoom level; `null` elements are skipped.
    Indexed(Vec<Option<TileSetBounds>>),
    /// `null` or absent.
    Missing,
}

/// The per-zoom tile bounds of a tile set, keyed by zoom level.
pub struct TileBoundsTable {
    by_zoom: HashMap<u32, TileSetBounds>,
}

impl View for TileBoundsTable {
    type V = Map<u32, TileSetBounds>;

    closed spec fn view(&self) -> Map<u32, TileSetBounds> {
        self.by_zoom@
    }
}

/// The text of each key of an object form.
pub open spec fn keyed_view(entries: Seq<(String, TileSetBounds)>) -> Seq<(Seq<char>, TileSetBounds)> {
    entries.map_values(|e: (String, TileSetBounds)| (e.0@, e.1))
}

/// The value of the last entry whose key is `key` (a later duplicate key
/// overrides an earlier one).
pub open spec fn last_entry_for(entries: Seq<(Seq<char>, TileSetBounds)>, key: Seq<char>) -> Option<
    TileSetBounds,
>
    decreases entries.len(),
{
    if entries.len() == 0 {
        None
    } else if entries.last().0 == key {
        Some(entries.last().1)
    } else {
        last_entry_for(entries.drop_last(), key)
    }
}

/// The table of an object form: zoom level `z` has the bounds of the last
/// entry keyed by the decimal string of `z`. Other keys are never looked up.
pub open spec fn keyed_table(entries: Seq<(Seq<char>, TileSetBounds)>) -> Map<u32, TileSetBounds> {
    Map::new(
        |z: u32| last_entry_for(entries, decimal(z as nat)) is Some,
        |z: u32| last_entry_for(entries, decimal(z as nat))->0,
    )
}

/// The table of an array form: zoom level `z` has the bounds at index `z`, if
/// that element is present and not `null`.
pub open spec fn indexed_table(elems: Seq<Option<TileSetBounds>>) -> Map<u32, TileSetBounds> {
    Map::new(|z: u32| z < elems.len() && elems[z as int] is Some, |z: u32| elems[z as int]->0)
}

/// The normalized table of a raw bounds value.
pub open spec fn spec_normalize_tile_bounds(raw: RawTileBounds) -> Map<u32, TileSetBounds> {
    match raw {
        RawTileBounds::Keyed(entries) => keyed_table(keyed_view(entries@)),
        RawTileBounds::Indexed(elems) => indexed_table(elems@),
        RawTileBounds::Missing => Map::empty(),
    }
}

/// Normalizes tile bounds given as an object, an array or `null` into one
/// table keyed by zoom level.
pub fn normalize_tile_bounds(raw: RawTileBounds) -> (t: TileBoundsTable)
    ensures
        t@ == spec_normalize_tile_bounds(raw),
{
    let mut by_zoom: HashMap<u32, TileSetBounds> = HashMap::new();
    match raw {
        RawTileBounds::Keyed(entries) => {
            let ghost ev = keyed_view(entries@);
            let mut i: usize = 0;
            proof {
                assert(by_zoom@ =~= keyed_table(ev.take(0)));
            }
            while i < entries.len()
                invariant
                    0 <= i <= entries.len(),
                    ev == keyed_view(entries@),
                    by_zoom@ == keyed_table(ev.take(i as int)),
                decreases entries.len() - i,
            {
                let key = chars_of(entries[i].0.as_str());
                let b = entries[i].1;
                let ghost pre = ev.take(i as int);
                let ghost post = ev.take(i + 1);
                proof {
                    assert(post.drop_last() == pre);
                    assert(post.last() == (key@, b));
                }
                match parse_canonical_u32(&key) {
                    Some(z) => {
                        by_zoom.insert(z, b);
                        proof {
                            assert forall|w: u32| w != z implies last_entry_for(
                                post,
                                decimal(w as nat),
                            ) == last_entry_for(pre, decimal(w as nat)) by {
                                if decimal(w as nat) == key@ {
                                    lemma_decimal_injective(w as nat, z as nat);
                                }
                            }
                            assert(by_zoom@ =~= keyed_table(post));
                        }
                    },
                    None => {
                        proof {
                            assert forall|w: u32| last_entry_for(post, decimal(w as nat))
                                == last_entry_for(pre, decimal(w as nat)) by {}
                            assert(by_zoom@ =~= keyed_table(post));
                        }
                    },
                }
                i = i + 1;
            }
            proof {
                assert(ev.take(entries.len() as int) == ev);
            }
        },
        RawTileBounds::Indexed(elems) => {
            let mut i: usize = 0;
            proof {
                assert(by_zoom@ =~= indexed_table(elems@.take(0)));
            }
            while i < elems.len() && i <= 0xffff_ffff
                invariant
                    0 <= i <= elems.len(),
                    by_zoom@ == indexed_table(elems@.take(i as int)),
                decreases elems.len() - i,
            {
                let ghost pre = elems@.take(i as int);
                let ghost post = elems@.take(i + 1);
                match elems[i] {
                    Some(b) => {
                        by_zoom.insert(i as u32, b);
                    },
                    None => {},
                }
                proof {
                    assert(by_zoom@ =~= indexed_table(post));
                }
                i = i + 1;
            }
            proof {
                assert(by_zoom@ =~= indexed_table(elems@));
            }
        },
        RawTileBounds::Missing => {
            proof {
                assert(by_zoom@ =~= Map::<u32, TileSetBounds>::empty());
            }
        },
    }
    TileBoundsTable { by_zoom }
}

impl TileBoundsTable {
    /// The bounds at zoom level `zoom`, if the table has them.
    pub fn get(&self, zoom: u32) -> (r: Option<TileSetBounds>)
        ensures
            r == (if self@.contains_key(zoom) {
                Some(self@[zoom])
            } else {
                None
            }),
    {
        match self.by_zoom.get(&zoom) {
            Some(b) => Some(*b),
            None => None,
        }
    }
}

/// One set of tiles: the URL pattern, the file type, the zoom range and the
/// per-zoom bounds.
pub struct TileSet {
    pub pattern: String,
    pub extension: String,
    pub min_zoom: u32,
    pub max_zoom: u32,
    pub bounds: TileBoundsTable,
}

/// The `mapConfig` object: a map usually has exactly one tile set.
pub struct MapConfig {
    pub tile_sets: Vec<TileSet>,
}

/// The top-level `window.mapData` object of a map page.
pub struct MapDataHtml {
    pub map_config: MapConfig,
}

/// Looking up a zoom level in a normalized object form yields the last entry
/// keyed by that zoom level's decimal string.
pub proof fn law_keyed_lookup(entries: Seq<(Seq<char>, TileSetBounds)>, zoom: u32)
    ensures
        keyed_table(entries).contains_key(zoom) <==> last_entry_for(entries, decimal(zoom as nat))
            is Some,
        keyed_table(entries).contains_key(zoom) ==> keyed_table(entries)[zoom] == last_entry_for(
            entries,
            decimal(zoom as nat),
        )->0,
{
}

/// In a normalized array form, zoom level `z` has the bounds of element `z`.
pub proof fn law_indexed_lookup(elems: Seq<Option<TileSetBounds>>, zoom: u32)
    requires
        zoom < elems.len(),
        elems[zoom as int] is Some,
    ensures
        indexed_table(elems).contains_key(zoom),
        indexed_table(elems)[zoom] == elems[zoom as int]->0,
{
}

} // verus!
