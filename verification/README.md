# cta_collectthemall

The verified core of CollectThemAll, a desktop companion that tracks game
collectibles on MapGenie maps. The library decides; the application performs
the network, disk, database and window work around those decisions.

## Layout

- `src/` — the library, verified with Verus:
  - `text.rs`: character-level string operations (find, split, replace,
    trim, decimal notation, `u32` parsing) with exact specifications;
  - `urls.rs`: URL normalization, density-suffix stripping, the
    `markers.json` next to a sprite sheet;
  - `scrape.rs`: reading the JSON assigned to a page variable and choosing
    the source of the marker sprites (serde_json is called behind two
    trusted wrappers), and the MapGenie page addresses;
  - `models.rs`, `tile_config.rs`: the data model and the normalization of
    per-zoom tile bounds;
  - `tiles.rs`: tile enumeration, download jobs, tile counts, tile
    metadata and download progress;
  - `serve.rs`: reading `tile://` request paths (refusing segments that
    would leave the tiles folder) and deciding the answer;
  - `assets.rs`: the offline download plan of a game and the marker icons
    cut out of the sprite sheet;
  - `cache.rs`: games-list freshness, cached game lookup, tile metadata cache;
  - `paths.rs`: where each file lives below the data folder;
  - `db.rs`: SQLite migration batches, the rollback after a failed batch,
    and the found-marker import plan with a model of what it does to the
    tables.
- `tests/`: tests of the library on concrete values.
- `app/`: the Tauri application (commands, `tile://` handler, HTTP, files,
  SQLite, image slicing) built on the library.
