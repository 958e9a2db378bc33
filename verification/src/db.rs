//! The decisions around the two SQLite files: which schema migrations to run
//! for a given `user_version`, and how the one-off import of found markers
//! from the web storage proceeds.

use vstd::prelude::*;
use crate::models::FoundImportEntry;
use crate::text::{decimal, decimal_chars, push_all, push_str, string_from_chars};

verus! {

broadcast use vstd::string::group_string_axioms;

/// The schema generation of userdata.sqlite.
pub const SCHEMA_VERSION: u32 = 3;

/// v1: found markers.
pub const SCHEMA_V1: &'static str = "
CREATE TABLE IF NOT EXISTS found_markers (
  game_id     INTEGER NOT NULL,
  map_id      INTEGER NOT NULL,
  location_id INTEGER NOT NULL,
  found_at    INTEGER NOT NULL,
  PRIMARY KEY (game_id, map_id, location_id)
);
";

/// v2: user-created custom markers.
pub const SCHEMA_V2: &'static str = "
CREATE TABLE IF NOT EXISTS custom_markers (
  id          INTEGER PRIMARY KEY AUTOINCREMENT,
  game_id     INTEGER NOT NULL,
  map_id      INTEGER NOT NULL,
  latitude    REAL    NOT NULL,
  longitude   REAL    NOT NULL,
  title       TEXT    NOT NULL DEFAULT '',
  description TEXT    NOT NULL DEFAULT '',
  color       TEXT,
  created_at  INTEGER NOT NULL,
  updated_at  INTEGER NOT NULL
);
CREATE INDEX IF NOT EXISTS idx_custom_markers_map
  ON custom_markers (game_id, map_id);
";

/// v3: the table that records one-off imports.
pub const SCHEMA_V3: &'static str = "
CREATE TABLE IF NOT EXISTS meta (
  key   TEXT PRIMARY KEY,
  value TEXT NOT NULL
);
";

/// The batch that opens the migration transaction.
pub const BEGIN_BATCH: &'static str = "BEGIN;";

/// The batch that records the schema generation and commits:
/// `PRAGMA user_version = 3; COMMIT;`.
pub open spec fn spec_schema_commit_batch() -> Seq<char> {
    "PRAGMA user_version = "@ + decimal(SCHEMA_VERSION as nat) + "; COMMIT;"@
}

/// The batches that bring userdata.sqlite from `version` to `SCHEMA_VERSION`
/// in one transaction: each migration newer than `version`, in order; none
/// at all when the schema is current.
pub open spec fn spec_schema_migration_batches(version: u32) -> Seq<Seq<char>> {
    if version >= SCHEMA_VERSION {
        seq![]
    } else {
        seq![BEGIN_BATCH@] + (if version < 1 {
            seq![SCHEMA_V1@]
        } else {
            seq![]
        }) + (if version < 2 {
            seq![SCHEMA_V2@]
        } else {
            seq![]
        }) + (if version < 3 {
            seq![SCHEMA_V3@]
        } else {
            seq![]
        }) + seq![spec_schema_commit_batch()]
    }
}

/// The text of each batch.
pub open spec fn batches_view(v: Seq<String>) -> Seq<Seq<char>> {
    v.map_values(|s: String| s@)
}

fn push_batch(v: &mut Vec<String>, s: String)
    ensures
        batches_view(final(v)@) == batches_view(old(v)@).push(s@),
{
    v.push(s);
    assert(batches_view(v@) =~= batches_view(old(v)@).push(s@));
}

/// The SQL batches to run, in order, on userdata.sqlite whose `user_version`
/// is `version`.
pub fn schema_migration_batches(version: u32) -> (r: Vec<String>)
    ensures
        batches_view(r@) == spec_schema_migration_batches(version),
{
    let mut r: Vec<String> = Vec::new();
    if version >= SCHEMA_VERSION {
        assert(batches_view(r@) =~= spec_schema_migration_batches(version));
        return r;
    }
    push_batch(&mut r, BEGIN_BATCH.to_owned());
    if version < 1 {
        push_batch(&mut r, SCHEMA_V1.to_owned());
    }
    if version < 2 {
        push_batch(&mut r, SCHEMA_V2.to_owned());
    }
    if version < 3 {
        push_batch(&mut r, SCHEMA_V3.to_owned());
    }
    let mut commit: Vec<char> = Vec::new();
    push_str(&mut commit, "PRAGMA user_version = ");
    let d = decimal_chars(SCHEMA_VERSION as u64);
    push_all(&mut commit, &d);
    push_str(&mut commit, "; COMMIT;");
    push_batch(&mut r, string_from_chars(&commit));
    assert(batches_view(r@) =~= spec_schema_migration_batches(version));
    r
}

/// The batch that abandons the migration transaction.
pub const ROLLBACK_BATCH: &'static str = "ROLLBACK;";

/// What runs on userdata.sqlite after batch `failed` of its migration
/// batches fails, before the error is returned: `ROLLBACK;` once `BEGIN;`
/// has run and the transaction is open; nothing when `BEGIN;` itself failed.
pub open spec fn spec_schema_recovery_batches(failed: nat) -> Seq<Seq<char>> {
    if failed == 0 {
        seq![]
    } else {
        seq![ROLLBACK_BATCH@]
    }
}

/// The SQL batches to run on userdata.sqlite after migration batch `failed`
/// (counted from 0) failed.
pub fn schema_recovery_batches(failed: usize) -> (r: Vec<String>)
    ensures
        batches_view(r@) == spec_schema_recovery_batches(failed as nat),
{
    let mut r: Vec<String> = Vec::new();
    if failed > 0 {
        push_batch(&mut r, ROLLBACK_BATCH.to_owned());
    }
    assert(batches_view(r@) =~= spec_schema_recovery_batches(failed as nat));
    r
}

/// A failed migration commits nothing: the batch that commits is the last
/// one, so it is never among the batches that ran before a failing one; once
/// `BEGIN;` has run, the failure is followed by `ROLLBACK;`, and when
/// `BEGIN;` itself fails nothing has run. The schema is left as it was.
pub proof fn law_failed_migration_commits_nothing(version: u32, failed: nat)
    requires
        failed < spec_schema_migration_batches(version).len(),
    ensures
        ({
            let b = spec_schema_migration_batches(version);
            let ran = b.take(failed as int) + spec_schema_recovery_batches(failed);
            &&& b.last() == spec_schema_commit_batch()
            &&& failed <= b.len() - 1
            &&& failed == 0 ==> ran.len() == 0
            &&& failed > 0 ==> ran[0] == BEGIN_BATCH@ && ran.last() == ROLLBACK_BATCH@
        }),
{
}

/// After a failed migration batch the recovery never commits and never sets
/// `user_version`: when `BEGIN;` had run it is exactly `ROLLBACK;`, the same
/// wherever the failure happened; when `BEGIN;` itself failed it is nothing.
pub proof fn law_recovery_only_rolls_back(failed: nat, other: nat)
    ensures
        failed > 0 ==> spec_schema_recovery_batches(failed) == seq!["ROLLBACK;"@],
        failed > 0 && other > 0 ==> spec_schema_recovery_batches(failed)
            == spec_schema_recovery_batches(other),
        failed == 0 ==> spec_schema_recovery_batches(failed).len() == 0,
        !spec_schema_recovery_batches(failed).contains(spec_schema_commit_batch()),
        !spec_schema_recovery_batches(failed).contains(BEGIN_BATCH@),
{
    reveal_strlit("ROLLBACK;");
    reveal_strlit("PRAGMA user_version = ");
    reveal_strlit("BEGIN;");
    let r = spec_schema_recovery_batches(failed);
    assert(ROLLBACK_BATCH@ == "ROLLBACK;"@);
    assert(BEGIN_BATCH@ == "BEGIN;"@);
    assert(spec_schema_commit_batch()[0] == 'P');
    assert("ROLLBACK;"@[0] == 'R');
    assert("BEGIN;"@[0] == 'B');
    if r.contains(spec_schema_commit_batch()) {
        let k = choose|k: int| 0 <= k < r.len() && r[k] == spec_schema_commit_batch();
        assert(r[k][0] == 'R');
    }
    if r.contains(BEGIN_BATCH@) {
        let k = choose|k: int| 0 <= k < r.len() && r[k] == BEGIN_BATCH@;
        assert(r[k][0] == 'R');
    }
}

/// The schema generation of tiles.sqlite.
pub const TILES_SCHEMA_VERSION: u32 = 1;

/// The migration of tiles.sqlite to generation 1, in one transaction.
pub const TILES_SCHEMA_V1: &'static str = "BEGIN;
         CREATE TABLE IF NOT EXISTS tiles (
           game_id  INTEGER NOT NULL,
           map_id   INTEGER NOT NULL,
           z        INTEGER NOT NULL,
           x        INTEGER NOT NULL,
           y        INTEGER NOT NULL,
           ext      TEXT    NOT NULL,
           data     BLOB    NOT NULL,
           PRIMARY KEY (game_id, map_id, z, x, y)
         );
         PRAGMA user_version = 1;
         COMMIT;";

/// The batches to run on tiles.sqlite whose `user_version` is `version`.
pub open spec fn spec_tiles_migration_batches(version: u32) -> Seq<Seq<char>> {
    if version >= TILES_SCHEMA_VERSION {
        seq![]
    } else {
        seq![TILES_SCHEMA_V1@]
    }
}

/// The SQL batches to run, in order, on tiles.sqlite whose `user_version`
/// is `version`.
pub fn tiles_migration_batches(version: u32) -> (r: Vec<String>)
    ensures
        batches_view(r@) == spec_tiles_migration_batches(version),
{
    let mut r: Vec<String> = Vec::new();
    if version < TILES_SCHEMA_VERSION {
        push_batch(&mut r, TILES_SCHEMA_V1.to_owned());
    }
    assert(batches_view(r@) =~= spec_tiles_migration_batches(version));
    r
}

/// A schema at the current generation needs no migration, and every
/// migration run ends by recording the current generation, so running the
/// migrations twice is a no-op.
pub proof fn law_schema_migrations_idempotent(version: u32)
    ensures
        spec_schema_migration_batches(SCHEMA_VERSION).len() == 0,
        version < SCHEMA_VERSION ==> spec_schema_migration_batches(version).last()
            == spec_schema_commit_batch(),
        version < SCHEMA_VERSION ==> spec_schema_migration_batches(version)[0] == BEGIN_BATCH@,
        spec_tiles_migration_batches(TILES_SCHEMA_VERSION).len() == 0,
{
}

/// Migration `k` runs exactly when the schema is older than generation `k`.
pub proof fn law_schema_migration_selection(version: u32)
    requires
        version < SCHEMA_VERSION,
    ensures
        spec_schema_migration_batches(version).len() == 2 + (SCHEMA_VERSION - version),
        spec_schema_migration_batches(version).contains(SCHEMA_V1@) <== version < 1,
        spec_schema_migration_batches(version).contains(SCHEMA_V2@) <== version < 2,
        spec_schema_migration_batches(version).contains(SCHEMA_V3@),
{
    let b = spec_schema_migration_batches(version);
    if version < 1 {
        assert(b[1] == SCHEMA_V1@);
        assert(b[2] == SCHEMA_V2@);
    } else if version < 2 {
        assert(b[1] == SCHEMA_V2@);
    }
    if version == 0 {
        assert(b[3] == SCHEMA_V3@);
    } else if version == 1 {
        assert(b[2] == SCHEMA_V3@);
    } else {
        assert(b[1] == SCHEMA_V3@);
    }
}

// ---------------------------------------------------------------------------
// Importing found markers from the web storage
// ---------------------------------------------------------------------------

/// The `meta` key that records the import of found markers.
pub const FOUND_IMPORT_KEY: &'static str = "found_migrated_from_local_storage_v1";

/// The value stored under `FOUND_IMPORT_KEY`.
pub const FOUND_IMPORT_DONE: &'static str = "1";

/// One step of the import.
pub enum ImportStep {
    /// Replace the found set of one game map by the given ids.
    ReplaceFound(FoundImportEntry),
    /// Record in `meta` that the import happened.
    MarkImported,
}

/// The steps of importing found markers: nothing when the import already
/// happened; otherwise one replacement per entry, in order, then the record
/// that makes a repeated import a no-op.
pub open spec fn spec_found_import_plan(already_imported: bool, entries: Seq<FoundImportEntry>) -> Seq<
    ImportStep,
> {
    if already_imported {
        seq![]
    } else {
        entries.map_values(|e: FoundImportEntry| ImportStep::ReplaceFound(e)).push(
            ImportStep::MarkImported,
        )
    }
}

/// The game map an entry is for.
pub open spec fn entry_key(e: FoundImportEntry) -> (u32, u32) {
    (e.game_id, e.map_id)
}

/// What the import reads and writes in userdata.sqlite: whether the import
/// is recorded in `meta`, and the found location ids of each game map.
pub type ImportState = (bool, Map<(u32, u32), Set<i64>>);

/// One step applied to the tables: a replacement makes the entry's ids the
/// whole found set of its game map; the record marks the import as done.
pub open spec fn apply_import_step(state: ImportState, step: ImportStep) -> ImportState {
    match step {
        ImportStep::ReplaceFound(e) => (state.0, state.1.insert(entry_key(e), e.ids@.to_set())),
        ImportStep::MarkImported => (true, state.1),
    }
}

/// Steps applied one after the other.
pub open spec fn apply_import_steps(state: ImportState, steps: Seq<ImportStep>) -> ImportState
    decreases steps.len(),
{
    if steps.len() == 0 {
        state
    } else {
        apply_import_step(apply_import_steps(state, steps.drop_last()), steps.last())
    }
}

/// The found sets after each entry, in order, replaced the found set of its
/// game map.
pub open spec fn replace_found_sets(found: Map<(u32, u32), Set<i64>>, entries: Seq<FoundImportEntry>) -> Map<
    (u32, u32),
    Set<i64>,
>
    decreases entries.len(),
{
    if entries.len() == 0 {
        found
    } else {
        replace_found_sets(found, entries.drop_last()).insert(
            entry_key(entries.last()),
            entries.last().ids@.to_set(),
        )
    }
}

/// The position of the last entry for game map `k`, if any.
pub open spec fn last_entry_for(entries: Seq<FoundImportEntry>, k: (u32, u32)) -> Option<int>
    decreases entries.len(),
{
    if entries.len() == 0 {
        None
    } else if entry_key(entries.last()) == k {
        Some(entries.len() - 1)
    } else {
        last_entry_for(entries.drop_last(), k)
    }
}

/// `last_entry_for` finds the last entry for `k`, and `None` means no entry
/// is for `k`.
pub proof fn lemma_last_entry_for(entries: Seq<FoundImportEntry>, k: (u32, u32))
    ensures
        match last_entry_for(entries, k) {
            Some(i) => 0 <= i < entries.len() && entry_key(entries[i]) == k && forall|j: int|
                i < j < entries.len() ==> entry_key(#[trigger] entries[j]) != k,
            None => forall|j: int| 0 <= j < entries.len() ==> entry_key(#[trigger] entries[j]) != k,
        },
    decreases entries.len(),
{
    if entries.len() > 0 {
        lemma_last_entry_for(entries.drop_last(), k);
        if entry_key(entries.last()) != k {
            assert forall|j: int| 0 <= j < entries.len() - 1 implies #[trigger] entries[j]
                == entries.drop_last()[j] by {}
        }
    }
}

/// After the replacements, game map `k` holds the ids of its last entry, or
/// what it held before when no entry is for it.
proof fn lemma_replace_found_sets(
    found: Map<(u32, u32), Set<i64>>,
    entries: Seq<FoundImportEntry>,
    k: (u32, u32),
)
    ensures
        match last_entry_for(entries, k) {
            Some(i) => replace_found_sets(found, entries).dom().contains(k) && replace_found_sets(
                found,
                entries,
            )[k] == entries[i].ids@.to_set(),
            None => {
                &&& replace_found_sets(found, entries).dom().contains(k) == found.dom().contains(k)
                &&& found.dom().contains(k) ==> replace_found_sets(found, entries)[k] == found[k]
            },
        },
    decreases entries.len(),
{
    if entries.len() > 0 {
        lemma_replace_found_sets(found, entries.drop_last(), k);
        lemma_last_entry_for(entries.drop_last(), k);
        if entry_key(entries.last()) != k {
            match last_entry_for(entries.drop_last(), k) {
                Some(i) => {
                    assert(entries.drop_last()[i] == entries[i]);
                },
                None => {},
            }
        }
    }
}

/// Applying one replacement per entry is `replace_found_sets`, and leaves
/// the import record alone.
proof fn lemma_apply_replacements(state: ImportState, entries: Seq<FoundImportEntry>)
    ensures
        apply_import_steps(
            state,
            entries.map_values(|e: FoundImportEntry| ImportStep::ReplaceFound(e)),
        ) == (state.0, replace_found_sets(state.1, entries)),
    decreases entries.len(),
{
    let steps = entries.map_values(|e: FoundImportEntry| ImportStep::ReplaceFound(e));
    if entries.len() > 0 {
        lemma_apply_replacements(state, entries.drop_last());
        assert(steps.drop_last() =~= entries.drop_last().map_values(
            |e: FoundImportEntry| ImportStep::ReplaceFound(e),
        ));
        assert(steps.last() == ImportStep::ReplaceFound(entries.last()));
    }
}

/// Importing found markers: when the import is already recorded nothing
/// changes; otherwise each game map named by an entry ends with the ids of
/// its last entry, every other game map keeps its found set, and the import
/// is recorded, so a second import changes nothing. An import that stops
/// after some steps has applied the entries before them and has not
/// recorded the import.
pub proof fn law_found_import(
    state: ImportState,
    entries: Seq<FoundImportEntry>,
    again: Seq<FoundImportEntry>,
    k: (u32, u32),
    n: int,
)
    ensures
        ({
            let plan = spec_found_import_plan(state.0, entries);
            let after = apply_import_steps(state, plan);
            &&& state.0 ==> after == state
            &&& !state.0 ==> after.0
            &&& !state.0 ==> match last_entry_for(entries, k) {
                Some(i) => after.1.dom().contains(k) && after.1[k] == entries[i].ids@.to_set(),
                None => {
                    &&& after.1.dom().contains(k) == state.1.dom().contains(k)
                    &&& state.1.dom().contains(k) ==> after.1[k] == state.1[k]
                },
            }
            &&& apply_import_steps(after, spec_found_import_plan(after.0, again)) == after
            &&& !state.0 && 0 <= n <= entries.len() ==> apply_import_steps(state, plan.take(n)) == (
                false,
                replace_found_sets(state.1, entries.take(n)),
            )
        }),
{
    let plan = spec_found_import_plan(state.0, entries);
    if !state.0 {
        let steps = entries.map_values(|e: FoundImportEntry| ImportStep::ReplaceFound(e));
        lemma_apply_replacements(state, entries);
        assert(plan.drop_last() =~= steps);
        lemma_replace_found_sets(state.1, entries, k);
        if 0 <= n <= entries.len() {
            lemma_apply_replacements(state, entries.take(n));
            assert(plan.take(n) =~= entries.take(n).map_values(
                |e: FoundImportEntry| ImportStep::ReplaceFound(e),
            ));
        }
    }
}

/// The steps of importing found markers: nothing when the import already
/// happened; otherwise one replacement per entry, in order, then the record
/// that makes a repeated import a no-op.
pub fn plan_found_import(already_imported: bool, entries: Vec<FoundImportEntry>) -> (r: Vec<
    ImportStep,
>)
    ensures
        r@ == spec_found_import_plan(already_imported, entries@),
{
    let mut r: Vec<ImportStep> = Vec::new();
    if already_imported {
        assert(r@ =~= spec_found_import_plan(already_imported, entries@));
        return r;
    }
    let ghost orig = entries@;
    let mut rest = entries;
    while rest.len() > 0
        invariant
            r.len() + rest.len() == orig.len(),
            rest@ == orig.skip(r.len() as int),
            forall|i: int| 0 <= i < r.len() ==> #[trigger] r[i] == ImportStep::ReplaceFound(orig[i]),
        decreases rest.len(),
    {
        let e = rest.remove(0);
        proof {
            assert(e == orig[r.len() as int]);
            assert(rest@ =~= orig.skip(r.len() + 1));
        }
        r.push(ImportStep::ReplaceFound(e));
    }
    r.push(ImportStep::MarkImported);
    assert(r@ =~= spec_found_import_plan(already_imported, orig));
    r
}

} // verus!
