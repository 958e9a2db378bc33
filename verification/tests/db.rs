use cta_collectthemall::db::{
    plan_found_import, schema_migration_batches, schema_recovery_batches, ROLLBACK_BATCH, tiles_migration_batches, ImportStep, BEGIN_BATCH, SCHEMA_V1,
    SCHEMA_V2, SCHEMA_V3, TILES_SCHEMA_V1,
};
use cta_collectthemall::models::FoundImportEntry;
use std::collections::{BTreeSet, HashMap};

#[test]
fn fresh_database_runs_every_migration() {
    let b = schema_migration_batches(0);
    assert_eq!(b, vec![BEGIN_BATCH, SCHEMA_V1, SCHEMA_V2, SCHEMA_V3, "PRAGMA user_version = 3; COMMIT;"]);
}

#[test]
fn partial_database_runs_newer_migrations() {
    assert_eq!(schema_migration_batches(1), vec![BEGIN_BATCH, SCHEMA_V2, SCHEMA_V3, "PRAGMA user_version = 3; COMMIT;"]);
    assert_eq!(schema_migration_batches(2), vec![BEGIN_BATCH, SCHEMA_V3, "PRAGMA user_version = 3; COMMIT;"]);
}

#[test]
fn current_database_needs_nothing() {
    assert!(schema_migration_batches(3).is_empty());
    assert!(schema_migration_batches(99).is_empty());
}

#[test]
fn tiles_database_migration() {
    assert_eq!(tiles_migration_batches(0), vec![TILES_SCHEMA_V1]);
    assert!(tiles_migration_batches(1).is_empty());
    assert!(TILES_SCHEMA_V1.contains("PRIMARY KEY (game_id, map_id, z, x, y)"));
}

#[test]
fn schema_text() {
    assert!(SCHEMA_V1.contains("CREATE TABLE IF NOT EXISTS found_markers"));
    assert!(SCHEMA_V2.contains("idx_custom_markers_map"));
    assert!(SCHEMA_V3.contains("CREATE TABLE IF NOT EXISTS meta"));
}

#[test]
fn import_runs_once() {
    let entries = || {
        vec![
            FoundImportEntry { game_id: 1, map_id: 2, ids: vec![5, 6] },
            FoundImportEntry { game_id: 1, map_id: 3, ids: vec![] },
        ]
    };
    let steps = plan_found_import(false, entries());
    assert_eq!(steps.len(), 3);
    match &steps[0] {
        ImportStep::ReplaceFound(e) => assert_eq!((e.game_id, e.map_id, e.ids.clone()), (1, 2, vec![5, 6])),
        ImportStep::MarkImported => panic!("expected a replacement"),
    }
    match &steps[1] {
        ImportStep::ReplaceFound(e) => assert_eq!((e.map_id, e.ids.len()), (3, 0)),
        ImportStep::MarkImported => panic!("expected a replacement"),
    }
    assert!(matches!(steps[2], ImportStep::MarkImported));
    assert!(plan_found_import(true, entries()).is_empty());
}

#[test]
fn import_of_nothing_still_records_it() {
    let steps = plan_found_import(false, vec![]);
    assert_eq!(steps.len(), 1);
    assert!(matches!(steps[0], ImportStep::MarkImported));
}

#[test]
fn failed_begin_needs_no_rollback() {
    assert!(schema_recovery_batches(0).is_empty());
}

#[test]
fn failure_inside_the_transaction_rolls_back() {
    assert_eq!(schema_recovery_batches(1), vec![ROLLBACK_BATCH]);
    assert_eq!(schema_recovery_batches(4), vec!["ROLLBACK;"]);
}

#[test]
fn import_replays_to_last_entry_per_map_and_only_once() {
    let entries = vec![
        FoundImportEntry { game_id: 1, map_id: 2, ids: vec![5, 6] },
        FoundImportEntry { game_id: 1, map_id: 3, ids: vec![9] },
        FoundImportEntry { game_id: 1, map_id: 2, ids: vec![7, 7] },
    ];
    let mut found: HashMap<(u32, u32), BTreeSet<i64>> = HashMap::new();
    found.insert((4, 4), [1].into_iter().collect());
    let mut imported = false;
    for step in plan_found_import(imported, entries) {
        match step {
            ImportStep::ReplaceFound(e) => {
                found.insert((e.game_id, e.map_id), e.ids.into_iter().collect());
            }
            ImportStep::MarkImported => imported = true,
        }
    }
    assert!(imported);
    assert_eq!(found[&(1, 2)], [7].into_iter().collect());
    assert_eq!(found[&(1, 3)], [9].into_iter().collect());
    assert_eq!(found[&(4, 4)], [1].into_iter().collect());
    let again = vec![FoundImportEntry { game_id: 1, map_id: 2, ids: vec![] }];
    assert!(plan_found_import(imported, again).is_empty());
}
