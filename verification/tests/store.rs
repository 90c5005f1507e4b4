use jejak_backend::catalog::{workout_templates, WorkoutTemplate};
use jejak_backend::document::{encode_phases, Json};
use jejak_backend::model::WorkoutPhase;
use jejak_backend::store::{StoreError, WorkoutRow, WorkoutStore};

fn phase(name: &str, duration_seconds: i32, bpm: i32) -> WorkoutPhase {
    WorkoutPhase { name: name.to_string(), duration_seconds, bpm }
}

fn row(id: u128, name: &str, order: i32) -> WorkoutRow {
    WorkoutRow {
        id,
        name: name.to_string(),
        total_duration_minutes: 30,
        description: format!("about {}", name),
        phases: encode_phases(&vec![phase("Warmup", 300, 160)]),
        order,
    }
}

fn template(id: u128, name: &str, order: i32) -> WorkoutTemplate {
    WorkoutTemplate {
        id,
        order,
        name: name.to_string(),
        total_duration_minutes: 30,
        description: format!("about {}", name),
        phases: vec![phase("Warmup", 300, 160), phase("Easy", 600, 168)],
    }
}

fn ids(store: &WorkoutStore) -> Vec<u128> {
    (0..store.len()).map(|i| store.row(i).id).collect()
}

fn names(store: &WorkoutStore) -> Vec<String> {
    (0..store.len()).map(|i| store.row(i).name.clone()).collect()
}

const IDS: [u128; 8] = [101, 102, 103, 104, 105, 106, 107, 108];

#[test]
fn a_new_store_is_empty() {
    assert_eq!(WorkoutStore::new().len(), 0);
}

#[test]
fn upsert_adds_a_row_for_a_new_identifier() {
    let mut store = WorkoutStore::new();
    assert_eq!(store.upsert(row(1, "one", 1)), Ok(()));
    assert_eq!(store.upsert(row(2, "two", 2)), Ok(()));
    assert_eq!(store.len(), 2);
    assert_eq!(store.row(0), &row(1, "one", 1));
    assert_eq!(store.row(1), &row(2, "two", 2));
}

#[test]
fn upsert_overwrites_every_field_of_a_stored_identifier() {
    let mut store = WorkoutStore::new();
    store.upsert(row(1, "one", 1)).unwrap();
    store.upsert(row(2, "two", 2)).unwrap();
    let outcome = store.upsert(WorkoutRow {
        id: 1,
        name: "uno".to_string(),
        total_duration_minutes: 45,
        description: "changed".to_string(),
        phases: Json::Null,
        order: 9,
    });
    assert_eq!(outcome, Ok(()));
    assert_eq!(store.len(), 2);
    assert_eq!(
        store.row(0),
        &WorkoutRow {
            id: 1,
            name: "uno".to_string(),
            total_duration_minutes: 45,
            description: "changed".to_string(),
            phases: Json::Null,
            order: 9,
        }
    );
    assert_eq!(store.row(1), &row(2, "two", 2));
}

#[test]
fn a_row_carries_every_field_of_its_template() {
    let stored = WorkoutRow::from_template(&template(7, "seven", 3));
    assert_eq!(
        stored,
        WorkoutRow {
            id: 7,
            name: "seven".to_string(),
            total_duration_minutes: 30,
            description: "about seven".to_string(),
            phases: encode_phases(&vec![phase("Warmup", 300, 160), phase("Easy", 600, 168)]),
            order: 3,
        }
    );
}

#[test]
fn seeding_stores_one_row_per_entry() {
    let mut store = WorkoutStore::new();
    let catalog = workout_templates(IDS);
    let written = store.seed(&catalog);
    assert_eq!(written, vec![true; 8]);
    assert_eq!(store.len(), 8);
    assert_eq!(ids(&store), IDS.to_vec());
    for (i, entry) in catalog.iter().enumerate() {
        assert_eq!(store.row(i), &WorkoutRow::from_template(entry));
    }
}

#[test]
fn seeding_twice_is_seeding_once() {
    let catalog = workout_templates(IDS);
    let mut once = WorkoutStore::new();
    once.seed(&catalog);
    let mut twice = WorkoutStore::new();
    twice.seed(&catalog);
    twice.seed(&catalog);
    assert_eq!(twice.len(), 8);
    assert_eq!(once.len(), twice.len());
    for i in 0..once.len() {
        assert_eq!(once.row(i), twice.row(i));
    }
}

#[test]
fn seeding_many_times_adds_nothing() {
    let catalog = workout_templates(IDS);
    let mut store = WorkoutStore::new();
    for _ in 0..5 {
        assert_eq!(store.seed(&catalog), vec![true; 8]);
        assert_eq!(store.len(), 8);
    }
}

#[test]
fn seeding_keeps_rows_that_the_catalog_does_not_name() {
    let mut store = WorkoutStore::new();
    store.upsert(row(1, "kept", 50)).unwrap();
    store.upsert(row(103, "stale", 51)).unwrap();
    store.seed(&workout_templates(IDS));
    assert_eq!(store.len(), 9);
    assert_eq!(store.row(0), &row(1, "kept", 50));
    assert_eq!(store.row(1).name, "Aerobic Steady");
    assert_eq!(store.row(1).order, 3);
}

#[test]
fn the_latest_definition_of_an_identifier_wins() {
    let mut store = WorkoutStore::new();
    store.seed(&vec![template(1, "old", 1), template(2, "other", 2), template(1, "new", 3)]);
    assert_eq!(store.len(), 2);
    assert_eq!(ids(&store), vec![1, 2]);
    assert_eq!(names(&store), vec!["new".to_string(), "other".to_string()]);
    assert_eq!(store.row(0).order, 3);
}

#[test]
fn reseeding_with_a_changed_catalog_updates_in_place() {
    let mut store = WorkoutStore::new();
    store.seed(&vec![template(1, "a", 1), template(2, "b", 2)]);
    store.seed(&vec![template(2, "b2", 5), template(3, "c", 3)]);
    assert_eq!(ids(&store), vec![1, 2, 3]);
    assert_eq!(names(&store), vec!["a".to_string(), "b2".to_string(), "c".to_string()]);
}

#[test]
fn seeding_nothing_changes_nothing() {
    let mut store = WorkoutStore::new();
    store.upsert(row(1, "one", 1)).unwrap();
    assert_eq!(store.seed(&vec![]), Vec::<bool>::new());
    assert_eq!(store.len(), 1);
    assert_eq!(store.row(0), &row(1, "one", 1));
}

#[test]
fn a_rank_that_another_workout_holds_is_refused() {
    let mut store = WorkoutStore::new();
    store.upsert(row(1, "one", 1)).unwrap();
    store.upsert(row(2, "two", 2)).unwrap();
    assert_eq!(store.upsert(row(3, "three", 2)), Err(StoreError::RankTaken));
    assert_eq!(store.upsert(row(1, "one moved", 2)), Err(StoreError::RankTaken));
    assert_eq!(store.len(), 2);
    assert_eq!(store.row(0), &row(1, "one", 1));
    assert_eq!(store.row(1), &row(2, "two", 2));
}

#[test]
fn a_workout_may_keep_or_change_its_own_rank() {
    let mut store = WorkoutStore::new();
    store.upsert(row(1, "one", 1)).unwrap();
    store.upsert(row(2, "two", 2)).unwrap();
    assert_eq!(store.upsert(row(2, "two again", 2)), Ok(()));
    assert_eq!(store.upsert(row(1, "one moved", 7)), Ok(()));
    assert_eq!(store.upsert(row(3, "three", 1)), Ok(()));
    assert_eq!(names(&store), vec!["one moved", "two again", "three"]);
}

#[test]
fn one_refused_entry_does_not_stop_the_rest() {
    let mut store = WorkoutStore::new();
    store.upsert(row(9, "holder", 2)).unwrap();
    let written = store.seed(&vec![
        template(1, "a", 1),
        template(2, "b", 2),
        template(3, "c", 3),
        template(4, "d", 3),
        template(5, "e", 5),
    ]);
    assert_eq!(written, vec![true, false, true, false, true]);
    assert_eq!(ids(&store), vec![9, 1, 3, 5]);
    assert_eq!(names(&store), vec!["holder", "a", "c", "e"]);
}

#[test]
fn seeding_the_catalog_again_under_new_identifiers_adds_nothing() {
    let mut store = WorkoutStore::new();
    assert_eq!(store.seed(&workout_templates(IDS)), vec![true; 8]);
    let other: [u128; 8] = [201, 202, 203, 204, 205, 206, 207, 208];
    assert_eq!(store.seed(&workout_templates(other)), vec![false; 8]);
    let mixed: [u128; 8] = [101, 202, 103, 104, 108, 106, 107, 105];
    assert_eq!(
        store.seed(&workout_templates(mixed)),
        vec![true, false, true, true, false, true, true, false]
    );
    assert_eq!(store.len(), 8);
    let catalog = workout_templates(IDS);
    for (i, entry) in catalog.iter().enumerate() {
        assert_eq!(store.row(i), &WorkoutRow::from_template(entry));
    }
}

#[test]
fn the_drawn_catalog_seeds_once() {
    let mut store = WorkoutStore::new();
    let first = jejak_backend::catalog::get_workout_templates();
    assert_eq!(store.seed(&first), vec![true; 8]);
    assert_eq!(store.seed(&jejak_backend::catalog::get_workout_templates()), vec![false; 8]);
    assert_eq!(store.seed(&first), vec![true; 8]);
    assert_eq!(store.len(), 8);
    for (i, entry) in first.iter().enumerate() {
        assert_eq!(store.row(i), &WorkoutRow::from_template(entry));
    }
}
