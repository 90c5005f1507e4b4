use jejak_backend::catalog::{get_workout_templates, workout_templates, WorkoutTemplate};
use jejak_backend::document::Json;
use jejak_backend::model::{WorkoutPhase, WorkoutResponse};
use jejak_backend::repository::WorkoutRepository;
use jejak_backend::store::{WorkoutRow, WorkoutStore};

fn phase(name: &str, duration_seconds: i32, bpm: i32) -> WorkoutPhase {
    WorkoutPhase { name: name.to_string(), duration_seconds, bpm }
}

fn template(id: u128, name: &str, order: i32) -> WorkoutTemplate {
    WorkoutTemplate {
        id,
        order,
        name: name.to_string(),
        total_duration_minutes: 30,
        description: format!("about {}", name),
        phases: vec![phase("Warmup", 300, 160), phase("Easy", 600, 168)],
    }
}

const FIRST: u128 = 0x01890a5d_ac96_774b_bcce_b302099a8057;
const SECOND: u128 = 0xa1a2a3a4_b1b2_c1c2_d1d2_d3d4d5d6d7d8;

const IDS: [u128; 8] = [
    0x0190_0000_0000_7000_8000_000000000008,
    0x0190_0000_0000_7000_8000_000000000007,
    0x0190_0000_0000_7000_8000_000000000006,
    0x0190_0000_0000_7000_8000_000000000005,
    0x0190_0000_0000_7000_8000_000000000004,
    0x0190_0000_0000_7000_8000_000000000003,
    0x0190_0000_0000_7000_8000_000000000002,
    0x0190_0000_0000_7000_8000_000000000001,
];

#[test]
fn identifiers_are_written_hyphenated_in_lower_case() {
    let workout = WorkoutResponse::from_row(&WorkoutRow::from_template(&template(FIRST, "x", 1)));
    assert_eq!(workout.id, "01890a5d-ac96-774b-bcce-b302099a8057");
    let workout = WorkoutResponse::from_row(&WorkoutRow::from_template(&template(SECOND, "x", 1)));
    assert_eq!(workout.id, "a1a2a3a4-b1b2-c1c2-d1d2-d3d4d5d6d7d8");
    let workout = WorkoutResponse::from_row(&WorkoutRow::from_template(&template(0, "x", 1)));
    assert_eq!(workout.id, "00000000-0000-0000-0000-000000000000");
    let workout = WorkoutResponse::from_row(&WorkoutRow::from_template(&template(u128::MAX, "x", 1)));
    assert_eq!(workout.id, "ffffffff-ffff-ffff-ffff-ffffffffffff");
    let workout = WorkoutResponse::from_row(&WorkoutRow::from_template(&template(0xabcdef, "x", 1)));
    assert_eq!(workout.id, "00000000-0000-0000-0000-000000abcdef");
}

#[test]
fn a_row_is_handed_out_with_its_phases_read_back() {
    let entry = template(FIRST, "one", 4);
    let workout = WorkoutResponse::from_row(&WorkoutRow::from_template(&entry));
    assert_eq!(
        workout,
        WorkoutResponse {
            id: "01890a5d-ac96-774b-bcce-b302099a8057".to_string(),
            name: "one".to_string(),
            total_duration_minutes: 30,
            description: "about one".to_string(),
            order: 4,
            phases: vec![phase("Warmup", 300, 160), phase("Easy", 600, 168)],
        }
    );
}

#[test]
fn a_malformed_phase_document_is_read_as_no_phases() {
    let stored = WorkoutRow {
        id: FIRST,
        name: "broken".to_string(),
        total_duration_minutes: 10,
        description: "d".to_string(),
        phases: Json::Text("not a document".to_string()),
        order: 1,
    };
    let workout = WorkoutResponse::from_row(&stored);
    assert_eq!(workout.phases, vec![]);
    assert_eq!(workout.name, "broken");

    let mut store = WorkoutStore::new();
    store.upsert(stored).unwrap();
    let listed = WorkoutRepository::find_all(&store);
    assert_eq!(listed.len(), 1);
    assert_eq!(listed[0].phases, vec![]);
    let found = WorkoutRepository::find_by_id(&store, "01890a5d-ac96-774b-bcce-b302099a8057");
    assert_eq!(found.map(|w| w.phases), Some(vec![]));
}

#[test]
fn list_is_in_rank_order_whatever_the_seeding_order() {
    let catalog = workout_templates(IDS);
    let mut shuffled: Vec<WorkoutTemplate> = Vec::new();
    for index in [5usize, 2, 7, 0, 3, 6, 1, 4] {
        let entry = &catalog[index];
        shuffled.push(WorkoutTemplate {
            id: entry.id,
            order: entry.order,
            name: entry.name.clone(),
            total_duration_minutes: entry.total_duration_minutes,
            description: entry.description.clone(),
            phases: entry.phases.clone(),
        });
    }
    let mut store = WorkoutStore::new();
    store.seed(&shuffled);
    let listed = WorkoutRepository::find_all(&store);
    let orders: Vec<i32> = listed.iter().map(|w| w.order).collect();
    assert_eq!(orders, vec![1, 2, 3, 4, 5, 6, 7, 8]);
    let names: Vec<&str> = listed.iter().map(|w| w.name.as_str()).collect();
    assert_eq!(
        names,
        vec![
            "Recovery",
            "Easy Run (short)",
            "Aerobic Steady",
            "Long Easy",
            "Tempo Blocks",
            "1:00 Intervals",
            "Hill Simulation",
            "Strides"
        ]
    );
}

#[test]
fn list_does_not_go_by_identifier_or_by_insertion() {
    let mut store = WorkoutStore::new();
    store.upsert(WorkoutRow::from_template(&template(1, "id low, rank high", 30))).unwrap();
    store.upsert(WorkoutRow::from_template(&template(3, "id high, rank low", 10))).unwrap();
    store.upsert(WorkoutRow::from_template(&template(2, "middle", 20))).unwrap();
    let names: Vec<String> = WorkoutRepository::find_all(&store).into_iter().map(|w| w.name).collect();
    assert_eq!(names, vec!["id high, rank low", "middle", "id low, rank high"]);
}

#[test]
fn list_of_a_seeded_catalog_is_one_to_eight() {
    let mut store = WorkoutStore::new();
    store.seed(&get_workout_templates());
    store.seed(&workout_templates(IDS));
    store.seed(&get_workout_templates());
    let listed = WorkoutRepository::find_all(&store);
    let orders: Vec<i32> = listed.iter().map(|w| w.order).collect();
    assert_eq!(orders, vec![1, 2, 3, 4, 5, 6, 7, 8]);
}

#[test]
fn list_handles_negative_and_extreme_ranks() {
    let mut store = WorkoutStore::new();
    store.upsert(WorkoutRow::from_template(&template(1, "max", i32::MAX))).unwrap();
    store.upsert(WorkoutRow::from_template(&template(2, "zero", 0))).unwrap();
    store.upsert(WorkoutRow::from_template(&template(3, "min", i32::MIN))).unwrap();
    store.upsert(WorkoutRow::from_template(&template(4, "minus one", -1))).unwrap();
    let names: Vec<String> = WorkoutRepository::find_all(&store).into_iter().map(|w| w.name).collect();
    assert_eq!(names, vec!["min", "minus one", "zero", "max"]);
}

#[test]
fn list_of_an_empty_store_is_empty() {
    assert_eq!(WorkoutRepository::find_all(&WorkoutStore::new()), vec![]);
}

#[test]
fn list_leaves_the_store_as_it_was() {
    let mut store = WorkoutStore::new();
    store.seed(&workout_templates(IDS));
    let before: Vec<u128> = (0..store.len()).map(|i| store.row(i).id).collect();
    let _ = WorkoutRepository::find_all(&store);
    let _ = WorkoutRepository::find_by_id(&store, "nothing");
    let after: Vec<u128> = (0..store.len()).map(|i| store.row(i).id).collect();
    assert_eq!(before, after);
    assert_eq!(before, IDS.to_vec());
}

#[test]
fn a_stored_workout_is_found_by_its_identifier() {
    let mut store = WorkoutStore::new();
    store.seed(&vec![template(FIRST, "first", 2), template(SECOND, "second", 1)]);
    let found = WorkoutRepository::find_by_id(&store, "a1a2a3a4-b1b2-c1c2-d1d2-d3d4d5d6d7d8");
    assert_eq!(
        found,
        Some(WorkoutResponse {
            id: "a1a2a3a4-b1b2-c1c2-d1d2-d3d4d5d6d7d8".to_string(),
            name: "second".to_string(),
            total_duration_minutes: 30,
            description: "about second".to_string(),
            order: 1,
            phases: vec![phase("Warmup", 300, 160), phase("Easy", 600, 168)],
        })
    );
    let found = WorkoutRepository::find_by_id(&store, "01890a5d-ac96-774b-bcce-b302099a8057");
    assert_eq!(found.map(|w| w.name), Some("first".to_string()));
}

#[test]
fn an_unknown_identifier_is_not_found() {
    let mut store = WorkoutStore::new();
    store.seed(&vec![template(FIRST, "first", 2)]);
    for id in [
        "",
        "nope",
        "01890a5d-ac96-774b-bcce-b302099a8058",
        "01890A5D-AC96-774B-BCCE-B302099A8057",
        "01890a5dac96774bbcceb302099a8057",
        " 01890a5d-ac96-774b-bcce-b302099a8057",
        "a1a2a3a4-b1b2-c1c2-d1d2-d3d4d5d6d7d8",
    ] {
        assert_eq!(WorkoutRepository::find_by_id(&store, id), None, "{:?}", id);
    }
    assert_eq!(
        WorkoutRepository::find_by_id(&WorkoutStore::new(), "01890a5d-ac96-774b-bcce-b302099a8057"),
        None
    );
}

#[test]
fn every_catalog_entry_comes_back_with_its_phases_in_order() {
    let catalog = get_workout_templates();
    let mut store = WorkoutStore::new();
    store.seed(&catalog);
    let listed = WorkoutRepository::find_all(&store);
    assert_eq!(listed.len(), catalog.len());
    for (entry, workout) in catalog.iter().zip(listed.iter()) {
        let text = uuid::Uuid::from_u128(entry.id).to_string();
        assert_eq!(workout.id, text);
        assert_eq!(workout.phases, entry.phases);
        let found = WorkoutRepository::find_by_id(&store, &text).unwrap();
        assert_eq!(found.phases, entry.phases);
        assert_eq!(found.name, entry.name);
        assert_eq!(found.order, entry.order);
        assert_eq!(found.description, entry.description);
        assert_eq!(found.total_duration_minutes, entry.total_duration_minutes);
    }
}

#[test]
fn identifier_text_agrees_with_the_uuid_crate() {
    for id in [0u128, 1, FIRST, SECOND, u128::MAX, 1 << 127, 0x0123_4567_89ab_cdef_0123_4567_89ab_cdef] {
        let workout = WorkoutResponse::from_row(&WorkoutRow::from_template(&template(id, "x", 1)));
        assert_eq!(workout.id, uuid::Uuid::from_u128(id).hyphenated().to_string());
        assert_eq!(uuid::Uuid::parse_str(&workout.id).unwrap().as_u128(), id);
    }
}
