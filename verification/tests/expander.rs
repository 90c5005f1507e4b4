use jejak_backend::expander::{compose, expand, m, repeat, s, IntervalBlock};
use jejak_backend::label::render_repetition_label;
use jejak_backend::model::WorkoutPhase;

fn phase(name: &str, duration_seconds: i32, bpm: i32) -> WorkoutPhase {
    WorkoutPhase { name: name.to_string(), duration_seconds, bpm }
}

#[test]
fn hard_easy_ten_times() {
    let expanded = repeat(10, vec![phase("Hard", 60, 186), phase("Easy", 60, 168)]);
    assert_eq!(expanded.len(), 20);
    assert_eq!(expanded[0], phase("Hard (1/10)", 60, 186));
    assert_eq!(expanded[1], phase("Easy (1/10)", 60, 168));
    assert_eq!(expanded[2], phase("Hard (2/10)", 60, 186));
    assert_eq!(expanded[17], phase("Easy (9/10)", 60, 168));
    assert_eq!(expanded[18], phase("Hard (10/10)", 60, 186));
    assert_eq!(expanded[19], phase("Easy (10/10)", 60, 168));
}

#[test]
fn expansion_has_blocks_times_count_phases() {
    let blocks = vec![phase("A", 10, 100), phase("B", 20, 110), phase("C", 30, 120)];
    for count in 0..7 {
        let expanded = expand(count, &blocks);
        assert_eq!(expanded.len(), 3 * count as usize);
        for (k, got) in expanded.iter().enumerate() {
            let source = &blocks[k % 3];
            assert_eq!(got.duration_seconds, source.duration_seconds);
            assert_eq!(got.bpm, source.bpm);
            assert_eq!(got.name, format!("{} ({}/{})", source.name, k / 3 + 1, count));
        }
    }
}

#[test]
fn expansion_is_repetition_major() {
    let expanded = repeat(3, vec![phase("Tempo", 360, 180), phase("Easy", 120, 168)]);
    let names: Vec<&str> = expanded.iter().map(|p| p.name.as_str()).collect();
    assert_eq!(
        names,
        vec![
            "Tempo (1/3)",
            "Easy (1/3)",
            "Tempo (2/3)",
            "Easy (2/3)",
            "Tempo (3/3)",
            "Easy (3/3)"
        ]
    );
}

#[test]
fn expanding_twice_gives_the_same_sequence() {
    let first = repeat(12, vec![phase("Fast", 20, 190), phase("Easy", 70, 168)]);
    let second = repeat(12, vec![phase("Fast", 20, 190), phase("Easy", 70, 168)]);
    assert_eq!(first, second);
    let first_bytes: Vec<Vec<u8>> = first.iter().map(|p| p.name.as_bytes().to_vec()).collect();
    let second_bytes: Vec<Vec<u8>> = second.iter().map(|p| p.name.as_bytes().to_vec()).collect();
    assert_eq!(first_bytes, second_bytes);
}

#[test]
fn count_below_one_gives_nothing() {
    assert_eq!(repeat(0, vec![phase("Hard", 60, 186)]), vec![]);
    assert_eq!(repeat(-3, vec![phase("Hard", 60, 186)]), vec![]);
}

#[test]
fn no_blocks_give_nothing() {
    assert_eq!(repeat(5, vec![]), vec![]);
}

#[test]
fn one_repetition_is_labelled_too() {
    assert_eq!(repeat(1, vec![phase("Easy", 600, 168)]), vec![phase("Easy (1/1)", 600, 168)]);
}

#[test]
fn names_that_repeat_stay_apart_by_their_suffix() {
    let expanded = repeat(2, vec![phase("Up", 90, 184), phase("Up", 90, 184)]);
    assert_eq!(expanded[0].name, "Up (1/2)");
    assert_eq!(expanded[1].name, "Up (1/2)");
    assert_eq!(expanded[2].name, "Up (2/2)");
}

#[test]
fn labels_are_written_in_decimal() {
    assert_eq!(render_repetition_label("Hard", 1, 10), "Hard (1/10)");
    assert_eq!(render_repetition_label("Hard", 10, 10), "Hard (10/10)");
    assert_eq!(render_repetition_label("", 0, 0), " (0/0)");
    assert_eq!(render_repetition_label("Tempo run", 107, 2050), "Tempo run (107/2050)");
    assert_eq!(
        render_repetition_label("x", i32::MAX, i32::MIN),
        "x (2147483647/-2147483648)"
    );
    assert_eq!(render_repetition_label("x", -7, -120), "x (-7/-120)");
}

#[test]
fn labels_match_the_standard_formatting() {
    for value in [0, 1, 9, 10, 11, 99, 100, 101, 999, 1000, 65535, 1_000_000, i32::MAX, -1, -10, i32::MIN] {
        assert_eq!(
            render_repetition_label("n", value, value),
            format!("n ({}/{})", value, value)
        );
    }
}

#[test]
fn minutes_and_seconds() {
    assert_eq!(m(0), 0);
    assert_eq!(m(1), 60);
    assert_eq!(m(12), 720);
    assert_eq!(m(46), 2760);
    assert_eq!(m(-2), -120);
    assert_eq!(s(90), 90);
    assert_eq!(s(0), 0);
}

#[test]
fn composed_workout_is_warmup_blocks_cooldown() {
    let phases = compose(
        Some(phase("Warmup", 720, 162)),
        vec![IntervalBlock {
            count: 3,
            phases: vec![phase("Tempo", 360, 180), phase("Easy", 120, 168)],
        }],
        Some(phase("Cooldown", 480, 156)),
    );
    assert_eq!(
        phases,
        vec![
            phase("Warmup", 720, 162),
            phase("Tempo (1/3)", 360, 180),
            phase("Easy (1/3)", 120, 168),
            phase("Tempo (2/3)", 360, 180),
            phase("Easy (2/3)", 120, 168),
            phase("Tempo (3/3)", 360, 180),
            phase("Easy (3/3)", 120, 168),
            phase("Cooldown", 480, 156),
        ]
    );
}

#[test]
fn composition_takes_several_blocks_in_order() {
    let phases = compose(
        None,
        vec![
            IntervalBlock { count: 2, phases: vec![phase("A", 1, 2)] },
            IntervalBlock { count: 0, phases: vec![phase("skipped", 1, 2)] },
            IntervalBlock { count: 1, phases: vec![phase("B", 3, 4), phase("C", 5, 6)] },
        ],
        None,
    );
    assert_eq!(
        phases,
        vec![phase("A (1/2)", 1, 2), phase("A (2/2)", 1, 2), phase("B (1/1)", 3, 4), phase("C (1/1)", 5, 6)]
    );
}

#[test]
fn composition_of_nothing_is_empty() {
    assert_eq!(compose(None, vec![], None), vec![]);
    assert_eq!(
        compose(Some(phase("Warmup", 300, 160)), vec![], Some(phase("Cooldown", 300, 156))),
        vec![phase("Warmup", 300, 160), phase("Cooldown", 300, 156)]
    );
}
