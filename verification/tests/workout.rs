use cacher::workout::{LOW_INTENSITY_LIMIT, REST_DRAW};
use cacher::{generate_workout, Workout};
use std::cell::Cell;

#[test]
fn low_intensity_gives_strength_exercises() {
    let plan = generate_workout(|num| num, 10, 7);
    assert_eq!(plan, Workout::Strength { pushups: 10, situps: 10 });
}

#[test]
fn low_intensity_computes_once_for_both_exercises() {
    let calls = Cell::new(0u32);
    let plan = generate_workout(
        |num| {
            calls.set(calls.get() + 1);
            num * 2 + calls.get()
        },
        12,
        3,
    );
    assert_eq!(plan, Workout::Strength { pushups: 25, situps: 25 });
    assert_eq!(calls.get(), 1);
}

#[test]
fn high_intensity_with_the_rest_draw_is_a_break() {
    let calls = Cell::new(0u32);
    let plan = generate_workout(
        |num| {
            calls.set(calls.get() + 1);
            num
        },
        40,
        3,
    );
    assert_eq!(plan, Workout::Rest);
    assert_eq!(calls.get(), 0);
}

#[test]
fn high_intensity_with_another_draw_is_a_run() {
    let calls = Cell::new(0u32);
    let plan = generate_workout(
        |num| {
            calls.set(calls.get() + 1);
            num + 5
        },
        40,
        7,
    );
    assert_eq!(plan, Workout::Run { minutes: 45 });
    assert_eq!(calls.get(), 1);
}

#[test]
fn the_limit_itself_is_high_intensity() {
    assert_eq!(LOW_INTENSITY_LIMIT, 25);
    assert_eq!(REST_DRAW, 3);
    assert_eq!(generate_workout(|num| num, 24, 3), Workout::Strength { pushups: 24, situps: 24 });
    assert_eq!(generate_workout(|num| num, 25, 3), Workout::Rest);
    assert_eq!(generate_workout(|num| num, 25, 2), Workout::Run { minutes: 25 });
    assert_eq!(generate_workout(|num| num, 25, 4), Workout::Run { minutes: 25 });
}

#[test]
fn extreme_intensities() {
    assert_eq!(generate_workout(|num| num, 0, 0), Workout::Strength { pushups: 0, situps: 0 });
    assert_eq!(generate_workout(|num| num, u32::MAX, 0), Workout::Run { minutes: u32::MAX });
    assert_eq!(generate_workout(|num| num, u32::MAX, 3), Workout::Rest);
}
