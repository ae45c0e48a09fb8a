//! A workout plan for one day, made from how hard the day should be and a
//! random draw. The costly part of the plan goes through a cache, so that
//! it is computed once however often the plan needs it.

use crate::cacher::Cacher;
use vstd::prelude::*;

verus! {

/// Below this intensity the day is for strength exercises.
pub const LOW_INTENSITY_LIMIT: u32 = 25;

/// The draw on which a day of high intensity becomes a day of rest.
pub const REST_DRAW: u32 = 3;

/// What to do on one day.
#[derive(Clone, Copy, Debug, PartialEq, Eq)]
pub enum Workout {
    /// Pushups first, situps next.
    Strength { pushups: u32, situps: u32 },
    /// A break.
    Rest,
    /// A run of so many minutes.
    Run { minutes: u32 },
}

/// Whether `plan` is a plan for a day of the given intensity and draw, with
/// `calculation` as the costly computation: strength exercises on a day of
/// low intensity, both counts being one result of the computation on the
/// intensity; on another day a break if the draw says so, else a run whose
/// length is a result of the computation on the intensity.
pub open spec fn is_plan_for<T: Fn(u32) -> u32>(
    calculation: T,
    intensity: u32,
    random_number: u32,
    plan: Workout,
) -> bool {
    match plan {
        Workout::Strength { pushups, situps } => {
            &&& intensity < LOW_INTENSITY_LIMIT
            &&& calculation.ensures((intensity,), pushups)
            &&& situps == pushups
        },
        Workout::Rest => intensity >= LOW_INTENSITY_LIMIT && random_number == REST_DRAW,
        Workout::Run { minutes } => {
            &&& intensity >= LOW_INTENSITY_LIMIT
            &&& random_number != REST_DRAW
            &&& calculation.ensures((intensity,), minutes)
        },
    }
}

/// The plan for a day. The computation must accept the intensity on every
/// day that is not a day of rest.
pub fn generate_workout<T: Fn(u32) -> u32>(
    calculation: T,
    intensity: u32,
    random_number: u32,
) -> (plan: Workout)
    requires
        intensity < LOW_INTENSITY_LIMIT || random_number != REST_DRAW ==> calculation.requires(
            (intensity,),
        ),
    ensures
        is_plan_for(calculation, intensity, random_number, plan),
{
    let mut expensive_result = Cacher::new(calculation);
    if intensity < LOW_INTENSITY_LIMIT {
        let pushups = expensive_result.value(intensity);
        let situps = expensive_result.value(intensity);
        Workout::Strength { pushups, situps }
    } else if random_number == REST_DRAW {
        Workout::Rest
    } else {
        Workout::Run { minutes: expensive_result.value(intensity) }
    }
}

} // verus!
