//! The decisions of single ships in the tutorials.
use vstd::prelude::*;

use crate::abilities::boost_active;
use crate::measure::{
    Measure, DEGREES_1, DEGREES_10, DEGREES_2, DEGREES_60, DEGREES_HALF, DEGREES_015,
    METERS_20, SECONDS_5,
};
use crate::tutorial_squadron::{run_towards, Run};

verus! {

/// The tutorials, by how precisely the gun has to be aimed.
#[derive(Clone, Copy, Debug, PartialEq, Eq, Structural)]
pub enum Lesson {
    Guns,
    Rotation,
    Lead,
    Tracking,
}

/// The angle below which a round is fired.
pub open spec fn tolerance_of(lesson: Lesson) -> Measure {
    match lesson {
        Lesson::Guns => DEGREES_1,
        Lesson::Rotation => DEGREES_HALF,
        Lesson::Lead => DEGREES_HALF,
        Lesson::Tracking => DEGREES_015,
    }
}

/// Whether the gun fires: it is ready, and off its aim by less than the lesson allows.
pub fn fires_gun(lesson: Lesson, reload: u32, angle: Measure) -> (fires: bool)
    ensures
        fires == (reload == 0 && angle < tolerance_of(lesson)),
{
    let tolerance: Measure = match lesson {
        Lesson::Guns => DEGREES_1,
        Lesson::Rotation => DEGREES_HALF,
        Lesson::Lead => DEGREES_HALF,
        Lesson::Tracking => DEGREES_015,
    };
    reload == 0 && angle < tolerance
}

/// Which thrust is used.
#[derive(Clone, Copy, Debug, PartialEq, Eq, Structural)]
pub enum ThrustMode {
    /// What goes with the boost.
    Boosted,
    /// What does without.
    Plain,
}

/// Whether the boost is switched on: with it the ship can accelerate to within 60 degrees of
/// its target.
pub fn switches_boost(angle: Measure) -> (on: bool)
    ensures
        on == (angle < DEGREES_60),
{
    angle < DEGREES_60
}

/// Which thrust is used, given the abilities that are active.
pub fn thrust_mode(abilities: u64) -> (mode: ThrustMode)
    ensures
        mode == (if abilities & 2 != 0 {
            ThrustMode::Boosted
        } else {
            ThrustMode::Plain
        }),
{
    if boost_active(abilities) {
        ThrustMode::Boosted
    } else {
        ThrustMode::Plain
    }
}

/// Whether a missile explodes: it is within 20 metres of its target, or will be in two ticks.
pub fn missile_explodes(distance: Measure, next_distance: Measure) -> (explode: bool)
    ensures
        explode == (distance < METERS_20 || next_distance < METERS_20),
{
    distance < METERS_20 || next_distance < METERS_20
}

/// Whether a missile is launched: the launcher is ready, and the nose is off the target by less
/// than ten degrees.
pub fn launches_missile(reload: u32, angle: Measure) -> (launch: bool)
    ensures
        launch == (reload == 0 && angle < DEGREES_10),
{
    reload == 0 && angle < DEGREES_10
}

/// How a ship moves in the search lesson. When a round would hit within five seconds, aiming
/// goes first: no boost, and ahead only when the nose is off by less than two degrees.
pub fn search_run(impact_time: Option<Measure>, angle: Measure) -> (run: Run)
    ensures
        run == (if impact_time is Some && impact_time->0 < SECONDS_5 {
            if angle < DEGREES_2 {
                Run::Ahead
            } else {
                Run::Brake
            }
        } else if angle < crate::measure::DEGREES_5 {
            Run::Boost
        } else if angle < crate::measure::DEGREES_15 {
            Run::Ahead
        } else {
            Run::Brake
        }),
{
    let close = match impact_time {
        Some(time) => time < SECONDS_5,
        None => false,
    };
    if close {
        if angle < DEGREES_2 {
            Run::Ahead
        } else {
            Run::Brake
        }
    } else {
        run_towards(angle)
    }
}

/// A later lesson never allows more than an earlier one: one degree in the first, half a degree
/// in the next two, 0.15 degrees in the last.
pub proof fn law_tolerances(lesson: Lesson)
    ensures
        tolerance_of(Lesson::Guns) == DEGREES_1,
        lesson != Lesson::Guns ==> tolerance_of(lesson) <= DEGREES_HALF,
        tolerance_of(lesson) < DEGREES_HALF <==> lesson == Lesson::Tracking,
        tolerance_of(lesson) >= DEGREES_015,
        tolerance_of(Lesson::Tracking) == DEGREES_015,
{
}

} // verus!
