//! The data model: a timed phase, and the shapes in which a workout is
//! held and handed out.

use vstd::prelude::*;

verus! {

/// One timed segment of a workout. A phase has no identity of its own:
/// it is known by its position in the sequence that owns it.
#[derive(Debug, PartialEq, Eq)]
pub struct WorkoutPhase {
    /// Display label; may repeat within one sequence.
    pub name: String,
    /// Length of the phase in seconds.
    pub duration_seconds: i32,
    /// Target cadence in beats per minute.
    pub bpm: i32,
}

/// What a [`WorkoutPhase`] is, mathematically.
pub struct PhaseView {
    pub name: Seq<char>,
    pub duration_seconds: i32,
    pub bpm: i32,
}

impl DeepView for WorkoutPhase {
    type V = PhaseView;

    open spec fn deep_view(&self) -> PhaseView {
        PhaseView {
            name: self.name@,
            duration_seconds: self.duration_seconds,
            bpm: self.bpm,
        }
    }
}

impl Clone for WorkoutPhase {
    fn clone(&self) -> (copy: Self)
        ensures
            copy == *self,
    {
        WorkoutPhase {
            name: self.name.clone(),
            duration_seconds: self.duration_seconds,
            bpm: self.bpm,
        }
    }
}

impl WorkoutPhase {
    /// Builds a phase from a label, a length in seconds and a cadence.
    pub fn new(name: &str, duration_seconds: i32, bpm: i32) -> (phase: WorkoutPhase)
        ensures
            phase.deep_view() == (PhaseView {
                name: name@,
                duration_seconds,
                bpm,
            }),
    {
        WorkoutPhase { name: name.to_owned(), duration_seconds, bpm }
    }
}

/// A workout as the table holds it, with the times at which its row was
/// written. Times are microseconds since the Unix epoch, in UTC.
#[derive(Debug, Clone, PartialEq, Eq)]
pub struct Workout {
    pub id: String,
    pub name: String,
    pub total_duration_minutes: i32,
    pub description: String,
    pub phases: Vec<WorkoutPhase>,
    pub created_at: Option<i64>,
    pub updated_at: Option<i64>,
}

/// A workout as it is handed to a client.
#[derive(Debug, PartialEq, Eq)]
pub struct WorkoutResponse {
    /// The identifier in its hyphenated text form.
    pub id: String,
    pub name: String,
    pub total_duration_minutes: i32,
    pub description: String,
    /// Display rank.
    pub order: i32,
    /// The phases in execution order.
    pub phases: Vec<WorkoutPhase>,
}

/// What a [`WorkoutResponse`] is, mathematically.
pub struct ResponseView {
    pub id: Seq<char>,
    pub name: Seq<char>,
    pub total_duration_minutes: i32,
    pub description: Seq<char>,
    pub order: i32,
    pub phases: Seq<PhaseView>,
}

impl DeepView for WorkoutResponse {
    type V = ResponseView;

    open spec fn deep_view(&self) -> ResponseView {
        ResponseView {
            id: self.id@,
            name: self.name@,
            total_duration_minutes: self.total_duration_minutes,
            description: self.description@,
            order: self.order,
            phases: self.phases.deep_view(),
        }
    }
}

} // verus!
