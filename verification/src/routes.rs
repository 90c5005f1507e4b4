//! The query surface: what is answered to "list the workouts" and to
//! "get the workout with this identifier", as a status and a JSON body.

use crate::document::{encode_phases, encoded_phases, Json, JsonView, Member, MemberView};
use crate::model::{ResponseView, WorkoutResponse};
use crate::repository::{listing, lookup, WorkoutRepository};
use crate::store::WorkoutStore;
use vstd::prelude::*;

verus! {

/// An answer: an HTTP status code and a JSON body.
#[derive(Debug, PartialEq, Eq)]
pub struct Reply {
    pub status: u16,
    pub body: Json,
}

/// What a [`Reply`] is, mathematically.
pub struct ReplyView {
    pub status: u16,
    pub body: JsonView,
}

impl DeepView for Reply {
    type V = ReplyView;

    open spec fn deep_view(&self) -> ReplyView {
        ReplyView { status: self.status, body: self.body.deep_view() }
    }
}

/// A workout on the wire: the members `id`, `name`,
/// `totalDurationMinutes`, `description`, `order` and `phases`, the
/// phases as an array of `{name, durationSeconds, bpm}`.
pub open spec fn wire_workout(workout: ResponseView) -> JsonView {
    JsonView::Object(
        seq![
            MemberView { key: "id"@, value: JsonView::Text(workout.id) },
            MemberView { key: "name"@, value: JsonView::Text(workout.name) },
            MemberView {
                key: "totalDurationMinutes"@,
                value: JsonView::Integer(workout.total_duration_minutes as int),
            },
            MemberView { key: "description"@, value: JsonView::Text(workout.description) },
            MemberView { key: "order"@, value: JsonView::Integer(workout.order as int) },
            MemberView { key: "phases"@, value: encoded_phases(workout.phases) },
        ],
    )
}

/// A list of workouts on the wire: an array, in the list's order.
pub open spec fn wire_workouts(list: Seq<ResponseView>) -> JsonView {
    JsonView::Array(Seq::new(list.len(), |i: int| wire_workout(list[i])))
}

/// The body that says that no workout has the identifier asked for.
pub open spec fn not_found_body() -> JsonView {
    JsonView::Object(
        seq![MemberView { key: "error"@, value: JsonView::Text("Workout not found"@) }],
    )
}

/// The answer to a lookup: the workout with status 200, or status 404
/// with the not-found body.
pub open spec fn lookup_answer(found: Option<ResponseView>) -> ReplyView {
    match found {
        Some(workout) => ReplyView { status: 200, body: wire_workout(workout) },
        None => ReplyView { status: 404, body: not_found_body() },
    }
}

/// The body of a health check.
pub open spec fn health_body() -> JsonView {
    JsonView::Object(seq![MemberView { key: "status"@, value: JsonView::Text("ok"@) }])
}

impl WorkoutResponse {
    /// Writes the workout in its wire form.
    pub fn to_json(&self) -> (json: Json)
        ensures
            json.deep_view() == wire_workout(self.deep_view()),
    {
        let mut members: Vec<Member> = Vec::new();
        members.push(Member::new("id", Json::Text(self.id.clone())));
        members.push(Member::new("name", Json::Text(self.name.clone())));
        members.push(
            Member::new("totalDurationMinutes", Json::Integer(self.total_duration_minutes as i128)),
        );
        members.push(Member::new("description", Json::Text(self.description.clone())));
        members.push(Member::new("order", Json::Integer(self.order as i128)));
        members.push(Member::new("phases", encode_phases(&self.phases)));
        let json = Json::Object(members);
        assert(json.deep_view()->Object_0 =~= wire_workout(self.deep_view())->Object_0);
        json
    }
}

/// The answer that carries `workouts`: status 200 and the list in wire
/// form, in the order given.
pub fn list_reply(workouts: &Vec<WorkoutResponse>) -> (reply: Reply)
    ensures
        reply.deep_view() == (ReplyView {
            status: 200,
            body: wire_workouts(workouts.deep_view()),
        }),
{
    let mut items: Vec<Json> = Vec::new();
    let mut i: usize = 0;
    while i < workouts.len()
        invariant
            i <= workouts@.len(),
            items@.len() == i,
            forall|k: int|
                0 <= k < i ==> (#[trigger] items@[k]).deep_view() == wire_workout(
                    workouts@[k].deep_view(),
                ),
        decreases workouts@.len() - i,
    {
        items.push(workouts[i].to_json());
        i += 1;
    }
    let body = Json::Array(items);
    assert(body.deep_view()->Array_0 =~= wire_workouts(workouts.deep_view())->Array_0);
    Reply { status: 200, body }
}

/// The answer to a lookup that found `found`.
pub fn lookup_reply(found: Option<WorkoutResponse>) -> (reply: Reply)
    ensures
        reply.deep_view() == lookup_answer(found.deep_view()),
{
    match found {
        Some(workout) => Reply { status: 200, body: workout.to_json() },
        None => {
            let mut members: Vec<Member> = Vec::new();
            members.push(Member::new("error", Json::Text("Workout not found".to_owned())));
            let body = Json::Object(members);
            assert(body.deep_view()->Object_0 =~= not_found_body()->Object_0);
            Reply { status: 404, body }
        },
    }
}

/// Lists the workouts of `store`: status 200 and every stored workout in
/// ascending display rank.
pub fn get_workouts(store: &WorkoutStore) -> (reply: Reply)
    ensures
        reply.deep_view() == (ReplyView {
            status: 200,
            body: wire_workouts(listing(store.rows())),
        }),
{
    list_reply(&WorkoutRepository::find_all(store))
}

/// Answers for the workout whose identifier is written `id`: the workout
/// with status 200, or status 404 where none is stored under it.
pub fn get_workout_by_id(store: &WorkoutStore, id: &str) -> (reply: Reply)
    ensures
        reply.deep_view() == lookup_answer(lookup(store.rows(), id@)),
{
    lookup_reply(WorkoutRepository::find_by_id(store, id))
}

/// The answer to a health check: status 200 and `{"status": "ok"}`.
pub fn health_check() -> (reply: Reply)
    ensures
        reply.deep_view() == (ReplyView { status: 200, body: health_body() }),
{
    let mut members: Vec<Member> = Vec::new();
    members.push(Member::new("status", Json::Text("ok".to_owned())));
    let body = Json::Object(members);
    assert(body.deep_view()->Object_0 =~= health_body()->Object_0);
    Reply { status: 200, body }
}

} // verus!
