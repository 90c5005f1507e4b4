//! The stored phase document: a workout's phases as one JSON value, an
//! ordered array of `{name, durationSeconds, bpm}` records.

use crate::model::{PhaseView, WorkoutPhase};
use vstd::prelude::*;

verus! {

/// A JSON value, held as plain data.
#[derive(Debug, PartialEq, Eq)]
pub enum Json {
    Null,
    Boolean(bool),
    /// A number written without fraction or exponent.
    Integer(i128),
    /// Any other number, kept as the bits of its IEEE 754 double.
    Real(u64),
    Text(String),
    Array(Vec<Json>),
    /// Members in the order written. Where a key occurs twice, the later
    /// member counts.
    Object(Vec<Member>),
}

/// One `key: value` member of a JSON object.
#[derive(Debug, PartialEq, Eq)]
pub struct Member {
    pub key: String,
    pub value: Json,
}

/// What a [`Json`] value is, mathematically.
pub enum JsonView {
    Null,
    Boolean(bool),
    Integer(int),
    Real(u64),
    Text(Seq<char>),
    Array(Seq<JsonView>),
    Object(Seq<MemberView>),
}

/// What a [`Member`] is, mathematically.
pub struct MemberView {
    pub key: Seq<char>,
    pub value: JsonView,
}

/// The value that `json` holds.
pub open spec fn json_view(json: Json) -> JsonView
    decreases json,
{
    match json {
        Json::Null => JsonView::Null,
        Json::Boolean(b) => JsonView::Boolean(b),
        Json::Integer(i) => JsonView::Integer(i as int),
        Json::Real(bits) => JsonView::Real(bits),
        Json::Text(text) => JsonView::Text(text@),
        Json::Array(items) => JsonView::Array(
            Seq::new(
                items@.len(),
                |i: int|
                    if 0 <= i < items@.len() {
                        json_view(items@[i])
                    } else {
                        JsonView::Null
                    },
            ),
        ),
        Json::Object(members) => JsonView::Object(
            Seq::new(
                members@.len(),
                |i: int|
                    if 0 <= i < members@.len() {
                        MemberView { key: members@[i].key@, value: json_view(members@[i].value) }
                    } else {
                        MemberView { key: Seq::empty(), value: JsonView::Null }
                    },
            ),
        ),
    }
}

impl DeepView for Json {
    type V = JsonView;

    open spec fn deep_view(&self) -> JsonView {
        json_view(*self)
    }
}

impl DeepView for Member {
    type V = MemberView;

    open spec fn deep_view(&self) -> MemberView {
        MemberView { key: self.key@, value: self.value.deep_view() }
    }
}

/// The value of the member called `key`, if the object has one. Of
/// several members with that key the last one counts.
pub open spec fn member_value(members: Seq<MemberView>, key: Seq<char>) -> Option<JsonView>
    decreases members.len(),
{
    if members.len() == 0 {
        None
    } else if members.last().key == key {
        Some(members.last().value)
    } else {
        member_value(members.drop_last(), key)
    }
}

/// Whether `v` can be held in an `i32`.
pub open spec fn fits_i32(v: int) -> bool {
    i32::MIN <= v <= i32::MAX
}

/// A phase from the three values of a record: the name must be a text
/// and both numbers integers that fit in 32 bits.
pub open spec fn phase_from_fields(
    name: Option<JsonView>,
    duration_seconds: Option<JsonView>,
    bpm: Option<JsonView>,
) -> Option<PhaseView> {
    match (name, duration_seconds, bpm) {
        (
            Some(JsonView::Text(label)),
            Some(JsonView::Integer(seconds)),
            Some(JsonView::Integer(beats)),
        ) => if fits_i32(seconds) && fits_i32(beats) {
            Some(PhaseView { name: label, duration_seconds: seconds as i32, bpm: beats as i32 })
        } else {
            None
        },
        _ => None,
    }
}

/// The phase that one record of the document stands for, if it is well
/// formed: an object with the members `name`, `durationSeconds` and `bpm`
/// (other members are passed over), or an array of exactly these three
/// values in this order.
pub open spec fn decoded_phase(record: JsonView) -> Option<PhaseView> {
    match record {
        JsonView::Object(members) => phase_from_fields(
            member_value(members, "name"@),
            member_value(members, "durationSeconds"@),
            member_value(members, "bpm"@),
        ),
        JsonView::Array(items) => if items.len() == 3 {
            phase_from_fields(Some(items[0]), Some(items[1]), Some(items[2]))
        } else {
            None
        },
        _ => None,
    }
}

/// Whether `document` is a well-formed phase document: an array whose
/// every record stands for a phase.
pub open spec fn is_phase_document(document: JsonView) -> bool {
    document matches JsonView::Array(records) && forall|i: int|
        0 <= i < records.len() ==> decoded_phase(#[trigger] records[i]) is Some
}

/// The phases that a stored document stands for, in the document's order.
/// A document that is not well formed (or is absent, that is `null`)
/// stands for no phases at all.
pub open spec fn decoded_phases(document: JsonView) -> Seq<PhaseView> {
    match document {
        JsonView::Array(records) => if is_phase_document(document) {
            Seq::new(records.len(), |i: int| decoded_phase(records[i]).unwrap())
        } else {
            Seq::empty()
        },
        _ => Seq::empty(),
    }
}

/// The record written for one phase.
pub open spec fn encoded_phase(phase: PhaseView) -> JsonView {
    JsonView::Object(
        seq![
            MemberView { key: "name"@, value: JsonView::Text(phase.name) },
            MemberView {
                key: "durationSeconds"@,
                value: JsonView::Integer(phase.duration_seconds as int),
            },
            MemberView { key: "bpm"@, value: JsonView::Integer(phase.bpm as int) },
        ],
    )
}

/// The document written for a phase sequence: one record per phase, in
/// the sequence's order.
pub open spec fn encoded_phases(phases: Seq<PhaseView>) -> JsonView {
    JsonView::Array(Seq::new(phases.len(), |i: int| encoded_phase(phases[i])))
}

fn find_member<'a>(members: &'a Vec<Member>, key: &str) -> (found: Option<&'a Json>)
    ensures
        found.deep_view() == member_value(members.deep_view(), key@),
{
    let ghost all = members.deep_view();
    let wanted = key.to_owned();
    let mut i: usize = members.len();
    assert(all.take(i as int) =~= all);
    while i > 0
        invariant
            i <= members@.len(),
            wanted@ == key@,
            all == members.deep_view(),
            member_value(all, key@) == member_value(all.take(i as int), key@),
        decreases i,
    {
        i -= 1;
        assert(all.take(i + 1).last() == members@[i as int].deep_view());
        assert(all.take(i + 1).drop_last() =~= all.take(i as int));
        if members[i].key == wanted {
            return Some(&members[i].value);
        }
    }
    None
}

fn phase_from(name: Option<&Json>, duration_seconds: Option<&Json>, bpm: Option<&Json>) -> (phase:
    Option<WorkoutPhase>)
    ensures
        phase.deep_view() == phase_from_fields(
            name.deep_view(),
            duration_seconds.deep_view(),
            bpm.deep_view(),
        ),
{
    match (name, duration_seconds, bpm) {
        (Some(Json::Text(label)), Some(Json::Integer(seconds)), Some(Json::Integer(beats))) => {
            if *seconds >= i32::MIN as i128 && *seconds <= i32::MAX as i128 && *beats
                >= i32::MIN as i128 && *beats <= i32::MAX as i128 {
                Some(
                    WorkoutPhase {
                        name: label.clone(),
                        duration_seconds: *seconds as i32,
                        bpm: *beats as i32,
                    },
                )
            } else {
                None
            }
        },
        _ => None,
    }
}

/// Reads one record of a phase document.
pub fn decode_phase(record: &Json) -> (phase: Option<WorkoutPhase>)
    ensures
        phase.deep_view() == decoded_phase(record.deep_view()),
{
    match record {
        Json::Object(members) => {
            assert(record.deep_view() == JsonView::Object(members.deep_view())) by {
                assert(record.deep_view()->Object_0 =~= members.deep_view());
            }
            phase_from(
                find_member(members, "name"),
                find_member(members, "durationSeconds"),
                find_member(members, "bpm"),
            )
        },
        Json::Array(items) => {
            assert(record.deep_view() == JsonView::Array(items.deep_view())) by {
                assert(record.deep_view()->Array_0 =~= items.deep_view());
            }
            if items.len() == 3 {
                phase_from(Some(&items[0]), Some(&items[1]), Some(&items[2]))
            } else {
                None
            }
        },
        _ => None,
    }
}

/// Reads a stored phase document. A document that is not an array of
/// well-formed records gives the empty sequence, never an error.
pub fn decode_phases(document: &Json) -> (phases: Vec<WorkoutPhase>)
    ensures
        phases.deep_view() == decoded_phases(document.deep_view()),
{
    match document {
        Json::Array(records) => {
            let ghost views = records.deep_view();
            assert(document.deep_view() == JsonView::Array(views)) by {
                assert(document.deep_view()->Array_0 =~= views);
            }
            let mut phases: Vec<WorkoutPhase> = Vec::new();
            let mut i: usize = 0;
            while i < records.len()
                invariant
                    i <= records@.len(),
                    views == records.deep_view(),
                    document.deep_view() == JsonView::Array(views),
                    phases@.len() == i,
                    forall|k: int| 0 <= k < i ==> decoded_phase(#[trigger] views[k]) is Some,
                    forall|k: int|
                        0 <= k < i ==> (#[trigger] phases@[k]).deep_view() == decoded_phase(
                            views[k],
                        ).unwrap(),
                decreases records@.len() - i,
            {
                match decode_phase(&records[i]) {
                    Some(phase) => {
                        phases.push(phase);
                    },
                    None => {
                        assert(decoded_phase(views[i as int]) is None);
                        assert(!is_phase_document(document.deep_view()));
                        let nothing: Vec<WorkoutPhase> = Vec::new();
                        assert(nothing.deep_view() =~= Seq::empty());
                        return nothing;
                    },
                }
                i += 1;
            }
            assert(phases.deep_view() =~= decoded_phases(document.deep_view()));
            phases
        },
        _ => {
            let nothing: Vec<WorkoutPhase> = Vec::new();
            assert(nothing.deep_view() =~= Seq::empty());
            nothing
        },
    }
}

impl Member {
    /// The member `key: value`.
    pub fn new(key: &str, value: Json) -> (member: Member)
        ensures
            member.deep_view() == (MemberView { key: key@, value: value.deep_view() }),
    {
        Member { key: key.to_owned(), value }
    }
}

/// Writes the record of one phase.
pub fn encode_phase(phase: &WorkoutPhase) -> (record: Json)
    ensures
        record.deep_view() == encoded_phase(phase.deep_view()),
{
    let mut members: Vec<Member> = Vec::new();
    members.push(Member::new("name", Json::Text(phase.name.clone())));
    members.push(Member::new("durationSeconds", Json::Integer(phase.duration_seconds as i128)));
    members.push(Member::new("bpm", Json::Integer(phase.bpm as i128)));
    let record = Json::Object(members);
    assert(record.deep_view()->Object_0 =~= encoded_phase(phase.deep_view())->Object_0);
    record
}

/// Writes the phase document of a sequence: one structured value that
/// holds every phase, in order.
pub fn encode_phases(phases: &Vec<WorkoutPhase>) -> (document: Json)
    ensures
        document.deep_view() == encoded_phases(phases.deep_view()),
{
    let mut records: Vec<Json> = Vec::new();
    let mut i: usize = 0;
    while i < phases.len()
        invariant
            i <= phases@.len(),
            records@.len() == i,
            forall|k: int|
                0 <= k < i ==> (#[trigger] records@[k]).deep_view() == encoded_phase(
                    phases@[k].deep_view(),
                ),
        decreases phases@.len() - i,
    {
        records.push(encode_phase(&phases[i]));
        i += 1;
    }
    let document = Json::Array(records);
    assert(document.deep_view()->Array_0 =~= encoded_phases(phases.deep_view())->Array_0);
    document
}

/// Reading back what was written gives the phases that were written: the
/// same phases, in the same order.
pub proof fn lemma_phase_document_round_trip(phases: Seq<PhaseView>)
    ensures
        is_phase_document(encoded_phases(phases)),
        decoded_phases(encoded_phases(phases)) == phases,
{
    let records = encoded_phases(phases)->Array_0;
    assert forall|i: int| 0 <= i < records.len() implies decoded_phase(#[trigger] records[i])
        == Some(phases[i]) by {
        lemma_phase_record_round_trip(phases[i]);
    }
    assert(decoded_phases(encoded_phases(phases)) =~= phases);
}

/// Reading back the record of one phase gives that phase.
pub proof fn lemma_phase_record_round_trip(phase: PhaseView)
    ensures
        decoded_phase(encoded_phase(phase)) == Some(phase),
{
    reveal_strlit("name");
    reveal_strlit("durationSeconds");
    reveal_strlit("bpm");
    let members = encoded_phase(phase)->Object_0;
    let two = members.drop_last();
    let one = two.drop_last();
    assert(members.last().key == "bpm"@);
    assert(two.last().key == "durationSeconds"@);
    assert(one.last().key == "name"@);
    assert(member_value(members, "bpm"@) == Some(members[2].value));
    assert(member_value(two, "durationSeconds"@) == Some(members[1].value));
    assert(member_value(members, "durationSeconds"@) == Some(members[1].value));
    assert(member_value(one, "name"@) == Some(members[0].value));
    assert(member_value(two, "name"@) == Some(members[0].value));
    assert(member_value(members, "name"@) == Some(members[0].value));
}

} // verus!
