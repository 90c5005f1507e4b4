//! The workout catalog: the fixed set of authored plans.

use crate::expander::{compose, composition, m, s, IntervalBlock, IntervalBlockView};
use crate::ident::{fresh_id, is_version_7};
use crate::model::{PhaseView, WorkoutPhase};
use vstd::prelude::*;

verus! {

/// One authored workout: metadata and the flat phase sequence.
#[derive(Debug, PartialEq, Eq)]
pub struct WorkoutTemplate {
    /// Stable identifier, the key under which the workout is stored.
    pub id: u128,
    /// Display rank; decides the place in a listing.
    pub order: i32,
    pub name: String,
    /// Informational; not derived from the phases.
    pub total_duration_minutes: i32,
    pub description: String,
    pub phases: Vec<WorkoutPhase>,
}

/// What a [`WorkoutTemplate`] is, mathematically.
pub struct TemplateView {
    pub id: u128,
    pub order: i32,
    pub name: Seq<char>,
    pub total_duration_minutes: i32,
    pub description: Seq<char>,
    pub phases: Seq<PhaseView>,
}

impl DeepView for WorkoutTemplate {
    type V = TemplateView;

    open spec fn deep_view(&self) -> TemplateView {
        TemplateView {
            id: self.id,
            order: self.order,
            name: self.name@,
            total_duration_minutes: self.total_duration_minutes,
            description: self.description@,
            phases: self.phases.deep_view(),
        }
    }
}

/// A phase, written down as a value.
pub open spec fn phase(name: Seq<char>, duration_seconds: i32, bpm: i32) -> PhaseView {
    PhaseView { name, duration_seconds, bpm }
}

/// Three fixed phases: a warmup, one main phase, a cooldown.
pub open spec fn steady(warmup: PhaseView, main: PhaseView, cooldown: PhaseView) -> Seq<
    PhaseView,
> {
    seq![warmup, main, cooldown]
}

/// A warmup, `count` repetitions of a work phase and a recovery phase, and
/// a cooldown.
pub open spec fn intervals(
    warmup: PhaseView,
    count: int,
    work: PhaseView,
    recovery: PhaseView,
    cooldown: PhaseView,
) -> Seq<PhaseView> {
    composition(
        Some(warmup),
        seq![IntervalBlockView { count, phases: seq![work, recovery] }],
        Some(cooldown),
    )
}

/// The catalog, given the identifiers of its eight entries in display
/// order. Every entry but its identifier is fixed.
pub open spec fn catalog(ids: Seq<u128>) -> Seq<TemplateView> {
    seq![
        TemplateView {
            id: ids[0],
            order: 1,
            name: "Recovery"@,
            total_duration_minutes: 20,
            description: "Light recovery run with low cadence"@,
            phases: steady(
                phase("Warmup"@, 300, 160),
                phase("Easy"@, 600, 168),
                phase("Cooldown"@, 300, 156),
            ),
        },
        TemplateView {
            id: ids[1],
            order: 2,
            name: "Easy Run (short)"@,
            total_duration_minutes: 30,
            description: "Short easy-paced run"@,
            phases: steady(
                phase("Warmup"@, 360, 162),
                phase("Easy"@, 1200, 170),
                phase("Cooldown"@, 240, 156),
            ),
        },
        TemplateView {
            id: ids[2],
            order: 3,
            name: "Aerobic Steady"@,
            total_duration_minutes: 40,
            description: "Sustained aerobic effort at steady cadence"@,
            phases: steady(
                phase("Warmup"@, 480, 162),
                phase("Steady"@, 1680, 174),
                phase("Cooldown"@, 240, 156),
            ),
        },
        TemplateView {
            id: ids[3],
            order: 4,
            name: "Long Easy"@,
            total_duration_minutes: 60,
            description: "Long easy run for building endurance"@,
            phases: steady(
                phase("Warmup"@, 480, 162),
                phase("Easy"@, 2760, 170),
                phase("Cooldown"@, 360, 156),
            ),
        },
        TemplateView {
            id: ids[4],
            order: 5,
            name: "Tempo Blocks"@,
            total_duration_minutes: 42,
            description: "3 × 6-min tempo blocks with 2-min easy recovery"@,
            phases: intervals(
                phase("Warmup"@, 720, 162),
                3,
                phase("Tempo"@, 360, 180),
                phase("Easy"@, 120, 168),
                phase("Cooldown"@, 480, 156),
            ),
        },
        TemplateView {
            id: ids[5],
            order: 6,
            name: "1:00 Intervals"@,
            total_duration_minutes: 38,
            description: "10 × 1-min hard with 1-min easy recovery"@,
            phases: intervals(
                phase("Warmup"@, 720, 162),
                10,
                phase("Hard"@, 60, 186),
                phase("Easy"@, 60, 168),
                phase("Cooldown"@, 360, 156),
            ),
        },
        TemplateView {
            id: ids[6],
            order: 7,
            name: "Hill Simulation"@,
            total_duration_minutes: 44,
            description: "8 × 1:30 uphill simulation with downhill recovery"@,
            phases: intervals(
                phase("Warmup"@, 720, 162),
                8,
                phase("Up"@, 90, 184),
                phase("Down"@, 90, 168),
                phase("Cooldown"@, 480, 156),
            ),
        },
        TemplateView {
            id: ids[7],
            order: 8,
            name: "Strides"@,
            total_duration_minutes: 30,
            description: "8 × 20-sec fast strides with 70-sec easy recovery"@,
            phases: intervals(
                phase("Warmup"@, 720, 162),
                8,
                phase("Fast"@, 20, 190),
                phase("Easy"@, 70, 168),
                phase("Cooldown"@, 360, 156),
            ),
        },
    ]
}

/// The identifiers of `templates`, in their order.
pub open spec fn template_ids(templates: Seq<TemplateView>) -> Seq<u128> {
    Seq::new(templates.len(), |i: int| templates[i].id)
}

/// The catalog's invariants: eight entries, entry `i` under the `i`-th
/// identifier and with display rank `i + 1` (so no two entries share a
/// rank), and no entry without phases.
pub proof fn lemma_catalog_invariants(ids: Seq<u128>)
    ensures
        catalog(ids).len() == 8,
        forall|i: int|
            0 <= i < 8 ==> {
                &&& (#[trigger] catalog(ids)[i]).id == ids[i]
                &&& catalog(ids)[i].order == i + 1
                &&& catalog(ids)[i].phases.len() > 0
            },
        forall|i: int, j: int|
            0 <= i < j < 8 ==> (#[trigger] catalog(ids)[i]).order != (
            #[trigger] catalog(ids)[j]).order,
{
    let entries = catalog(ids);
    assert(entries[0].phases.len() > 0 && entries[0].order == 1 && entries[0].id == ids[0]);
    assert(entries[1].phases.len() > 0 && entries[1].order == 2 && entries[1].id == ids[1]);
    assert(entries[2].phases.len() > 0 && entries[2].order == 3 && entries[2].id == ids[2]);
    assert(entries[3].phases.len() > 0 && entries[3].order == 4 && entries[3].id == ids[3]);
    assert(entries[4].phases.len() > 0 && entries[4].order == 5 && entries[4].id == ids[4]);
    assert(entries[5].phases.len() > 0 && entries[5].order == 6 && entries[5].id == ids[5]);
    assert(entries[6].phases.len() > 0 && entries[6].order == 7 && entries[6].id == ids[6]);
    assert(entries[7].phases.len() > 0 && entries[7].order == 8 && entries[7].id == ids[7]);
}

/// Two catalogs differ in their identifiers at most: entry `i` of one is
/// entry `i` of the other with the other's identifier.
pub proof fn lemma_catalog_entry_but_for_id(ids: Seq<u128>, others: Seq<u128>, i: int)
    requires
        0 <= i < 8,
    ensures
        catalog(ids)[i] == (TemplateView { id: ids[i], ..catalog(others)[i] }),
{
    let one = catalog(ids);
    let other = catalog(others);
    if i == 0 {
        assert(one[0] == (TemplateView { id: ids[0], ..other[0] }));
    } else if i == 1 {
        assert(one[1] == (TemplateView { id: ids[1], ..other[1] }));
    } else if i == 2 {
        assert(one[2] == (TemplateView { id: ids[2], ..other[2] }));
    } else if i == 3 {
        assert(one[3] == (TemplateView { id: ids[3], ..other[3] }));
    } else if i == 4 {
        assert(one[4] == (TemplateView { id: ids[4], ..other[4] }));
    } else if i == 5 {
        assert(one[5] == (TemplateView { id: ids[5], ..other[5] }));
    } else if i == 6 {
        assert(one[6] == (TemplateView { id: ids[6], ..other[6] }));
    } else {
        assert(one[7] == (TemplateView { id: ids[7], ..other[7] }));
    }
}

fn steady_phases(warmup: WorkoutPhase, main: WorkoutPhase, cooldown: WorkoutPhase) -> (phases: Vec<
    WorkoutPhase,
>)
    ensures
        phases.deep_view() == steady(
            warmup.deep_view(),
            main.deep_view(),
            cooldown.deep_view(),
        ),
{
    let mut phases: Vec<WorkoutPhase> = Vec::new();
    phases.push(warmup);
    phases.push(main);
    phases.push(cooldown);
    assert(phases.deep_view() =~= steady(
        warmup.deep_view(),
        main.deep_view(),
        cooldown.deep_view(),
    ));
    phases
}

fn interval_phases(
    warmup: WorkoutPhase,
    count: i32,
    work: WorkoutPhase,
    recovery: WorkoutPhase,
    cooldown: WorkoutPhase,
) -> (phases: Vec<WorkoutPhase>)
    ensures
        phases.deep_view() == intervals(
            warmup.deep_view(),
            count as int,
            work.deep_view(),
            recovery.deep_view(),
            cooldown.deep_view(),
        ),
{
    let mut pair: Vec<WorkoutPhase> = Vec::new();
    pair.push(work);
    pair.push(recovery);
    assert(pair.deep_view() =~= seq![work.deep_view(), recovery.deep_view()]);
    let mut blocks: Vec<IntervalBlock> = Vec::new();
    blocks.push(IntervalBlock { count, phases: pair });
    assert(blocks.deep_view() =~= seq![
        IntervalBlockView {
            count: count as int,
            phases: seq![work.deep_view(), recovery.deep_view()],
        },
    ]);
    compose(Some(warmup), blocks, Some(cooldown))
}

fn template(
    id: u128,
    order: i32,
    name: &str,
    total_duration_minutes: i32,
    description: &str,
    phases: Vec<WorkoutPhase>,
) -> (entry: WorkoutTemplate)
    ensures
        entry.deep_view() == (TemplateView {
            id,
            order,
            name: name@,
            total_duration_minutes,
            description: description@,
            phases: phases.deep_view(),
        }),
{
    WorkoutTemplate {
        id,
        order,
        name: name.to_owned(),
        total_duration_minutes,
        description: description.to_owned(),
        phases,
    }
}

/// Builds the catalog around the given identifiers: entry `i` gets
/// `ids[i]`. The same identifiers always give the same catalog.
pub fn workout_templates(ids: [u128; 8]) -> (templates: Vec<WorkoutTemplate>)
    ensures
        templates.deep_view() == catalog(ids@),
{
    let mut templates: Vec<WorkoutTemplate> = Vec::new();
    templates.push(
        template(
            ids[0],
            1,
            "Recovery",
            20,
            "Light recovery run with low cadence",
            steady_phases(
                WorkoutPhase::new("Warmup", m(5), 160),
                WorkoutPhase::new("Easy", m(10), 168),
                WorkoutPhase::new("Cooldown", m(5), 156),
            ),
        ),
    );
    templates.push(
        template(
            ids[1],
            2,
            "Easy Run (short)",
            30,
            "Short easy-paced run",
            steady_phases(
                WorkoutPhase::new("Warmup", m(6), 162),
                WorkoutPhase::new("Easy", m(20), 170),
                WorkoutPhase::new("Cooldown", m(4), 156),
            ),
        ),
    );
    templates.push(
        template(
            ids[2],
            3,
            "Aerobic Steady",
            40,
            "Sustained aerobic effort at steady cadence",
            steady_phases(
                WorkoutPhase::new("Warmup", m(8), 162),
                WorkoutPhase::new("Steady", m(28), 174),
                WorkoutPhase::new("Cooldown", m(4), 156),
            ),
        ),
    );
    templates.push(
        template(
            ids[3],
            4,
            "Long Easy",
            60,
            "Long easy run for building endurance",
            steady_phases(
                WorkoutPhase::new("Warmup", m(8), 162),
                WorkoutPhase::new("Easy", m(46), 170),
                WorkoutPhase::new("Cooldown", m(6), 156),
            ),
        ),
    );
    templates.push(
        template(
            ids[4],
            5,
            "Tempo Blocks",
            42,
            "3 × 6-min tempo blocks with 2-min easy recovery",
            interval_phases(
                WorkoutPhase::new("Warmup", m(12), 162),
                3,
                WorkoutPhase::new("Tempo", m(6), 180),
                WorkoutPhase::new("Easy", m(2), 168),
                WorkoutPhase::new("Cooldown", m(8), 156),
            ),
        ),
    );
    templates.push(
        template(
            ids[5],
            6,
            "1:00 Intervals",
            38,
            "10 × 1-min hard with 1-min easy recovery",
            interval_phases(
                WorkoutPhase::new("Warmup", m(12), 162),
                10,
                WorkoutPhase::new("Hard", m(1), 186),
                WorkoutPhase::new("Easy", m(1), 168),
                WorkoutPhase::new("Cooldown", m(6), 156),
            ),
        ),
    );
    templates.push(
        template(
            ids[6],
            7,
            "Hill Simulation",
            44,
            "8 × 1:30 uphill simulation with downhill recovery",
            interval_phases(
                WorkoutPhase::new("Warmup", m(12), 162),
                8,
                WorkoutPhase::new("Up", s(90), 184),
                WorkoutPhase::new("Down", s(90), 168),
                WorkoutPhase::new("Cooldown", m(8), 156),
            ),
        ),
    );
    templates.push(
        template(
            ids[7],
            8,
            "Strides",
            30,
            "8 × 20-sec fast strides with 70-sec easy recovery",
            interval_phases(
                WorkoutPhase::new("Warmup", m(12), 162),
                8,
                WorkoutPhase::new("Fast", s(20), 190),
                WorkoutPhase::new("Easy", s(70), 168),
                WorkoutPhase::new("Cooldown", m(6), 156),
            ),
        ),
    );
    assert(templates.deep_view() =~= catalog(ids@));
    templates
}

/// The catalog with a newly drawn identifier for each entry. Everything
/// but the identifiers is fixed; each identifier is drawn as a version-7
/// UUID at the time of the call, so it is not the same from call to call.
pub fn get_workout_templates() -> (templates: Vec<WorkoutTemplate>)
    ensures
        templates.deep_view() == catalog(template_ids(templates.deep_view())),
        forall|i: int| 0 <= i < templates@.len() ==> is_version_7(#[trigger] templates@[i].id),
{
    let ids: [u128; 8] = [
        fresh_id(),
        fresh_id(),
        fresh_id(),
        fresh_id(),
        fresh_id(),
        fresh_id(),
        fresh_id(),
        fresh_id(),
    ];
    let templates = workout_templates(ids);
    proof {
        let views = templates.deep_view();
        assert(views.len() == 8);
        assert forall|i: int| 0 <= i < 8 implies #[trigger] template_ids(views)[i] == ids@[i] by {
            assert(views[i] == catalog(ids@)[i]);
        }
        assert(catalog(template_ids(views)) =~= catalog(ids@));
        assert forall|i: int| 0 <= i < templates@.len() implies is_version_7(
            #[trigger] templates@[i].id,
        ) by {
            assert(templates@[i].deep_view() == views[i]);
            assert(views[i] == catalog(ids@)[i]);
        }
    }
    templates
}

} // verus!
