//! The template expander: turns "`count` repetitions of these blocks" into
//! a flat, labelled phase sequence, and assembles a whole workout from a
//! warmup, expanded blocks and a cooldown.

use crate::label::{render_repetition_label, repetition_label};
use crate::model::{PhaseView, WorkoutPhase};
use vstd::arithmetic::div_mod::lemma_fundamental_div_mod_converse;
use vstd::prelude::*;

verus! {

/// A phase as it appears in repetition `index` of `count`: timing and
/// cadence are those of the block, only the name carries the suffix.
pub open spec fn relabelled(phase: PhaseView, index: int, count: int) -> PhaseView {
    PhaseView {
        name: repetition_label(phase.name, index, count),
        duration_seconds: phase.duration_seconds,
        bpm: phase.bpm,
    }
}

/// How many phases `count` repetitions of `blocks` blocks make. A count
/// below one makes none.
pub open spec fn expansion_len(blocks: nat, count: int) -> nat {
    if count > 0 {
        (blocks * count) as nat
    } else {
        0
    }
}

/// The expansion of `blocks` repeated `count` times, repetition by
/// repetition: position `k` holds block `k % B` as it appears in repetition
/// `k / B + 1`, where `B` is the number of blocks.
pub open spec fn expansion(blocks: Seq<PhaseView>, count: int) -> Seq<PhaseView> {
    Seq::new(
        expansion_len(blocks.len(), count),
        |k: int| relabelled(blocks[k % (blocks.len() as int)], k / (blocks.len() as int) + 1, count),
    )
}

/// One round of an expansion: every block, in order, labelled as
/// repetition `index` of `count`.
pub open spec fn repetition(blocks: Seq<PhaseView>, index: int, count: int) -> Seq<PhaseView> {
    Seq::new(blocks.len(), |j: int| relabelled(blocks[j], index, count))
}

/// Minutes as seconds.
pub fn m(minutes: i32) -> (seconds: i32)
    requires
        i32::MIN <= minutes * 60 <= i32::MAX,
    ensures
        seconds == minutes * 60,
{
    minutes * 60
}

/// Seconds as seconds: marks a literal as a duration in seconds.
pub fn s(seconds: i32) -> (same: i32)
    ensures
        same == seconds,
{
    seconds
}

proof fn lemma_slot(blocks: int, round: int, offset: int, count: int)
    requires
        0 <= round < count,
        0 <= offset < blocks,
    ensures
        0 <= round * blocks + offset < blocks * count,
        (round * blocks + offset) / blocks == round,
        (round * blocks + offset) % blocks == offset,
{
    assert(0 <= round * blocks) by (nonlinear_arith)
        requires
            0 <= round,
            0 <= blocks,
    ;
    assert((round + 1) * blocks == round * blocks + blocks) by (nonlinear_arith);
    assert((round + 1) * blocks <= blocks * count) by (nonlinear_arith)
        requires
            round + 1 <= count,
            0 <= blocks,
    ;
    lemma_fundamental_div_mod_converse(round * blocks + offset, blocks, round, offset);
}

/// Expands `phases` into `count` repetitions. The result holds the blocks
/// of repetition 1, then those of repetition 2, and so on; each phase keeps
/// its length and cadence and gets the suffix ` (i/count)` on its name.
/// A count below one, or no blocks, gives the empty sequence.
pub fn repeat(count: i32, phases: Vec<WorkoutPhase>) -> (result: Vec<WorkoutPhase>)
    ensures
        result.deep_view() == expansion(phases.deep_view(), count as int),
{
    expand(count, &phases)
}

/// [`repeat`] on borrowed blocks.
pub fn expand(count: i32, phases: &Vec<WorkoutPhase>) -> (result: Vec<WorkoutPhase>)
    ensures
        result.deep_view() == expansion(phases.deep_view(), count as int),
{
    let ghost blocks = phases.deep_view();
    let ghost target = expansion(blocks, count as int);
    let mut result: Vec<WorkoutPhase> = Vec::new();
    let mut i: i32 = 0;
    while i < count
        invariant
            0 <= i,
            count > 0 ==> i <= count,
            count <= 0 ==> i == 0,
            blocks == phases.deep_view(),
            target == expansion(blocks, count as int),
            result@.len() == i * phases@.len(),
            forall|k: int| 0 <= k < result@.len() ==> (#[trigger] result@[k]).deep_view() == target[k],
        decreases count - i,
    {
        let mut j: usize = 0;
        while j < phases.len()
            invariant
                0 <= i < count,
                j <= phases@.len(),
                blocks == phases.deep_view(),
                target == expansion(blocks, count as int),
                result@.len() == i * phases@.len() + j,
                forall|k: int|
                    0 <= k < result@.len() ==> (#[trigger] result@[k]).deep_view() == target[k],
            decreases phases@.len() - j,
        {
            let block = &phases[j];
            let phase = WorkoutPhase {
                name: render_repetition_label(block.name.as_str(), i + 1, count),
                duration_seconds: block.duration_seconds,
                bpm: block.bpm,
            };
            proof {
                lemma_slot(phases@.len() as int, i as int, j as int, count as int);
                assert(phase.deep_view() == target[i * phases@.len() + j]);
            }
            result.push(phase);
            j += 1;
        }
        assert((i + 1) * phases@.len() == i * phases@.len() + phases@.len()) by (nonlinear_arith);
        i += 1;
    }
    proof {
        if count > 0 {
            assert(i * phases@.len() == phases@.len() * count) by (nonlinear_arith)
                requires
                    i == count,
            ;
        } else {
            assert(i * phases@.len() == 0) by (nonlinear_arith)
                requires
                    i == 0,
            ;
            assert(target.len() == 0);
        }
        assert(result.deep_view() =~= target);
    }
    result
}

/// A repeated interval block: `count` repetitions of `phases`.
#[derive(Debug, PartialEq, Eq)]
pub struct IntervalBlock {
    pub count: i32,
    pub phases: Vec<WorkoutPhase>,
}

/// What an [`IntervalBlock`] is, mathematically.
pub struct IntervalBlockView {
    pub count: int,
    pub phases: Seq<PhaseView>,
}

impl DeepView for IntervalBlock {
    type V = IntervalBlockView;

    open spec fn deep_view(&self) -> IntervalBlockView {
        IntervalBlockView { count: self.count as int, phases: self.phases.deep_view() }
    }
}

/// The expansions of `blocks`, one after the other.
pub open spec fn expanded_blocks(blocks: Seq<IntervalBlockView>) -> Seq<PhaseView>
    decreases blocks.len(),
{
    if blocks.len() == 0 {
        Seq::empty()
    } else {
        expanded_blocks(blocks.drop_last()) + expansion(blocks.last().phases, blocks.last().count)
    }
}

/// A fixed phase that may be left out: one phase, or none.
pub open spec fn optional_phase(phase: Option<PhaseView>) -> Seq<PhaseView> {
    match phase {
        Some(p) => seq![p],
        None => Seq::empty(),
    }
}

/// A whole workout: the warmup if there is one, then every block expanded,
/// in the order given, then the cooldown if there is one.
pub open spec fn composition(
    warmup: Option<PhaseView>,
    blocks: Seq<IntervalBlockView>,
    cooldown: Option<PhaseView>,
) -> Seq<PhaseView> {
    optional_phase(warmup) + expanded_blocks(blocks) + optional_phase(cooldown)
}

/// Assembles the flat phase sequence of a workout: warmup, expanded
/// blocks, cooldown. Nothing of the nesting is left in the result.
pub fn compose(
    warmup: Option<WorkoutPhase>,
    blocks: Vec<IntervalBlock>,
    cooldown: Option<WorkoutPhase>,
) -> (phases: Vec<WorkoutPhase>)
    ensures
        phases.deep_view() == composition(
            warmup.deep_view(),
            blocks.deep_view(),
            cooldown.deep_view(),
        ),
{
    let ghost head = optional_phase(warmup.deep_view());
    let ghost plan = blocks.deep_view();
    let mut phases: Vec<WorkoutPhase> = Vec::new();
    match warmup {
        Some(phase) => {
            phases.push(phase);
        },
        None => {},
    }
    assert(phases.deep_view() =~= head);
    assert(plan.take(0) =~= Seq::empty());
    let mut b: usize = 0;
    while b < blocks.len()
        invariant
            b <= blocks@.len(),
            plan == blocks.deep_view(),
            phases.deep_view() == head + expanded_blocks(plan.take(b as int)),
        decreases blocks@.len() - b,
    {
        let block = &blocks[b];
        let mut expanded = expand(block.count, &block.phases);
        let ghost before = phases.deep_view();
        let ghost added = expanded.deep_view();
        phases.append(&mut expanded);
        proof {
            assert(phases.deep_view() =~= before + added);
            assert(plan.take(b + 1).drop_last() =~= plan.take(b as int));
            assert(plan.take(b + 1).last() == block.deep_view());
            assert(phases.deep_view() =~= head + expanded_blocks(plan.take(b + 1)));
        }
        b += 1;
    }
    assert(plan.take(b as int) =~= plan);
    let ghost body = phases.deep_view();
    match cooldown {
        Some(phase) => {
            phases.push(phase);
        },
        None => {},
    }
    assert(phases.deep_view() =~= body + optional_phase(cooldown.deep_view()));
    phases
}

/// Cardinality: `count` repetitions of `B` blocks are exactly `B * count`
/// phases, and none for a count below one.
pub proof fn lemma_expansion_cardinality(blocks: Seq<PhaseView>, count: int)
    ensures
        count >= 0 ==> expansion(blocks, count).len() == blocks.len() * count,
        count <= 0 ==> expansion(blocks, count).len() == 0,
{
    assert(count == 0 ==> blocks.len() * count == 0) by (nonlinear_arith);
}

/// Renumbering only: the phase at position `k` of an expansion is block
/// `k % B` in repetition `k / B + 1`, with the block's length and cadence
/// untouched and only its name rewritten.
pub proof fn lemma_expansion_element(blocks: Seq<PhaseView>, count: int, k: int)
    requires
        0 <= k < expansion(blocks, count).len(),
    ensures
        0 <= k % (blocks.len() as int) < blocks.len(),
        1 <= k / (blocks.len() as int) + 1 <= count,
        expansion(blocks, count)[k].duration_seconds == blocks[k % (blocks.len()
            as int)].duration_seconds,
        expansion(blocks, count)[k].bpm == blocks[k % (blocks.len() as int)].bpm,
        expansion(blocks, count)[k].name == repetition_label(
            blocks[k % (blocks.len() as int)].name,
            k / (blocks.len() as int) + 1,
            count,
        ),
{
    let width = blocks.len() as int;
    assert(width > 0 && count > 0) by (nonlinear_arith)
        requires
            0 <= k < width * count,
            width >= 0,
    ;
    assert(0 <= k % width < width && 0 <= k / width < count) by (nonlinear_arith)
        requires
            0 <= k < width * count,
            width > 0,
    ;
}

/// Repetition order: the phases of repetition `round` (counted from 1)
/// stand together, in block order, right after those of all earlier
/// repetitions.
pub proof fn lemma_expansion_rounds(blocks: Seq<PhaseView>, count: int, round: int)
    requires
        1 <= round <= count,
    ensures
        0 <= (round - 1) * blocks.len() <= round * blocks.len() <= expansion(blocks, count).len(),
        expansion(blocks, count).subrange(
            (round - 1) * blocks.len(),
            round * blocks.len(),
        ) == repetition(blocks, round, count),
{
    let width = blocks.len() as int;
    let start = (round - 1) * width;
    assert(0 <= start && round * width == start + width && round * width <= width * count)
        by (nonlinear_arith)
        requires
            1 <= round <= count,
            0 <= width,
            start == (round - 1) * width,
    ;
    assert forall|j: int| 0 <= j < width implies expansion(blocks, count)[start + j]
        == repetition(blocks, round, count)[j] by {
        lemma_slot(width, round - 1, j, count);
    }
    assert(expansion(blocks, count).subrange(start, round * width) =~= repetition(
        blocks,
        round,
        count,
    ));
}

/// Determinism: two expansions of the same blocks with the same count are
/// the same sequence, name for name, character for character.
pub proof fn lemma_expansion_deterministic(
    first: Vec<WorkoutPhase>,
    second: Vec<WorkoutPhase>,
    blocks: Seq<PhaseView>,
    count: int,
)
    requires
        first.deep_view() == expansion(blocks, count),
        second.deep_view() == expansion(blocks, count),
    ensures
        first@.len() == second@.len(),
        forall|k: int|
            0 <= k < first@.len() ==> {
                &&& (#[trigger] first@[k]).name@ == second@[k].name@
                &&& first@[k].duration_seconds == second@[k].duration_seconds
                &&& first@[k].bpm == second@[k].bpm
            },
{
    assert(first.deep_view().len() == second.deep_view().len());
    assert forall|k: int| 0 <= k < first@.len() implies (#[trigger] first@[k]).name@
        == second@[k].name@ && first@[k].duration_seconds == second@[k].duration_seconds
        && first@[k].bpm == second@[k].bpm by {
        assert(first.deep_view()[k] == second.deep_view()[k]);
    }
}

} // verus!
