//! The read side of the workout table: every workout by display order,
//! or one workout by identifier.

use crate::arrangement::{
    is_rearrangement, lemma_drop_last_multiset, lemma_mapped_rearrangement,
    lemma_rearrangement_stays_distinct,
};
use crate::catalog::{catalog, lemma_catalog_invariants, TemplateView};
use crate::document::{decode_phases, decoded_phases, lemma_phase_document_round_trip};
use crate::ident::{hyphenated, id_text, lemma_hyphenated_injective};
use crate::model::{ResponseView, WorkoutResponse};
use crate::store::{
    all_written, distinct_ids, distinct_orders, is_table, lemma_seeded_keeps_table,
    lemma_seeded_stores, lemma_seeding_an_empty_table, row_of, rows_of, seeded, RowView,
    WorkoutRow, WorkoutStore,
};
use vstd::prelude::*;
use vstd::seq_lib::{to_multiset_build, to_multiset_contains, to_multiset_insert, to_multiset_len};

verus! {

/// The workout that a stored row is handed out as: the identifier as
/// text, the phase document read back into phases (none, where the
/// document is not well formed), everything else as stored.
pub open spec fn response_of(row: RowView) -> ResponseView {
    ResponseView {
        id: hyphenated(row.id),
        name: row.name,
        total_duration_minutes: row.total_duration_minutes,
        description: row.description,
        order: row.order,
        phases: decoded_phases(row.phases),
    }
}

/// Every row as it is handed out, in the rows' order.
pub open spec fn responses_of(rows: Seq<RowView>) -> Seq<ResponseView> {
    Seq::new(rows.len(), |k: int| response_of(rows[k]))
}

/// Whether `list` goes up by display rank: no workout stands before one
/// of lower rank.
pub open spec fn ascending(list: Seq<ResponseView>) -> bool {
    forall|a: int, b: int|
        0 <= a < b < list.len() ==> (#[trigger] list[a]).order <= (#[trigger] list[b]).order
}

/// Whether `list` is a listing of `rows`: every stored workout exactly
/// once, in ascending display rank.
pub open spec fn is_listing(list: Seq<ResponseView>, rows: Seq<RowView>) -> bool {
    ascending(list) && is_rearrangement(list, responses_of(rows))
}

/// The listing of `rows`: the stored workouts arranged in ascending
/// display rank. A table has exactly one such arrangement, as no two of
/// its rows share a rank.
pub open spec fn listing(rows: Seq<RowView>) -> Seq<ResponseView> {
    choose|list: Seq<ResponseView>| is_listing(list, rows)
}

/// Whether no two workouts of `list` have the same display rank.
pub open spec fn distinct_ranks(list: Seq<ResponseView>) -> bool {
    forall|a: int, b: int|
        0 <= a < b < list.len() ==> (#[trigger] list[a]).order != (#[trigger] list[b]).order
}

/// The workout whose identifier is written `id`, if one is stored.
pub open spec fn lookup(rows: Seq<RowView>, id: Seq<char>) -> Option<ResponseView>
    decreases rows.len(),
{
    if rows.len() == 0 {
        None
    } else if hyphenated(rows.last().id) == id {
        Some(response_of(rows.last()))
    } else {
        lookup(rows.drop_last(), id)
    }
}

impl WorkoutResponse {
    /// Reads a stored row into the workout that is handed out.
    pub fn from_row(row: &WorkoutRow) -> (workout: WorkoutResponse)
        ensures
            workout.deep_view() == response_of(row.deep_view()),
    {
        WorkoutResponse {
            id: id_text(row.id),
            name: row.name.clone(),
            total_duration_minutes: row.total_duration_minutes,
            description: row.description.clone(),
            order: row.order,
            phases: decode_phases(&row.phases),
        }
    }
}

/// Read access to the workout table.
pub struct WorkoutRepository;

impl WorkoutRepository {
    /// Every stored workout, in ascending display rank, whatever the order
    /// in which the rows were stored. Nothing is changed.
    pub fn find_all(store: &WorkoutStore) -> (workouts: Vec<WorkoutResponse>)
        ensures
            workouts.deep_view() == listing(store.rows()),
            is_listing(workouts.deep_view(), store.rows()),
            is_table(store.rows()),
    {
        let ghost rows = store.rows();
        let count: usize = store.len();
        let mut workouts: Vec<WorkoutResponse> = Vec::new();
        let mut i: usize = 0;
        proof {
            assert(workouts.deep_view() =~= Seq::<ResponseView>::empty());
            assert(responses_of(rows.take(0)) =~= Seq::<ResponseView>::empty());
        }
        while i < count
            invariant
                i <= count,
                count == rows.len(),
                rows == store.rows(),
                ascending(workouts.deep_view()),
                workouts.deep_view().to_multiset() == responses_of(
                    rows.take(i as int),
                ).to_multiset(),
            decreases count - i,
        {
            let workout = WorkoutResponse::from_row(store.row(i));
            let ghost listed = workouts.deep_view();
            let ghost added = workout.deep_view();
            let mut at: usize = workouts.len();
            while at > 0 && workouts[at - 1].order > workout.order
                invariant
                    at <= workouts@.len(),
                    listed == workouts.deep_view(),
                    added.order == workout.order,
                    forall|k: int|
                        at <= k < listed.len() ==> (#[trigger] listed[k]).order > added.order,
                decreases at,
            {
                assert(listed[at - 1].order == workouts@[at - 1].order);
                at -= 1;
            }
            proof {
                if at > 0 {
                    assert(listed[at - 1].order == workouts@[at - 1].order);
                }
            }
            workouts.insert(at, workout);
            proof {
                let after = workouts.deep_view();
                assert(after =~= listed.insert(at as int, added));
                assert forall|a: int, b: int| 0 <= a < b < after.len() implies (
                #[trigger] after[a]).order <= (#[trigger] after[b]).order by {
                    if a < at {
                        assert(after[a] == listed[a]);
                        if a < at - 1 {
                            assert(listed[a].order <= listed[at - 1].order);
                        }
                    } else if a > at {
                        assert(after[a] == listed[a - 1]);
                    }
                    if b < at {
                        assert(after[b] == listed[b]);
                    } else if b > at {
                        assert(after[b] == listed[b - 1]);
                    }
                }
                to_multiset_insert(listed, at as int, added);
                let earlier = responses_of(rows.take(i as int));
                assert(responses_of(rows.take(i + 1)) =~= earlier.push(added));
                to_multiset_build(earlier, added);
            }
            i += 1;
        }
        proof {
            assert(rows.take(count as int) =~= rows);
            let found = workouts.deep_view();
            assert(is_listing(found, rows));
            lemma_listing_is_decided_by_rank(found, listing(rows), rows, rows);
        }
        workouts
    }

    /// The stored workout whose identifier is written `id`, or `None`
    /// where no such workout is stored. An unknown identifier is an
    /// ordinary outcome, not a failure. Nothing is changed.
    pub fn find_by_id(store: &WorkoutStore, id: &str) -> (found: Option<WorkoutResponse>)
        ensures
            found.deep_view() == lookup(store.rows(), id@),
    {
        let ghost rows = store.rows();
        let wanted = id.to_owned();
        let mut i: usize = store.len();
        assert(rows.take(i as int) =~= rows);
        while i > 0
            invariant
                i <= rows.len(),
                rows == store.rows(),
                wanted@ == id@,
                lookup(rows, id@) == lookup(rows.take(i as int), id@),
            decreases i,
        {
            i -= 1;
            let row = store.row(i);
            assert(rows.take(i + 1).last() == row.deep_view());
            assert(rows.take(i + 1).drop_last() =~= rows.take(i as int));
            if id_text(row.id) == wanted {
                return Some(WorkoutResponse::from_row(row));
            }
        }
        None
    }
}

/// Not found: a lookup gives nothing exactly when no stored identifier is
/// written `id`; and what a lookup gives carries the identifier that was
/// asked for.
pub proof fn lemma_lookup_absent(rows: Seq<RowView>, id: Seq<char>)
    ensures
        lookup(rows, id) is None <==> forall|k: int|
            0 <= k < rows.len() ==> hyphenated((#[trigger] rows[k]).id) != id,
        lookup(rows, id) matches Some(workout) ==> workout.id == id,
    decreases rows.len(),
{
    if rows.len() > 0 {
        let earlier = rows.drop_last();
        lemma_lookup_absent(earlier, id);
        if hyphenated(rows.last().id) == id {
            assert(hyphenated(rows[rows.len() - 1].id) == id);
        } else if lookup(earlier, id) is None {
            assert forall|k: int| 0 <= k < rows.len() implies hyphenated((#[trigger] rows[k]).id)
                != id by {
                if k < earlier.len() {
                    assert(hyphenated(earlier[k].id) != id);
                }
            }
        } else {
            let k = choose|k: int|
                0 <= k < earlier.len() && hyphenated((#[trigger] earlier[k]).id) == id;
            assert(hyphenated(rows[k].id) == id);
        }
    }
}

/// Found: in a table of distinct identifiers, looking up the text of a
/// stored identifier gives that row's workout and no other.
pub proof fn lemma_lookup_finds(rows: Seq<RowView>, k: int)
    requires
        distinct_ids(rows),
        0 <= k < rows.len(),
    ensures
        lookup(rows, hyphenated(rows[k].id)) == Some(response_of(rows[k])),
    decreases rows.len(),
{
    let last = rows.len() - 1;
    if hyphenated(rows.last().id) == hyphenated(rows[k].id) {
        lemma_hyphenated_injective(rows[last].id, rows[k].id);
        assert(k == last);
    } else {
        let earlier = rows.drop_last();
        assert(earlier[k] == rows[k]);
        assert forall|i: int, j: int| 0 <= i < j < earlier.len() implies (#[trigger] earlier[i]).id
            != (#[trigger] earlier[j]).id by {
            assert(earlier[i] == rows[i]);
            assert(earlier[j] == rows[j]);
        }
        lemma_lookup_finds(earlier, k);
    }
}

/// Order preservation: a catalog entry that is stored and read back has
/// the phases it was written with, in the same order.
pub proof fn lemma_stored_phases_preserved(entry: TemplateView)
    ensures
        response_of(row_of(entry)).phases == entry.phases,
{
    lemma_phase_document_round_trip(entry.phases);
}

/// Order preservation, end to end: after a seeding that wrote every
/// entry, looking up the identifier of an entry that no later entry
/// overrides gives the workout of that entry, and its phase sequence
/// comes back exactly as it was composed.
pub proof fn lemma_seeded_lookup(rows: Seq<RowView>, entries: Seq<TemplateView>, i: int)
    requires
        is_table(rows),
        all_written(rows, entries),
        0 <= i < entries.len(),
        forall|j: int| i < j < entries.len() ==> (#[trigger] entries[j]).id != entries[i].id,
    ensures
        lookup(seeded(rows, entries), hyphenated(entries[i].id)) == Some(
            response_of(row_of(entries[i])),
        ),
        response_of(row_of(entries[i])).phases == entries[i].phases,
{
    let after = seeded(rows, entries);
    lemma_seeded_keeps_table(rows, entries);
    lemma_seeded_stores(rows, entries, i);
    let at = choose|k: int| 0 <= k < after.len() && after[k] == row_of(entries[i]);
    lemma_lookup_finds(after, at);
    lemma_stored_phases_preserved(entries[i]);
}

/// Order preservation in a listing: after a seeding that wrote every
/// entry, every listing holds, for each entry that no later entry
/// overrides, a workout with exactly that entry's phases.
pub proof fn lemma_seeded_listing(
    rows: Seq<RowView>,
    entries: Seq<TemplateView>,
    list: Seq<ResponseView>,
    i: int,
)
    requires
        all_written(rows, entries),
        0 <= i < entries.len(),
        forall|j: int| i < j < entries.len() ==> (#[trigger] entries[j]).id != entries[i].id,
        is_listing(list, seeded(rows, entries)),
    ensures
        exists|k: int|
            0 <= k < list.len() && #[trigger] list[k] == response_of(row_of(entries[i]))
                && list[k].phases == entries[i].phases,
{
    let after = seeded(rows, entries);
    lemma_seeded_stores(rows, entries, i);
    lemma_stored_phases_preserved(entries[i]);
    let at = choose|k: int| 0 <= k < after.len() && after[k] == row_of(entries[i]);
    let workout = response_of(row_of(entries[i]));
    assert(responses_of(after)[at] == workout);
    assert(responses_of(after).contains(workout));
    to_multiset_contains(responses_of(after), workout);
    to_multiset_contains(list, workout);
    let k = choose|k: int| 0 <= k < list.len() && list[k] == workout;
    assert(list[k] == workout);
}

/// Two ascending arrangements of the same workouts are the same
/// arrangement, where no two workouts share a rank.
pub proof fn lemma_ascending_is_unique(first: Seq<ResponseView>, second: Seq<ResponseView>)
    requires
        ascending(first),
        ascending(second),
        distinct_ranks(first),
        is_rearrangement(first, second),
    ensures
        first == second,
    decreases first.len(),
{
    to_multiset_len(first);
    to_multiset_len(second);
    if first.len() > 0 {
        let end = first.len() - 1;
        let x = first[end];
        let y = second[end];
        assert(first.contains(x));
        assert(second.contains(y));
        to_multiset_contains(first, x);
        to_multiset_contains(second, x);
        to_multiset_contains(first, y);
        to_multiset_contains(second, y);
        let i = choose|i: int| 0 <= i < first.len() && first[i] == y;
        let j = choose|j: int| 0 <= j < second.len() && second[j] == x;
        if j < end {
            assert(second[j].order <= second[end].order);
        }
        if i < end {
            assert(first[i].order <= first[end].order);
            assert(first[i].order != first[end].order);
        }
        assert(x == y);
        lemma_drop_last_multiset(first);
        lemma_drop_last_multiset(second);
        let front_a = first.drop_last();
        let front_b = second.drop_last();
        assert forall|a: int, b: int| 0 <= a < b < front_a.len() implies (
        #[trigger] front_a[a]).order <= (#[trigger] front_a[b]).order && front_a[a].order
            != front_a[b].order by {
            assert(front_a[a] == first[a]);
            assert(front_a[b] == first[b]);
        }
        assert forall|a: int, b: int| 0 <= a < b < front_b.len() implies (
        #[trigger] front_b[a]).order <= (#[trigger] front_b[b]).order by {
            assert(front_b[a] == second[a]);
            assert(front_b[b] == second[b]);
        }
        lemma_ascending_is_unique(front_a, front_b);
        assert(first =~= front_a.push(x));
        assert(second =~= front_b.push(y));
    }
}

/// List ordering: where no two stored workouts share a rank, the listing
/// is decided by the ranks alone. Two tables that hold the same rows, in
/// whatever order they were stored and whatever their identifiers, have
/// one and the same listing.
pub proof fn lemma_listing_is_decided_by_rank(
    first: Seq<ResponseView>,
    second: Seq<ResponseView>,
    rows: Seq<RowView>,
    others: Seq<RowView>,
)
    requires
        is_listing(first, rows),
        is_listing(second, others),
        is_rearrangement(rows, others),
        distinct_orders(rows),
    ensures
        first == second,
{
    let handed_out = |row: RowView| response_of(row);
    let rank = |workout: ResponseView| workout.order;
    let source = responses_of(rows);
    assert(source =~= rows.map_values(handed_out));
    assert(responses_of(others) =~= others.map_values(handed_out));
    assert forall|a: int, b: int| 0 <= a < b < source.len() implies rank(#[trigger] source[a])
        != rank(#[trigger] source[b]) by {
        assert(rows[a].order != rows[b].order);
    }
    lemma_rearrangement_stays_distinct(first, source, rank);
    assert forall|a: int, b: int| 0 <= a < b < first.len() implies (#[trigger] first[a]).order != (
    #[trigger] first[b]).order by {
        assert(rank(first[a]) != rank(first[b]));
    }
    lemma_mapped_rearrangement(rows, others, handed_out);
    lemma_ascending_is_unique(first, second);
}

/// The catalog lists in catalog order: a table that starts empty and is
/// seeded with the eight catalog entries, in any seeding order, lists
/// them with ranks 1 to 8, each workout with the identifier and the
/// phases of its catalog entry.
pub proof fn lemma_catalog_listing(ids: Seq<u128>, entries: Seq<TemplateView>)
    requires
        ids.len() == 8,
        ids.no_duplicates(),
        is_rearrangement(entries, catalog(ids)),
    ensures
        listing(seeded(Seq::empty(), entries)) == responses_of(rows_of(catalog(ids))),
        listing(seeded(Seq::empty(), entries)).len() == 8,
        forall|k: int|
            0 <= k < 8 ==> {
                &&& (#[trigger] listing(seeded(Seq::empty(), entries))[k]).order == k + 1
                &&& listing(seeded(Seq::empty(), entries))[k].id == hyphenated(ids[k])
                &&& listing(seeded(Seq::empty(), entries))[k].phases == catalog(ids)[k].phases
            },
{
    let authored = catalog(ids);
    let identifier = |entry: TemplateView| entry.id;
    let rank = |entry: TemplateView| entry.order;
    let stored = |entry: TemplateView| row_of(entry);
    let handed_out = |row: RowView| response_of(row);
    lemma_catalog_invariants(ids);
    assert forall|i: int, j: int| 0 <= i < j < authored.len() implies rank(#[trigger] authored[i])
        != rank(#[trigger] authored[j]) && identifier(authored[i]) != identifier(authored[j]) by {
        assert(authored[i].order != authored[j].order);
        assert(authored[i].id == ids[i]);
        assert(authored[j].id == ids[j]);
    }
    lemma_rearrangement_stays_distinct(entries, authored, rank);
    lemma_rearrangement_stays_distinct(entries, authored, identifier);
    assert forall|i: int, j: int| 0 <= i < j < entries.len() implies (#[trigger] entries[i]).order
        != (#[trigger] entries[j]).order && entries[i].id != entries[j].id by {
        assert(rank(entries[i]) != rank(entries[j]));
        assert(identifier(entries[i]) != identifier(entries[j]));
    }
    lemma_seeding_an_empty_table(entries);
    lemma_mapped_rearrangement(entries, authored, stored);
    assert(rows_of(entries) =~= entries.map_values(stored));
    assert(rows_of(authored) =~= authored.map_values(stored));
    lemma_mapped_rearrangement(rows_of(authored), rows_of(entries), handed_out);
    assert(responses_of(rows_of(entries)) =~= rows_of(entries).map_values(handed_out));
    assert(responses_of(rows_of(authored)) =~= rows_of(authored).map_values(handed_out));
    let expected = responses_of(rows_of(authored));
    assert forall|k: int| 0 <= k < 8 implies {
        &&& (#[trigger] expected[k]).order == k + 1
        &&& expected[k].id == hyphenated(ids[k])
        &&& expected[k].phases == authored[k].phases
    } by {
        lemma_stored_phases_preserved(authored[k]);
    }
    assert forall|i: int, j: int| 0 <= i < j < rows_of(authored).len() implies (
    #[trigger] rows_of(authored)[i]).order != (#[trigger] rows_of(authored)[j]).order by {
        assert(authored[i].order != authored[j].order);
    }
    assert(is_listing(expected, rows_of(entries)));
    lemma_listing_is_decided_by_rank(
        expected,
        listing(rows_of(entries)),
        rows_of(authored),
        rows_of(entries),
    );
}

} // verus!
