//! The workout table: rows keyed by identifier, each with a display rank
//! of its own, written by upsert.

use crate::catalog::{
    catalog, lemma_catalog_entry_but_for_id, lemma_catalog_invariants, TemplateView,
    WorkoutTemplate,
};
use crate::document::{encode_phases, encoded_phases, Json, JsonView};
use vstd::prelude::*;

verus! {

/// One stored workout. The phases are held as a single document, so a
/// workout and its phases are always written and read together.
#[derive(Debug, PartialEq, Eq)]
pub struct WorkoutRow {
    pub id: u128,
    pub name: String,
    pub total_duration_minutes: i32,
    pub description: String,
    /// The phase document; whatever was stored, well formed or not.
    pub phases: Json,
    pub order: i32,
}

/// What a [`WorkoutRow`] is, mathematically.
pub struct RowView {
    pub id: u128,
    pub name: Seq<char>,
    pub total_duration_minutes: i32,
    pub description: Seq<char>,
    pub phases: JsonView,
    pub order: i32,
}

impl DeepView for WorkoutRow {
    type V = RowView;

    open spec fn deep_view(&self) -> RowView {
        RowView {
            id: self.id,
            name: self.name@,
            total_duration_minutes: self.total_duration_minutes,
            description: self.description@,
            phases: self.phases.deep_view(),
            order: self.order,
        }
    }
}

/// The row under which a catalog entry is stored: every field carried
/// over, the phases written as one document.
pub open spec fn row_of(entry: TemplateView) -> RowView {
    RowView {
        id: entry.id,
        name: entry.name,
        total_duration_minutes: entry.total_duration_minutes,
        description: entry.description,
        phases: encoded_phases(entry.phases),
        order: entry.order,
    }
}

/// Whether some row of `rows` has the identifier `id`.
pub open spec fn has_id(rows: Seq<RowView>, id: u128) -> bool {
    exists|k: int| 0 <= k < rows.len() && (#[trigger] rows[k]).id == id
}

/// Whether no identifier occurs in two rows.
pub open spec fn distinct_ids(rows: Seq<RowView>) -> bool {
    forall|i: int, j: int|
        0 <= i < j < rows.len() ==> (#[trigger] rows[i]).id != (#[trigger] rows[j]).id
}

/// Whether no two rows have the same display rank.
pub open spec fn distinct_orders(rows: Seq<RowView>) -> bool {
    forall|i: int, j: int|
        0 <= i < j < rows.len() ==> (#[trigger] rows[i]).order != (#[trigger] rows[j]).order
}

/// Whether `rows` can be the rows of a table: identifiers are unique, and
/// so are display ranks.
pub open spec fn is_table(rows: Seq<RowView>) -> bool {
    distinct_ids(rows) && distinct_orders(rows)
}

/// Whether the display rank of `row` is held by a stored row with another
/// identifier, so that `row` cannot be written.
pub open spec fn rank_taken(rows: Seq<RowView>, row: RowView) -> bool {
    exists|k: int|
        0 <= k < rows.len() && (#[trigger] rows[k]).order == row.order && rows[k].id != row.id
}

/// The table with `row` put in place: where its identifier is already
/// stored, `row` takes the place of the stored row, field by field;
/// otherwise `row` is added at the end.
pub open spec fn placed(rows: Seq<RowView>, row: RowView) -> Seq<RowView> {
    if has_id(rows, row.id) {
        Seq::new(
            rows.len(),
            |k: int|
                if rows[k].id == row.id {
                    row
                } else {
                    rows[k]
                },
        )
    } else {
        rows.push(row)
    }
}

/// The table after an upsert of `row`: unchanged where the rank of `row`
/// is taken, otherwise with `row` put in place.
pub open spec fn upserted(rows: Seq<RowView>, row: RowView) -> Seq<RowView> {
    if rank_taken(rows, row) {
        rows
    } else {
        placed(rows, row)
    }
}

/// Whether no identifier occurs in two entries.
pub open spec fn distinct_entries(entries: Seq<TemplateView>) -> bool {
    forall|i: int, j: int|
        0 <= i < j < entries.len() ==> (#[trigger] entries[i]).id != (#[trigger] entries[j]).id
}

/// Whether no two entries have the same display rank.
pub open spec fn distinct_entry_orders(entries: Seq<TemplateView>) -> bool {
    forall|i: int, j: int|
        0 <= i < j < entries.len() ==> (#[trigger] entries[i]).order != (
        #[trigger] entries[j]).order
}

/// The rows under which `entries` are stored, one per entry, in order.
pub open spec fn rows_of(entries: Seq<TemplateView>) -> Seq<RowView> {
    Seq::new(entries.len(), |i: int| row_of(entries[i]))
}

/// The table after every entry of `entries` is upserted, first to last.
/// An entry that cannot be written is passed over; the entries after it
/// are upserted all the same.
pub open spec fn seeded(rows: Seq<RowView>, entries: Seq<TemplateView>) -> Seq<RowView>
    decreases entries.len(),
{
    if entries.len() == 0 {
        rows
    } else {
        upserted(seeded(rows, entries.drop_last()), row_of(entries.last()))
    }
}

/// Whether entry `index` is written when `entries` are upserted into
/// `rows`: its rank is free in the table as the entries before it left it.
pub open spec fn is_written(rows: Seq<RowView>, entries: Seq<TemplateView>, index: int) -> bool {
    !rank_taken(seeded(rows, entries.take(index)), row_of(entries[index]))
}

/// For each entry, whether it is written when `entries` are upserted into
/// `rows`.
pub open spec fn outcomes(rows: Seq<RowView>, entries: Seq<TemplateView>) -> Seq<bool> {
    Seq::new(entries.len(), |index: int| is_written(rows, entries, index))
}

/// Whether every entry is written when `entries` are upserted into `rows`.
pub open spec fn all_written(rows: Seq<RowView>, entries: Seq<TemplateView>) -> bool {
    forall|index: int| 0 <= index < entries.len() ==> #[trigger] is_written(rows, entries, index)
}

/// Why a row was not written.
#[derive(Debug, Clone, Copy, PartialEq, Eq)]
pub enum StoreError {
    /// Another workout holds the display rank of the row.
    RankTaken,
}

impl WorkoutRow {
    /// The row that stores `template`.
    pub fn from_template(template: &WorkoutTemplate) -> (row: WorkoutRow)
        ensures
            row.deep_view() == row_of(template.deep_view()),
    {
        WorkoutRow {
            id: template.id,
            name: template.name.clone(),
            total_duration_minutes: template.total_duration_minutes,
            description: template.description.clone(),
            phases: encode_phases(&template.phases),
            order: template.order,
        }
    }
}

/// The workout table, held in memory. No identifier is stored twice, and
/// no display rank.
pub struct WorkoutStore {
    rows: Vec<WorkoutRow>,
}

impl WorkoutStore {
    #[verifier::type_invariant]
    spec fn holds_a_table(self) -> bool {
        is_table(self.rows.deep_view())
    }

    /// The rows of the table, in the order in which their identifiers
    /// were first stored.
    pub closed spec fn rows(&self) -> Seq<RowView> {
        self.rows.deep_view()
    }

    /// An empty table.
    pub fn new() -> (store: WorkoutStore)
        ensures
            store.rows() == Seq::<RowView>::empty(),
    {
        let store = WorkoutStore { rows: Vec::new() };
        assert(store.rows.deep_view() =~= Seq::<RowView>::empty());
        store
    }

    /// The number of stored workouts.
    pub fn len(&self) -> (count: usize)
        ensures
            count == self.rows().len(),
            is_table(self.rows()),
    {
        proof {
            use_type_invariant(self);
        }
        self.rows.len()
    }

    /// The stored row at position `index`.
    pub fn row(&self, index: usize) -> (row: &WorkoutRow)
        requires
            index < self.rows().len(),
        ensures
            row.deep_view() == self.rows()[index as int],
    {
        &self.rows[index]
    }

    /// Inserts `row`, or overwrites every field of the row stored under
    /// its identifier. Where another workout holds the display rank of
    /// `row`, nothing is written and the table stays as it was.
    pub fn upsert(&mut self, row: WorkoutRow) -> (outcome: Result<(), StoreError>)
        ensures
            outcome is Err <==> rank_taken(old(self).rows(), row.deep_view()),
            outcome matches Err(error) ==> error == StoreError::RankTaken,
            final(self).rows() == upserted(old(self).rows(), row.deep_view()),
            is_table(final(self).rows()),
    {
        proof {
            use_type_invariant(&*self);
        }
        let ghost before = self.rows.deep_view();
        let ghost new_row = row.deep_view();
        let mut holder: usize = 0;
        while holder < self.rows.len() && !(self.rows[holder].order == row.order
            && self.rows[holder].id != row.id)
            invariant
                holder <= self.rows@.len(),
                before == self.rows.deep_view(),
                new_row == row.deep_view(),
                forall|j: int|
                    0 <= j < holder ==> !((#[trigger] before[j]).order == new_row.order
                        && before[j].id != new_row.id),
            decreases self.rows@.len() - holder,
        {
            holder += 1;
        }
        if holder < self.rows.len() {
            assert(before[holder as int].order == new_row.order && before[holder as int].id
                != new_row.id);
            return Err(StoreError::RankTaken);
        }
        assert(!rank_taken(before, new_row));
        // The rows are taken out while they change and put back in one step.
        let mut rows: Vec<WorkoutRow> = Vec::new();
        assert(rows.deep_view() =~= Seq::<RowView>::empty());
        core::mem::swap(&mut self.rows, &mut rows);
        let mut k: usize = 0;
        while k < rows.len() && rows[k].id != row.id
            invariant
                k <= rows@.len(),
                before == rows.deep_view(),
                forall|j: int| 0 <= j < k ==> (#[trigger] before[j]).id != row.id,
            decreases rows@.len() - k,
        {
            k += 1;
        }
        if k < rows.len() {
            assert(before[k as int].id == new_row.id);
            rows[k] = row;
            assert(rows.deep_view() =~= placed(before, new_row));
        } else {
            assert(!has_id(before, new_row.id));
            rows.push(row);
            assert(rows.deep_view() =~= placed(before, new_row));
        }
        proof {
            lemma_upsert_keeps_table(before, new_row);
        }
        core::mem::swap(&mut self.rows, &mut rows);
        Ok(())
    }

    /// Upserts every entry of `templates`, first to last, and says for
    /// each entry whether it was written. An entry that cannot be written
    /// does not keep the entries after it from being written.
    pub fn seed(&mut self, templates: &Vec<WorkoutTemplate>) -> (written: Vec<bool>)
        ensures
            final(self).rows() == seeded(old(self).rows(), templates.deep_view()),
            written@ == outcomes(old(self).rows(), templates.deep_view()),
            is_table(final(self).rows()),
    {
        proof {
            use_type_invariant(&*self);
        }
        let ghost entries = templates.deep_view();
        let ghost start = self.rows();
        assert(entries.take(0) =~= Seq::empty());
        let mut written: Vec<bool> = Vec::new();
        let mut i: usize = 0;
        while i < templates.len()
            invariant
                i <= templates@.len(),
                entries == templates.deep_view(),
                self.rows() == seeded(start, entries.take(i as int)),
                is_table(self.rows()),
                written@.len() == i,
                forall|j: int| 0 <= j < i ==> #[trigger] written@[j] == is_written(start, entries, j),
            decreases templates@.len() - i,
        {
            let outcome = self.upsert(WorkoutRow::from_template(&templates[i]));
            proof {
                assert(entries.take(i + 1).drop_last() =~= entries.take(i as int));
                assert(entries.take(i + 1).last() == templates@[i as int].deep_view());
            }
            written.push(outcome.is_ok());
            i += 1;
        }
        assert(entries.take(i as int) =~= entries);
        assert(written@ =~= outcomes(start, entries));
        written
    }
}

/// What putting a row in place does: afterwards the row is stored, every
/// row with another identifier is as it was and where it was, and at most
/// one row is added.
pub proof fn lemma_placed(rows: Seq<RowView>, row: RowView)
    ensures
        placed(rows, row).contains(row),
        rows.len() <= placed(rows, row).len() <= rows.len() + 1,
        placed(rows, row).len() == rows.len() <==> has_id(rows, row.id),
        forall|k: int|
            0 <= k < rows.len() ==> #[trigger] placed(rows, row)[k] == (if rows[k].id == row.id {
                row
            } else {
                rows[k]
            }),
        forall|k: int| 0 <= k < placed(rows, row).len() ==> k < rows.len() || placed(rows, row)[k] == row,
{
    let after = placed(rows, row);
    if has_id(rows, row.id) {
        let hit = choose|k: int| 0 <= k < rows.len() && (#[trigger] rows[k]).id == row.id;
        assert(after[hit] == row);
    } else {
        assert(after[rows.len() as int] == row);
        assert forall|k: int| 0 <= k < rows.len() implies #[trigger] after[k] == (if rows[k].id
            == row.id {
            row
        } else {
            rows[k]
        }) by {
            assert(rows[k].id != row.id);
        }
    }
}

/// An upsert leaves a table a table: identifiers stay unique, and so do
/// display ranks.
pub proof fn lemma_upsert_keeps_table(rows: Seq<RowView>, row: RowView)
    requires
        is_table(rows),
    ensures
        is_table(upserted(rows, row)),
{
    let after = upserted(rows, row);
    if !rank_taken(rows, row) {
        lemma_placed(rows, row);
        assert forall|i: int, j: int| 0 <= i < j < after.len() implies (#[trigger] after[i]).id != (
        #[trigger] after[j]).id && after[i].order != after[j].order by {
            if j < rows.len() {
                assert(rows[i].id != rows[j].id);
                assert(rows[i].order != rows[j].order);
            } else {
                assert(!has_id(rows, row.id));
                assert(rows[i].id != row.id);
            }
        }
    }
}

/// An upsert changes nothing where the row cannot be written, and
/// nothing where the very same row is stored already.
pub proof fn lemma_upsert_settled(rows: Seq<RowView>, row: RowView)
    requires
        is_table(rows),
        rank_taken(rows, row) || rows.contains(row),
    ensures
        upserted(rows, row) == rows,
{
    if !rank_taken(rows, row) {
        let at = choose|k: int| 0 <= k < rows.len() && rows[k] == row;
        assert(rows[at].id == row.id);
        lemma_placed(rows, row);
        assert forall|k: int| 0 <= k < rows.len() implies placed(rows, row)[k] == rows[k] by {
            if rows[k].id == row.id && k != at {
                if k < at {
                    assert(rows[k].id != rows[at].id);
                } else {
                    assert(rows[at].id != rows[k].id);
                }
            }
        }
        assert(placed(rows, row) =~= rows);
    }
}

/// Seeding leaves a table a table.
pub proof fn lemma_seeded_keeps_table(rows: Seq<RowView>, entries: Seq<TemplateView>)
    requires
        is_table(rows),
    ensures
        is_table(seeded(rows, entries)),
    decreases entries.len(),
{
    if entries.len() > 0 {
        lemma_seeded_keeps_table(rows, entries.drop_last());
        lemma_upsert_keeps_table(seeded(rows, entries.drop_last()), row_of(entries.last()));
    }
}

/// Seeding with entries that are each stored already, field for field, or
/// cannot be written, changes nothing.
pub proof fn lemma_seeding_settled_entries(rows: Seq<RowView>, entries: Seq<TemplateView>)
    requires
        is_table(rows),
        forall|i: int|
            0 <= i < entries.len() ==> rank_taken(rows, row_of(#[trigger] entries[i]))
                || rows.contains(row_of(entries[i])),
    ensures
        seeded(rows, entries) == rows,
    decreases entries.len(),
{
    if entries.len() > 0 {
        let earlier = entries.drop_last();
        assert forall|i: int| 0 <= i < earlier.len() implies rank_taken(
            rows,
            row_of(#[trigger] earlier[i]),
        ) || rows.contains(row_of(earlier[i])) by {
            assert(earlier[i] == entries[i]);
        }
        lemma_seeding_settled_entries(rows, earlier);
        assert(entries.last() == entries[entries.len() - 1]);
        lemma_upsert_settled(rows, row_of(entries.last()));
    }
}

/// Where every entry is written, the entries before the last are all
/// written too, and the last step puts the last entry in place.
proof fn lemma_all_written_step(rows: Seq<RowView>, entries: Seq<TemplateView>)
    requires
        entries.len() > 0,
        all_written(rows, entries),
    ensures
        all_written(rows, entries.drop_last()),
        seeded(rows, entries) == placed(seeded(rows, entries.drop_last()), row_of(entries.last())),
{
    let earlier = entries.drop_last();
    assert forall|index: int| 0 <= index < earlier.len() implies #[trigger] is_written(
        rows,
        earlier,
        index,
    ) by {
        assert(is_written(rows, entries, index));
        assert(earlier.take(index) =~= entries.take(index));
    }
    assert(is_written(rows, entries, entries.len() - 1));
    assert(entries.take(entries.len() - 1) =~= earlier);
}

/// Latest definition: where every entry is written, the table holds, for
/// each entry that no later entry overrides, exactly the row of that
/// entry, field for field.
pub proof fn lemma_seeded_stores(rows: Seq<RowView>, entries: Seq<TemplateView>, i: int)
    requires
        all_written(rows, entries),
        0 <= i < entries.len(),
        forall|j: int| i < j < entries.len() ==> (#[trigger] entries[j]).id != entries[i].id,
    ensures
        seeded(rows, entries).contains(row_of(entries[i])),
    decreases entries.len(),
{
    let earlier = entries.drop_last();
    let before = seeded(rows, earlier);
    let last = row_of(entries.last());
    lemma_all_written_step(rows, entries);
    lemma_placed(before, last);
    if i < entries.len() - 1 {
        assert(earlier[i] == entries[i]);
        assert forall|j: int| i < j < earlier.len() implies (#[trigger] earlier[j]).id
            != earlier[i].id by {
            assert(earlier[j] == entries[j]);
        }
        lemma_seeded_stores(rows, earlier, i);
        let at = choose|k: int| 0 <= k < before.len() && before[k] == row_of(entries[i]);
        assert(entries[entries.len() - 1].id != entries[i].id);
        assert(placed(before, last)[at] == row_of(entries[i]));
    }
}

/// Idempotent upsert: a second run of the seeder over the same entries
/// leaves the table exactly as the first run left it, with one row per
/// identifier and every field as the entries define it. This holds where
/// the first run wrote every entry and no identifier occurs in two entries.
pub proof fn lemma_seeding_is_idempotent(rows: Seq<RowView>, entries: Seq<TemplateView>)
    requires
        is_table(rows),
        distinct_entries(entries),
        all_written(rows, entries),
    ensures
        is_table(seeded(rows, entries)),
        forall|i: int|
            0 <= i < entries.len() ==> seeded(rows, entries).contains(row_of(#[trigger] entries[i])),
        seeded(seeded(rows, entries), entries) == seeded(rows, entries),
{
    let once = seeded(rows, entries);
    lemma_seeded_keeps_table(rows, entries);
    assert forall|i: int| 0 <= i < entries.len() implies once.contains(
        row_of(#[trigger] entries[i]),
    ) by {
        lemma_seeded_stores(rows, entries, i);
    }
    lemma_seeding_settled_entries(once, entries);
}

/// Seeding an empty table with entries of distinct identifiers and
/// distinct ranks writes every entry: the table holds one row per entry,
/// in the entries' order.
pub proof fn lemma_seeding_an_empty_table(entries: Seq<TemplateView>)
    requires
        distinct_entries(entries),
        distinct_entry_orders(entries),
    ensures
        seeded(Seq::empty(), entries) == rows_of(entries),
        all_written(Seq::empty(), entries),
    decreases entries.len(),
{
    let nothing = Seq::<RowView>::empty();
    if entries.len() > 0 {
        let earlier = entries.drop_last();
        let last = entries.last();
        assert forall|i: int, j: int| 0 <= i < j < earlier.len() implies (#[trigger] earlier[i]).id
            != (#[trigger] earlier[j]).id && earlier[i].order != earlier[j].order by {
            assert(earlier[i] == entries[i]);
            assert(earlier[j] == entries[j]);
        }
        lemma_seeding_an_empty_table(earlier);
        let before = rows_of(earlier);
        assert forall|k: int| 0 <= k < before.len() implies (#[trigger] before[k]).id != row_of(
            last,
        ).id && before[k].order != row_of(last).order by {
            assert(entries[k].id != entries[entries.len() - 1].id);
            assert(entries[k].order != entries[entries.len() - 1].order);
        }
        assert(!rank_taken(before, row_of(last)));
        assert(!has_id(before, row_of(last).id));
        assert(before.push(row_of(last)) =~= rows_of(entries));
        assert forall|index: int| 0 <= index < entries.len() implies #[trigger] is_written(
            nothing,
            entries,
            index,
        ) by {
            if index < earlier.len() {
                assert(is_written(nothing, earlier, index));
                assert(earlier.take(index) =~= entries.take(index));
            } else {
                assert(entries.take(index) =~= earlier);
            }
        }
    } else {
        assert(rows_of(entries) =~= nothing);
    }
}

/// Re-seeding without duplication: once the catalog is stored, seeding it
/// again changes nothing, whatever identifiers the second catalog was
/// built around. An entry that comes with its stored identifier is
/// already stored field for field; one that comes with any other
/// identifier finds its rank taken and is passed over.
pub proof fn lemma_catalog_reseeding(ids: Seq<u128>, again: Seq<u128>)
    requires
        ids.len() == 8,
        ids.no_duplicates(),
    ensures
        seeded(Seq::empty(), catalog(ids)) == rows_of(catalog(ids)),
        is_table(rows_of(catalog(ids))),
        seeded(rows_of(catalog(ids)), catalog(again)) == rows_of(catalog(ids)),
{
    let first = catalog(ids);
    let second = catalog(again);
    let stored = rows_of(first);
    lemma_catalog_invariants(ids);
    lemma_catalog_invariants(again);
    assert forall|i: int, j: int| 0 <= i < j < first.len() implies (#[trigger] first[i]).id != (
    #[trigger] first[j]).id by {
        assert(first[i].id == ids[i]);
        assert(first[j].id == ids[j]);
    }
    lemma_seeding_an_empty_table(first);
    lemma_seeded_keeps_table(Seq::empty(), first);
    assert forall|i: int| 0 <= i < second.len() implies rank_taken(
        stored,
        row_of(#[trigger] second[i]),
    ) || stored.contains(row_of(second[i])) by {
        lemma_catalog_entry_but_for_id(ids, again, i);
        assert(stored[i] == row_of(first[i]));
        if again[i] == ids[i] {
            assert(stored[i] == row_of(second[i]));
        } else {
            assert(stored[i].order == row_of(second[i]).order);
            assert(stored[i].id != row_of(second[i]).id);
        }
    }
    lemma_seeding_settled_entries(stored, second);
}

} // verus!
