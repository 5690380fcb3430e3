//! Order: what the steps of a ready batch apply, and in which order they come.

use crate::codec::table_bytes;
use crate::laws::lemma_dispatch_sends;
use crate::model::{commit_all, commit_entry, leads, ready, DriverView};
use crate::step::{BatchView, EntryKind, EntryView, StepView};
use vstd::prelude::*;

verus! {

/// What a list of steps hands to the application: the index and the payload of each
/// `Apply` step, in the order of the steps.
pub open spec fn applied<C>(steps: Seq<StepView<C>>) -> Seq<(u64, Seq<u8>)>
    decreases steps.len(),
{
    if steps.len() == 0 {
        Seq::empty()
    } else {
        let before = applied(steps.drop_last());
        match steps.last() {
            StepView::Apply { index, payload } => before.push((index, payload)),
            _ => before,
        }
    }
}

/// The operations among committed entries: the index and the payload of each entry of
/// the normal kind that has a payload, in the order of the entries.
pub open spec fn operations(entries: Seq<EntryView>) -> Seq<(u64, Seq<u8>)>
    decreases entries.len(),
{
    if entries.len() == 0 {
        Seq::empty()
    } else {
        let before = operations(entries.drop_last());
        let last = entries.last();
        if last.kind == EntryKind::Normal && last.data.len() > 0 {
            before.push((last.index, last.data))
        } else {
            before
        }
    }
}

/// Each index is smaller than the next.
pub open spec fn ascending(indices: Seq<u64>) -> bool {
    forall|i: int, j: int| 0 <= i < j < indices.len() ==> indices[i] < indices[j]
}

/// The indices of committed entries.
pub open spec fn entry_indices(entries: Seq<EntryView>) -> Seq<u64> {
    entries.map_values(|e: EntryView| e.index)
}

/// The indices of what is applied.
pub open spec fn applied_indices(applied: Seq<(u64, Seq<u8>)>) -> Seq<u64> {
    applied.map_values(|a: (u64, Seq<u8>)| a.0)
}

/// What two lists of steps apply, one after the other, is what their concatenation
/// applies.
proof fn lemma_applied_add<C>(first: Seq<StepView<C>>, second: Seq<StepView<C>>)
    ensures
        applied(first + second) == applied(first) + applied(second),
    decreases second.len(),
{
    if second.len() > 0 {
        lemma_applied_add(first, second.drop_last());
        assert((first + second).drop_last() =~= first + second.drop_last());
    }
}

/// The operations of two lists of entries, one after the other, are those of their
/// concatenation.
proof fn lemma_operations_add(first: Seq<EntryView>, second: Seq<EntryView>)
    ensures
        operations(first + second) == operations(first) + operations(second),
    decreases second.len(),
{
    if second.len() > 0 {
        lemma_operations_add(first, second.drop_last());
        assert((first + second).drop_last() =~= first + second.drop_last());
    }
}

/// Steps of which none is an `Apply` apply nothing.
proof fn lemma_applied_none<C>(steps: Seq<StepView<C>>)
    requires
        forall|i: int| 0 <= i < steps.len() ==> !(#[trigger] steps[i] is Apply),
    ensures
        applied(steps) == Seq::<(u64, Seq<u8>)>::empty(),
    decreases steps.len(),
{
    if steps.len() > 0 {
        lemma_applied_none(steps.drop_last());
    }
}

/// One committed entry that raises no fault applies its operation, if it is one.
proof fn lemma_entry_applies<C>(s: DriverView<C>, entry: EntryView)
    requires
        commit_entry(s, entry).fault is None,
    ensures
        applied(commit_entry(s, entry).steps) == operations(seq![entry]),
{
    let steps = commit_entry(s, entry).steps;
    assert(operations(seq![entry].drop_last()) =~= Seq::empty());
    if entry.data.len() > 0 && entry.kind == EntryKind::Normal {
        let apply = seq![StepView::<C>::Apply { index: entry.index, payload: entry.data }];
        let closed = steps.subrange(1, steps.len() as int);
        assert(steps =~= apply + closed);
        lemma_applied_add(apply, closed);
        lemma_applied_none(closed);
        assert(applied(apply.drop_last()) =~= Seq::empty());
    } else {
        lemma_applied_none(steps);
    }
}

/// The committed entries of a batch that raise no fault apply their operations.
proof fn lemma_commits_apply<C>(s: DriverView<C>, entries: Seq<EntryView>)
    requires
        commit_all(s, entries).fault is None,
    ensures
        applied(commit_all(s, entries).steps) == operations(entries),
    decreases entries.len(),
{
    if entries.len() > 0 {
        let front = entries.drop_last();
        let before = commit_all(s, front);
        lemma_commits_apply(s, front);
        lemma_entry_applies(before.state, entries.last());
        lemma_applied_add(before.steps, commit_entry(before.state, entries.last()).steps);
        lemma_operations_add(front, seq![entries.last()]);
        assert(front + seq![entries.last()] =~= entries);
    }
}

/// The operations of entries with ascending indices have ascending indices, and each
/// is the operation of one of the entries.
proof fn lemma_operations_ascend(entries: Seq<EntryView>)
    requires
        ascending(entry_indices(entries)),
    ensures
        ascending(applied_indices(operations(entries))),
        forall|p: int|
            0 <= p < operations(entries).len() ==> exists|i: int|
                0 <= i < entries.len() && entries[i].index == (#[trigger] operations(entries)[p]).0,
    decreases entries.len(),
{
    if entries.len() > 0 {
        let front = entries.drop_last();
        let ops = operations(entries);
        let before = operations(front);
        assert forall|i: int, j: int| 0 <= i < j < front.len() implies entry_indices(front)[i]
            < entry_indices(front)[j] by {
            assert(entry_indices(entries)[i] < entry_indices(entries)[j]);
        }
        lemma_operations_ascend(front);
        assert forall|p: int| 0 <= p < ops.len() implies exists|i: int|
            0 <= i < entries.len() && entries[i].index == (#[trigger] ops[p]).0 by {
            if p < before.len() {
                let i = choose|i: int| 0 <= i < front.len() && front[i].index == before[p].0;
                assert(entries[i].index == ops[p].0);
            } else {
                assert(entries[entries.len() - 1].index == ops[p].0);
            }
        }
        assert forall|p: int, q: int| 0 <= p < q < ops.len() implies applied_indices(ops)[p]
            < applied_indices(ops)[q] by {
            if q < before.len() {
                assert(applied_indices(before)[p] < applied_indices(before)[q]);
            } else {
                let i = choose|i: int| 0 <= i < front.len() && front[i].index == before[p].0;
                assert(entry_indices(entries)[i] < entry_indices(entries)[entries.len() - 1]);
            }
        }
    }
}

/// Committed operations reach the application in commit order, each exactly once.
///
/// Where no fault ends the batch, what its steps apply is the list of its committed
/// operations: every committed entry of the normal kind that has a payload, once, in
/// the order of the entries, and nothing else. Where the indices of the committed
/// entries ascend, so do the indices of what is applied.
pub proof fn law_applied_in_commit_order<C>(s: DriverView<C>, batch: BatchView, leader_id: u64)
    requires
        ready(s, batch, leader_id).fault is None,
    ensures
        applied(ready(s, batch, leader_id).steps) == operations(batch.committed),
        ascending(entry_indices(batch.committed)) ==> ascending(
            applied_indices(applied(ready(s, batch, leader_id).steps)),
        ),
{
    let steps = ready(s, batch, leader_id).steps;
    let committed = commit_all(s, batch.committed).steps;
    let durable = steps.subrange(0, steps.len() - 1 - committed.len());
    let end = seq![StepView::<C>::Advance];
    assert(steps =~= durable + committed + end);
    lemma_dispatch_sends::<C>(s.links, table_bytes(s.addresses), batch.messages);
    lemma_applied_none(durable);
    lemma_applied_none(end);
    lemma_commits_apply(s, batch.committed);
    lemma_applied_add(durable, committed);
    lemma_applied_add(durable + committed, end);
    if ascending(entry_indices(batch.committed)) {
        lemma_operations_ascend(batch.committed);
    }
}

/// Commit order holds across batches.
///
/// What two batches apply, one after the other, is the list of the committed
/// operations of both: nothing is applied twice and nothing is left out in between.
pub proof fn law_applied_across_batches<C>(
    s: DriverView<C>,
    first: BatchView,
    first_leader_id: u64,
    second: BatchView,
    second_leader_id: u64,
)
    requires
        ready(s, first, first_leader_id).fault is None,
        ready(ready(s, first, first_leader_id).state, second, second_leader_id).fault is None,
    ensures
        applied(ready(s, first, first_leader_id).steps) + applied(
            ready(ready(s, first, first_leader_id).state, second, second_leader_id).steps,
        ) == operations(first.committed + second.committed),
        ascending(entry_indices(first.committed + second.committed)) ==> ascending(
            applied_indices(operations(first.committed + second.committed)),
        ),
{
    law_applied_in_commit_order(s, first, first_leader_id);
    law_applied_in_commit_order(ready(s, first, first_leader_id).state, second, second_leader_id);
    lemma_operations_add(first.committed, second.committed);
    if ascending(entry_indices(first.committed + second.committed)) {
        lemma_operations_ascend(first.committed + second.committed);
    }
}

/// The place of a step in the work on a ready batch.
///
/// A leader sends first; any other node sends after it has persisted. The snapshot is
/// installed before the entries are appended, and the hard state is written after both.
/// The committed entries follow, and `Advance` is last.
pub open spec fn phase<C>(lead: bool, step: StepView<C>) -> int {
    match step {
        StepView::Send { .. } => if lead {
            0
        } else {
            4
        },
        StepView::InstallSnapshot => 1,
        StepView::Append => 2,
        StepView::PersistHardState => 3,
        StepView::Advance => 6,
        _ => 5,
    }
}

/// No step comes before a step of an earlier phase.
pub open spec fn in_phase_order<C>(lead: bool, steps: Seq<StepView<C>>) -> bool {
    forall|i: int, j: int|
        0 <= i < j < steps.len() ==> phase(lead, #[trigger] steps[i]) <= phase(
            lead,
            #[trigger] steps[j],
        )
}

/// The steps of committed entries are all of the phase of committed entries.
proof fn lemma_commits_phase<C>(lead: bool, s: DriverView<C>, entries: Seq<EntryView>)
    ensures
        forall|i: int|
            0 <= i < commit_all(s, entries).steps.len() ==> phase(
                lead,
                #[trigger] commit_all(s, entries).steps[i],
            ) == 5,
    decreases entries.len(),
{
    if entries.len() > 0 {
        lemma_commits_phase(lead, s, entries.drop_last());
    }
}

/// The steps of a ready batch come in the order of their phases.
///
/// A leader sends, then persists; any other node persists, then sends. The snapshot is
/// installed before entries are appended, and the hard state is written after both.
/// Committed entries are applied after all of that, and `Advance` comes last.
pub proof fn law_steps_in_phase_order<C>(s: DriverView<C>, batch: BatchView, leader_id: u64)
    ensures
        in_phase_order(leads(s, leader_id), ready(s, batch, leader_id).steps),
{
    lemma_dispatch_sends::<C>(s.links, table_bytes(s.addresses), batch.messages);
    lemma_commits_phase(leads(s, leader_id), s, batch.committed);
}

/// Whether a step writes to the log store.
pub open spec fn persists<C>(step: StepView<C>) -> bool {
    step is InstallSnapshot || step is Append || step is PersistHardState
}

/// The snapshot is installed before entries are appended.
///
/// A snapshot stands for the whole log up to its index. Entries appended after it stay;
/// entries appended before it would be lost to it, or shadow it.
pub proof fn law_snapshot_before_append<C>(
    s: DriverView<C>,
    batch: BatchView,
    leader_id: u64,
    i: int,
    j: int,
)
    requires
        0 <= i < ready(s, batch, leader_id).steps.len(),
        0 <= j < ready(s, batch, leader_id).steps.len(),
        ready(s, batch, leader_id).steps[i] is InstallSnapshot,
        ready(s, batch, leader_id).steps[j] is Append,
    ensures
        i < j,
{
    law_steps_in_phase_order(s, batch, leader_id);
}

/// A node that does not lead persists before it sends: it never acknowledges what it
/// has not made durable.
pub proof fn law_follower_persists_before_it_sends<C>(
    s: DriverView<C>,
    batch: BatchView,
    leader_id: u64,
    i: int,
    j: int,
)
    requires
        !leads(s, leader_id),
        0 <= i < ready(s, batch, leader_id).steps.len(),
        0 <= j < ready(s, batch, leader_id).steps.len(),
        persists(ready(s, batch, leader_id).steps[i]),
        ready(s, batch, leader_id).steps[j] is Send,
    ensures
        i < j,
{
    law_steps_in_phase_order(s, batch, leader_id);
}

/// A leader sends before it persists.
pub proof fn law_leader_sends_before_it_persists<C>(
    s: DriverView<C>,
    batch: BatchView,
    leader_id: u64,
    i: int,
    j: int,
)
    requires
        leads(s, leader_id),
        0 <= i < ready(s, batch, leader_id).steps.len(),
        0 <= j < ready(s, batch, leader_id).steps.len(),
        ready(s, batch, leader_id).steps[i] is Send,
        persists(ready(s, batch, leader_id).steps[j]),
    ensures
        i < j,
{
    law_steps_in_phase_order(s, batch, leader_id);
}

/// The engine is told that a batch is done exactly when no fault ended it, and only as
/// the last step.
pub proof fn law_advance_is_last<C>(s: DriverView<C>, batch: BatchView, leader_id: u64, i: int)
    requires
        0 <= i < ready(s, batch, leader_id).steps.len(),
    ensures
        ready(s, batch, leader_id).fault is None ==> ready(s, batch, leader_id).steps.last()
            is Advance,
        ready(s, batch, leader_id).steps[i] is Advance ==> ready(s, batch, leader_id).fault is None
            && i == ready(s, batch, leader_id).steps.len() - 1,
{
    lemma_dispatch_sends::<C>(s.links, table_bytes(s.addresses), batch.messages);
    lemma_commits_phase(leads(s, leader_id), s, batch.committed);
}

} // verus!
