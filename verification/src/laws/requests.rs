//! Requests: who is answered, with what, and how often.

use crate::change::ConfChangeView;
use crate::codec::{context_bytes, context_seq, lemma_context_round_trip, table_bytes};
use crate::laws::lemma_dispatch_sends;
use crate::model::{
    commit_all, commit_entry, handle, leads, propose, ready, DriverView, Progress,
};
use crate::step::{BatchView, EntryView, MsgView, StepView};
use vstd::prelude::*;

verus! {

/// A node that does not lead answers a proposal at once and does nothing else.
///
/// The only step is the callback, invoked with failure and without addresses. The
/// state is unchanged and nothing is proposed to the engine, so no log is touched.
pub proof fn law_follower_rejects<C>(s: DriverView<C>, leader_id: u64, seq: u64, op: Seq<u8>, cb: C)
    requires
        !leads(s, leader_id),
    ensures
        handle(s, MsgView::Propose { seq, op, cb }, leader_id) == (Progress {
            state: s,
            steps: seq![StepView::Resolve { seq, cb, success: false, addresses: Seq::empty() }],
            fault: None,
        }),
{
}

/// A node that does not lead answers a membership change as it answers a proposal.
pub proof fn law_follower_rejects_change<C>(
    s: DriverView<C>,
    leader_id: u64,
    seq: u64,
    change: ConfChangeView,
    cb: C,
)
    requires
        !leads(s, leader_id),
    ensures
        handle(s, MsgView::ConfigChange { seq, change, cb }, leader_id) == (Progress {
            state: s,
            steps: seq![StepView::Resolve { seq, cb, success: false, addresses: Seq::empty() }],
            fault: None,
        }),
{
}

/// Whether the requests that `p` closes are closed rightly, seen from the state `s` in
/// which the work began.
///
/// Each `Resolve` step reports success and carries the callback that was registered in
/// `s` under its sequence number; that number is no longer registered afterwards; no
/// two `Resolve` steps bear the same number; and no callback has entered the registry.
pub open spec fn closes_each_once<C>(s: DriverView<C>, p: Progress<C>) -> bool {
    &&& p.state.callbacks.submap_of(s.callbacks)
    &&& forall|i: int|
        0 <= i < p.steps.len() && #[trigger] p.steps[i] is Resolve ==> {
            &&& s.callbacks.contains_key(p.steps[i]->seq)
            &&& s.callbacks[p.steps[i]->seq] == p.steps[i]->cb
            &&& !p.state.callbacks.contains_key(p.steps[i]->seq)
            &&& p.steps[i]->success
        }
    &&& forall|i: int, j: int|
        0 <= i < j < p.steps.len() && #[trigger] p.steps[i] is Resolve
            && #[trigger] p.steps[j] is Resolve ==> p.steps[i]->seq != p.steps[j]->seq
}

/// Work that closes each request once, followed by more such work, closes each once.
proof fn lemma_closes_then<C>(s: DriverView<C>, first: Progress<C>, second: Progress<C>)
    requires
        closes_each_once(s, first),
        closes_each_once(first.state, second),
    ensures
        closes_each_once(
            s,
            Progress {
                state: second.state,
                steps: first.steps + second.steps,
                fault: second.fault,
            },
        ),
{
    assert forall|k: u64| #[trigger]
        second.state.callbacks.contains_key(k) implies s.callbacks.contains_key(k)
        && second.state.callbacks[k] == s.callbacks[k] by {
        assert(first.state.callbacks.contains_key(k));
    }
}

/// The committed entries of a batch close each request at most once.
proof fn lemma_commits_close_once<C>(s: DriverView<C>, entries: Seq<EntryView>)
    ensures
        closes_each_once(s, commit_all(s, entries)),
    decreases entries.len(),
{
    if entries.len() > 0 {
        let before = commit_all(s, entries.drop_last());
        lemma_commits_close_once(s, entries.drop_last());
        if before.fault is None {
            lemma_closes_then(s, before, commit_entry(before.state, entries.last()));
        }
    }
}

/// A request is closed at most once.
///
/// In the steps of a ready batch no two `Resolve` steps bear the same sequence number.
/// Each one reports success and carries the callback that was registered under its
/// number when the batch came in; afterwards that number is registered no more, so a
/// later batch cannot close the request again. No batch registers a callback.
pub proof fn law_closed_at_most_once<C>(s: DriverView<C>, batch: BatchView, leader_id: u64)
    ensures
        closes_each_once(s, ready(s, batch, leader_id)),
{
    lemma_commits_close_once(s, batch.committed);
    lemma_dispatch_sends::<C>(s.links, table_bytes(s.addresses), batch.messages);
}

/// A request that one batch closed is not closed again by the next.
///
/// Of two batches that come in one after the other, no `Resolve` step of the second
/// bears the sequence number of a `Resolve` step of the first.
pub proof fn law_closed_once_across_batches<C>(
    s: DriverView<C>,
    first: BatchView,
    first_leader_id: u64,
    second: BatchView,
    second_leader_id: u64,
    i: int,
    j: int,
)
    requires
        0 <= i < ready(s, first, first_leader_id).steps.len(),
        0 <= j < ready(
            ready(s, first, first_leader_id).state,
            second,
            second_leader_id,
        ).steps.len(),
        ready(s, first, first_leader_id).steps[i] is Resolve,
        ready(ready(s, first, first_leader_id).state, second, second_leader_id).steps[j] is Resolve,
    ensures
        ready(s, first, first_leader_id).steps[i]->seq != ready(
            ready(s, first, first_leader_id).state,
            second,
            second_leader_id,
        ).steps[j]->seq,
{
    law_closed_at_most_once(s, first, first_leader_id);
    law_closed_at_most_once(ready(s, first, first_leader_id).state, second, second_leader_id);
}

/// Whether a committed entry belongs to the request `seq`: it has a payload, and its
/// context holds `seq`.
pub open spec fn carries(entry: EntryView, seq: u64) -> bool {
    entry.data.len() > 0 && context_seq(entry.context) == Some(seq)
}

/// Whether a step closes the request `seq` with success, by the callback `cb`.
pub open spec fn succeeds<C>(step: StepView<C>, seq: u64, cb: C) -> bool {
    step is Resolve && step->seq == seq && step->cb == cb && step->success
}

/// A request that is open when the committed entries come in is closed with success if
/// one of them belongs to it, and is still open afterwards if none does.
proof fn lemma_open_or_closed<C>(s: DriverView<C>, entries: Seq<EntryView>, seq: u64)
    requires
        s.callbacks.contains_key(seq),
        commit_all(s, entries).fault is None,
    ensures
        (exists|i: int| 0 <= i < entries.len() && carries(#[trigger] entries[i], seq)) ==> exists|
            j: int,
        |
            0 <= j < commit_all(s, entries).steps.len() && succeeds(
                #[trigger] commit_all(s, entries).steps[j],
                seq,
                s.callbacks[seq],
            ),
        (forall|i: int| 0 <= i < entries.len() ==> !carries(#[trigger] entries[i], seq)) ==> {
            &&& commit_all(s, entries).state.callbacks.contains_key(seq)
            &&& commit_all(s, entries).state.callbacks[seq] == s.callbacks[seq]
        },
    decreases entries.len(),
{
    if entries.len() > 0 {
        let front = entries.drop_last();
        let before = commit_all(s, front);
        let last = commit_entry(before.state, entries.last());
        let all = commit_all(s, entries);
        lemma_open_or_closed(s, front, seq);
        if exists|i: int| 0 <= i < front.len() && carries(#[trigger] front[i], seq) {
            let j = choose|j: int|
                0 <= j < before.steps.len() && succeeds(
                    #[trigger] before.steps[j],
                    seq,
                    s.callbacks[seq],
                );
            assert(succeeds(all.steps[j], seq, s.callbacks[seq]));
        } else if carries(entries.last(), seq) {
            assert(all.steps[all.steps.len() - 1] == last.steps.last());
        } else {
            assert forall|i: int| 0 <= i < entries.len() implies !carries(
                #[trigger] entries[i],
                seq,
            ) by {
                if i < front.len() {
                    assert(front[i] == entries[i]);
                }
            }
        }
    }
}

/// The entry of an open request commits: the request is closed with success.
///
/// Where one of the committed entries of a batch belongs to a request that is open, and
/// no fault ends the batch, the steps hold a `Resolve` for it that reports success and
/// carries its callback, and the request is open no more.
pub proof fn law_committed_request_is_closed<C>(
    s: DriverView<C>,
    batch: BatchView,
    leader_id: u64,
    i: int,
    seq: u64,
)
    requires
        s.callbacks.contains_key(seq),
        0 <= i < batch.committed.len(),
        carries(batch.committed[i], seq),
        ready(s, batch, leader_id).fault is None,
    ensures
        exists|j: int|
            0 <= j < ready(s, batch, leader_id).steps.len() && succeeds(
                #[trigger] ready(s, batch, leader_id).steps[j],
                seq,
                s.callbacks[seq],
            ),
        !ready(s, batch, leader_id).state.callbacks.contains_key(seq),
{
    let all = ready(s, batch, leader_id);
    let committed = commit_all(s, batch.committed);
    lemma_open_or_closed(s, batch.committed, seq);
    let k = choose|k: int|
        0 <= k < committed.steps.len() && succeeds(
            #[trigger] committed.steps[k],
            seq,
            s.callbacks[seq],
        );
    let n = all.steps.len() - 1 - committed.steps.len();
    assert(all.steps[n + k] == committed.steps[k]);
    law_closed_at_most_once(s, batch, leader_id);
}

/// A proposal that a leader accepted is answered with success once its entry commits.
///
/// The leader registers `cb` and proposes the operation with the context of `seq`. When
/// an entry with that context and a payload is among the committed entries of the next
/// batch, the steps hold a `Resolve` that reports success to `cb`. Whether the entry
/// commits is the engine's part: it does while the node leads a live quorum.
pub proof fn law_accepted_proposal_succeeds<C>(
    s: DriverView<C>,
    leader_id: u64,
    seq: u64,
    op: Seq<u8>,
    cb: C,
    batch: BatchView,
    later_leader_id: u64,
    i: int,
)
    requires
        leads(s, leader_id),
        0 <= i < batch.committed.len(),
        batch.committed[i].data.len() > 0,
        batch.committed[i].context == context_bytes(seq),
        ready(propose(s, leader_id, seq, op, cb).state, batch, later_leader_id).fault is None,
    ensures
        propose(s, leader_id, seq, op, cb).steps == seq![
            StepView::<C>::Propose { context: context_bytes(seq), payload: op },
        ],
        exists|j: int|
            0 <= j < ready(
                propose(s, leader_id, seq, op, cb).state,
                batch,
                later_leader_id,
            ).steps.len() && succeeds(
                #[trigger] ready(
                    propose(s, leader_id, seq, op, cb).state,
                    batch,
                    later_leader_id,
                ).steps[j],
                seq,
                cb,
            ),
{
    lemma_context_round_trip(seq, Seq::empty());
    law_committed_request_is_closed(
        propose(s, leader_id, seq, op, cb).state,
        batch,
        later_leader_id,
        i,
        seq,
    );
}

} // verus!
