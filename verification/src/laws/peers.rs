//! Peers: what gossip and membership changes make of the links and the address table.

use crate::address::{
    distinct_ids, lemma_lookup_entry, lemma_lookup_upsert, lemma_normalize_distinct,
    lemma_normalize_fixed, lemma_upsert_distinct, lookup, normalize,
};
use crate::change::ConfChangeView;
use crate::codec::{
    address_text, change_record, context_seq, lemma_table_round_trip, table_bytes, table_entries,
    writable,
};
use crate::model::{
    commit_all, commit_entry, dispatch, gossip, gossip_links, gossip_steps, handle, ready, start,
    DriverView,
};
use crate::step::{BatchView, EntryKind, EntryView, MsgView, Outbound, StepView};
use vstd::prelude::*;

verus! {

/// No entry of a table is news to a node that holds that table, so going through any
/// part of it changes no link and asks for none.
proof fn lemma_own_table_is_no_news<C>(
    links: Seq<(u64, Seq<char>)>,
    table: Seq<(u64, Seq<char>)>,
    n: int,
)
    requires
        distinct_ids(table),
        0 <= n <= table.len(),
    ensures
        gossip_links(links, table, table.take(n)) == links,
        gossip_steps::<C>(table, table.take(n)) == Seq::<StepView<C>>::empty(),
    decreases n,
{
    if n > 0 {
        lemma_own_table_is_no_news::<C>(links, table, n - 1);
        assert(table.take(n).drop_last() =~= table.take(n - 1));
        lemma_lookup_entry(table, n - 1);
    }
}

/// Gossip is idempotent: a table that comes in a second time changes nothing and asks
/// for nothing.
pub proof fn law_gossip_idempotent<C>(s: DriverView<C>, bytes: Seq<u8>)
    ensures
        gossip(gossip(s, bytes).state, bytes).state == gossip(s, bytes).state,
        gossip(gossip(s, bytes).state, bytes).fault == gossip(s, bytes).fault,
        gossip(s, bytes).fault is None ==> gossip(gossip(s, bytes).state, bytes).steps
            == Seq::<StepView<C>>::empty(),
{
    if let Some(raw) = table_entries(bytes) {
        let table = normalize(raw);
        lemma_normalize_distinct(raw);
        lemma_own_table_is_no_news::<C>(gossip(s, bytes).state.links, table, table.len() as int);
        assert(table.take(table.len() as int) =~= table);
    }
}

/// Gossip carries a table over as it is.
///
/// A node that is sent the table of a peer, as that peer writes it, holds the same
/// table afterwards, entry for entry, whatever it held before.
pub proof fn law_gossip_carries_the_table<C>(s: DriverView<C>, table: Seq<(u64, Seq<char>)>)
    requires
        distinct_ids(table),
        writable(table),
    ensures
        gossip(s, table_bytes(table)).fault is None,
        gossip(s, table_bytes(table)).state.addresses == table,
{
    lemma_table_round_trip(table, Seq::empty());
    lemma_normalize_fixed(table);
    assert(table_bytes(table) + Seq::<u8>::empty() =~= table_bytes(table));
}

/// After a membership change for node `x` at address `a` is committed, the node holds a
/// link to `x` at `a`, its table says so too, and a message to `x` is sent, not dropped.
pub proof fn law_membership_commit_links<C>(
    s: DriverView<C>,
    entry: EntryView,
    change: ConfChangeView,
    seq: u64,
    a: Seq<char>,
    message: Outbound,
    addresses: Seq<u8>,
)
    requires
        entry.kind == EntryKind::ConfChange,
        entry.data.len() > 0,
        change_record(entry.data) == Some(change),
        context_seq(entry.context) == Some(seq),
        address_text(change.context) == Some(a),
        message.to == change.node_id,
    ensures
        ({
            let after = commit_entry(s, entry);
            &&& after.fault is None
            &&& after.steps[0] == StepView::<C>::Connect { id: change.node_id, address: a }
            &&& after.steps[1] == StepView::<C>::ApplyMembership(change)
            &&& lookup(after.state.links, change.node_id) == Some(a)
            &&& lookup(after.state.addresses, change.node_id) == Some(a)
            &&& dispatch::<C>(after.state.links, addresses, seq![message]) == seq![
                StepView::<C>::Send { to: change.node_id, message: message.message, addresses },
            ]
        }),
{
    let links = commit_entry(s, entry).state.links;
    lemma_lookup_upsert(s.links, change.node_id, a, change.node_id);
    lemma_lookup_upsert(s.addresses, change.node_id, a, change.node_id);
    assert(dispatch::<C>(links, addresses, seq![message].drop_last()) =~= Seq::empty());
}

/// Going through a gossiped table closes no link.
proof fn lemma_gossip_keeps_links(
    links: Seq<(u64, Seq<char>)>,
    known: Seq<(u64, Seq<char>)>,
    table: Seq<(u64, Seq<char>)>,
    id: u64,
)
    requires
        lookup(links, id) is Some,
    ensures
        lookup(gossip_links(links, known, table), id) is Some,
    decreases table.len(),
{
    if table.len() > 0 {
        let before = gossip_links(links, known, table.drop_last());
        lemma_gossip_keeps_links(links, known, table.drop_last(), id);
        lemma_lookup_upsert(before, table.last().0, table.last().1, id);
    }
}

/// Committed entries close no link.
proof fn lemma_commits_keep_links<C>(s: DriverView<C>, entries: Seq<EntryView>, id: u64)
    requires
        lookup(s.links, id) is Some,
    ensures
        lookup(commit_all(s, entries).state.links, id) is Some,
    decreases entries.len(),
{
    if entries.len() > 0 {
        let before = commit_all(s, entries.drop_last());
        lemma_commits_keep_links(s, entries.drop_last(), id);
        if before.fault is None {
            let entry = entries.last();
            if entry.kind == EntryKind::ConfChange && change_record(entry.data) is Some {
                let change = change_record(entry.data)->Some_0;
                if address_text(change.context) is Some {
                    lemma_lookup_upsert(
                        before.state.links,
                        change.node_id,
                        address_text(change.context)->Some_0,
                        id,
                    );
                }
            }
        }
    }
}

/// A link is never closed.
///
/// Whatever event or ready batch comes in, a peer that the node has a link to before
/// is a peer it has a link to afterwards. The address behind the link may change.
pub proof fn law_links_are_kept<C>(
    s: DriverView<C>,
    msg: MsgView<C>,
    batch: BatchView,
    leader_id: u64,
    id: u64,
)
    requires
        lookup(s.links, id) is Some,
    ensures
        lookup(handle(s, msg, leader_id).state.links, id) is Some,
        lookup(ready(s, batch, leader_id).state.links, id) is Some,
{
    if let MsgView::Address(bytes) = msg {
        if let Some(raw) = table_entries(bytes) {
            lemma_gossip_keeps_links(s.links, s.addresses, normalize(raw), id);
        }
    }
    lemma_commits_keep_links(s, batch.committed, id);
}

/// Whether neither the address table nor the registry of links holds an id twice.
pub open spec fn tables_are_maps<C>(s: DriverView<C>) -> bool {
    distinct_ids(s.addresses) && distinct_ids(s.links)
}

/// Going through a gossiped table makes no id occur twice among the links.
proof fn lemma_gossip_keeps_distinct(
    links: Seq<(u64, Seq<char>)>,
    known: Seq<(u64, Seq<char>)>,
    table: Seq<(u64, Seq<char>)>,
)
    requires
        distinct_ids(links),
    ensures
        distinct_ids(gossip_links(links, known, table)),
    decreases table.len(),
{
    if table.len() > 0 {
        lemma_gossip_keeps_distinct(links, known, table.drop_last());
        lemma_upsert_distinct(
            gossip_links(links, known, table.drop_last()),
            table.last().0,
            table.last().1,
        );
    }
}

/// Committed entries make no id occur twice.
proof fn lemma_commits_keep_distinct<C>(s: DriverView<C>, entries: Seq<EntryView>)
    requires
        tables_are_maps(s),
    ensures
        tables_are_maps(commit_all(s, entries).state),
    decreases entries.len(),
{
    if entries.len() > 0 {
        let before = commit_all(s, entries.drop_last());
        lemma_commits_keep_distinct(s, entries.drop_last());
        if before.fault is None {
            let entry = entries.last();
            if entry.kind == EntryKind::ConfChange && change_record(entry.data) is Some {
                let change = change_record(entry.data)->Some_0;
                if address_text(change.context) is Some {
                    let address = address_text(change.context)->Some_0;
                    lemma_upsert_distinct(before.state.links, change.node_id, address);
                    lemma_upsert_distinct(before.state.addresses, change.node_id, address);
                }
            }
        }
    }
}

/// The address table and the registry of links stay maps.
///
/// A node starts with tables that hold no id twice, and whatever event or ready batch
/// comes in, its tables hold no id twice afterwards.
pub proof fn law_tables_stay_maps<C>(
    s: DriverView<C>,
    msg: MsgView<C>,
    batch: BatchView,
    leader_id: u64,
    id: u64,
    raft_address: Seq<char>,
    table: Seq<(u64, Seq<char>)>,
)
    requires
        tables_are_maps(s),
        distinct_ids(table),
    ensures
        tables_are_maps(start::<C>(id, raft_address, table)),
        tables_are_maps(handle(s, msg, leader_id).state),
        tables_are_maps(ready(s, batch, leader_id).state),
{
    if let MsgView::Address(bytes) = msg {
        if let Some(raw) = table_entries(bytes) {
            lemma_normalize_distinct(raw);
            lemma_gossip_keeps_distinct(s.links, s.addresses, normalize(raw));
        }
    }
    lemma_commits_keep_distinct(s, batch.committed);
}

} // verus!
