//! The driver as a state machine over mathematical values.
//!
//! A state is a [`DriverView`]. Each function here says what one piece of the driver's
//! work makes of a state: the state after it, the steps it asks of the caller, in order,
//! and the fault that ended it, if one did. The executable driver is proved to compute
//! exactly these.

use crate::address::{lookup, normalize, upsert};
use crate::change::ConfChangeView;
use crate::codec::{
    address_text, change_record, context_bytes, context_seq, table_bytes, table_entries,
};
use crate::step::{BatchView, EntryKind, EntryView, Fault, MsgView, Outbound, StepView};
use vstd::prelude::*;

verus! {

/// The state of a driver.
pub struct DriverView<C> {
    /// The id of the node.
    pub id: u64,
    /// The address table, as last gossiped or changed by a committed membership change.
    pub addresses: Seq<(u64, Seq<char>)>,
    /// The peers the node has a link to, each with the address behind the link.
    pub links: Seq<(u64, Seq<char>)>,
    /// The callbacks of the open requests, by sequence number.
    pub callbacks: Map<u64, C>,
}

/// What a piece of work arrives at.
pub struct Progress<C> {
    pub state: DriverView<C>,
    pub steps: Seq<StepView<C>>,
    pub fault: Option<Fault>,
}

/// Nothing to do.
pub open spec fn stay<C>(s: DriverView<C>) -> Progress<C> {
    Progress { state: s, steps: Seq::empty(), fault: None }
}

/// Nothing done, because of `fault`.
pub open spec fn fail<C>(s: DriverView<C>, fault: Fault) -> Progress<C> {
    Progress { state: s, steps: Seq::empty(), fault: Some(fault) }
}

/// Whether a node in state `s` leads the cluster, given whom the engine takes for the
/// leader.
pub open spec fn leads<C>(s: DriverView<C>, leader_id: u64) -> bool {
    leader_id == s.id
}

/// The state of a node that starts with `table` as its initial address table.
///
/// It has a link to every node of the table. A node that starts with an empty table
/// stands alone: its table then holds its own address, and it has no link.
pub open spec fn start<C>(
    id: u64,
    raft_address: Seq<char>,
    table: Seq<(u64, Seq<char>)>,
) -> DriverView<C> {
    DriverView {
        id,
        addresses: if table.len() == 0 {
            seq![(id, raft_address)]
        } else {
            table
        },
        links: table,
        callbacks: Map::empty(),
    }
}

/// One `Connect` step for each link, in the order of the registry.
pub open spec fn connect_all<C>(links: Seq<(u64, Seq<char>)>) -> Seq<StepView<C>> {
    links.map_values(|e: (u64, Seq<char>)| StepView::Connect { id: e.0, address: e.1 })
}

/// The ids of a table, in the order of its entries.
pub open spec fn ids(table: Seq<(u64, Seq<char>)>) -> Seq<u64> {
    table.map_values(|e: (u64, Seq<char>)| e.0)
}

/// A request that is turned away because the node does not lead: its callback is
/// invoked at once with failure and without addresses, and nothing else happens.
pub open spec fn reject<C>(s: DriverView<C>, seq: u64, cb: C) -> Progress<C> {
    Progress {
        state: s,
        steps: seq![StepView::Resolve { seq, cb, success: false, addresses: Seq::empty() }],
        fault: None,
    }
}

/// A client proposes an operation.
pub open spec fn propose<C>(
    s: DriverView<C>,
    leader_id: u64,
    seq: u64,
    op: Seq<u8>,
    cb: C,
) -> Progress<C> {
    if leads(s, leader_id) {
        Progress {
            state: DriverView { callbacks: s.callbacks.insert(seq, cb), ..s },
            steps: seq![StepView::Propose { context: context_bytes(seq), payload: op }],
            fault: None,
        }
    } else {
        reject(s, seq, cb)
    }
}

/// A client proposes a membership change.
pub open spec fn propose_change<C>(
    s: DriverView<C>,
    leader_id: u64,
    seq: u64,
    change: ConfChangeView,
    cb: C,
) -> Progress<C> {
    if leads(s, leader_id) {
        Progress {
            state: DriverView { callbacks: s.callbacks.insert(seq, cb), ..s },
            steps: seq![StepView::ProposeMembership { context: context_bytes(seq), change }],
            fault: None,
        }
    } else {
        reject(s, seq, cb)
    }
}

/// Whether a gossiped entry tells the node something it does not hold in `known`.
pub open spec fn news(known: Seq<(u64, Seq<char>)>, entry: (u64, Seq<char>)) -> bool {
    lookup(known, entry.0) != Some(entry.1)
}

/// The links after a gossiped table: every entry that is news gets a fresh link.
pub open spec fn gossip_links(
    links: Seq<(u64, Seq<char>)>,
    known: Seq<(u64, Seq<char>)>,
    table: Seq<(u64, Seq<char>)>,
) -> Seq<(u64, Seq<char>)>
    decreases table.len(),
{
    if table.len() == 0 {
        links
    } else {
        let before = gossip_links(links, known, table.drop_last());
        if news(known, table.last()) {
            upsert(before, table.last().0, table.last().1)
        } else {
            before
        }
    }
}

/// The steps after a gossiped table: one `Connect` for every entry that is news, in the
/// order of the table.
pub open spec fn gossip_steps<C>(
    known: Seq<(u64, Seq<char>)>,
    table: Seq<(u64, Seq<char>)>,
) -> Seq<StepView<C>>
    decreases table.len(),
{
    if table.len() == 0 {
        Seq::empty()
    } else {
        let before = gossip_steps(known, table.drop_last());
        if news(known, table.last()) {
            before.push(StepView::Connect { id: table.last().0, address: table.last().1 })
        } else {
            before
        }
    }
}

/// The node takes over a table that a peer gossiped. Entries are compared with the
/// table the node held before; then the gossiped table replaces that one as a whole.
pub open spec fn merge_table<C>(s: DriverView<C>, table: Seq<(u64, Seq<char>)>) -> Progress<C> {
    Progress {
        state: DriverView {
            addresses: table,
            links: gossip_links(s.links, s.addresses, table),
            ..s
        },
        steps: gossip_steps(s.addresses, table),
        fault: None,
    }
}

/// A peer sent its address table as `bytes`.
pub open spec fn gossip<C>(s: DriverView<C>, bytes: Seq<u8>) -> Progress<C> {
    match table_entries(bytes) {
        Some(raw) => merge_table(s, normalize(raw)),
        None => fail(s, Fault::MalformedAddressTable),
    }
}

/// One event.
pub open spec fn handle<C>(s: DriverView<C>, msg: MsgView<C>, leader_id: u64) -> Progress<C> {
    match msg {
        MsgView::Propose { seq, op, cb } => propose(s, leader_id, seq, op, cb),
        MsgView::ConfigChange { seq, change, cb } => propose_change(s, leader_id, seq, change, cb),
        MsgView::Address(bytes) => gossip(s, bytes),
        MsgView::Raft(message) => Progress {
            state: s,
            steps: seq![StepView::Deliver(message)],
            fault: None,
        },
    }
}

/// The steps that send `messages`: one `Send` for each message to a peer the node has a
/// link to, in the order of the messages, each with `addresses`. A message to any other
/// id is dropped.
pub open spec fn dispatch<C>(
    links: Seq<(u64, Seq<char>)>,
    addresses: Seq<u8>,
    messages: Seq<Outbound>,
) -> Seq<StepView<C>>
    decreases messages.len(),
{
    if messages.len() == 0 {
        Seq::empty()
    } else {
        let before = dispatch(links, addresses, messages.drop_last());
        let last = messages.last();
        if lookup(links, last.to) is Some {
            before.push(StepView::Send { to: last.to, message: last.message, addresses })
        } else {
            before
        }
    }
}

/// The steps that make a batch durable: the snapshot first, then the entries, then the
/// hard state, each only where the batch carries it.
pub open spec fn persist<C>(batch: BatchView) -> Seq<StepView<C>> {
    let snapshot = if batch.snapshot {
        seq![StepView::InstallSnapshot]
    } else {
        Seq::empty()
    };
    let entries = if batch.entries {
        seq![StepView::Append]
    } else {
        Seq::empty()
    };
    let hard_state = if batch.hard_state {
        seq![StepView::PersistHardState]
    } else {
        Seq::empty()
    };
    snapshot + entries + hard_state
}

/// The request `seq` is closed: where a callback is registered for it, it leaves the
/// registry and is invoked; where none is, nothing happens.
pub open spec fn resolve<C>(
    s: DriverView<C>,
    seq: u64,
    success: bool,
    addresses: Seq<u8>,
) -> Progress<C> {
    if s.callbacks.contains_key(seq) {
        Progress {
            state: DriverView { callbacks: s.callbacks.remove(seq), ..s },
            steps: seq![StepView::Resolve { seq, cb: s.callbacks[seq], success, addresses }],
            fault: None,
        }
    } else {
        stay(s)
    }
}

/// The node learns that `id` is at `address`: it opens a link there and enters the
/// address in its table.
pub open spec fn adopt<C>(s: DriverView<C>, id: u64, address: Seq<char>) -> Progress<C> {
    Progress {
        state: DriverView {
            addresses: upsert(s.addresses, id, address),
            links: upsert(s.links, id, address),
            ..s
        },
        steps: seq![StepView::Connect { id, address }],
        fault: None,
    }
}

/// An operation of request `seq` is committed at `index`: it goes to the application,
/// and the request is closed with success and the current address table.
pub open spec fn commit_normal<C>(
    s: DriverView<C>,
    index: u64,
    payload: Seq<u8>,
    seq: u64,
) -> Progress<C> {
    let closed = resolve(s, seq, true, table_bytes(s.addresses));
    Progress {
        state: closed.state,
        steps: seq![StepView::Apply { index, payload }] + closed.steps,
        fault: None,
    }
}

/// A membership change of request `seq` is committed, and its target is at `address`:
/// the node adopts the address, the engine applies the change, and the request is
/// closed with success and the address table as it now is.
pub open spec fn commit_change<C>(
    s: DriverView<C>,
    change: ConfChangeView,
    seq: u64,
    address: Seq<char>,
) -> Progress<C> {
    let adopted = adopt::<C>(s, change.node_id, address);
    let closed = resolve(adopted.state, seq, true, table_bytes(adopted.state.addresses));
    Progress {
        state: closed.state,
        steps: adopted.steps + seq![StepView::ApplyMembership(change)] + closed.steps,
        fault: None,
    }
}

/// One committed entry. An entry without payload is skipped.
pub open spec fn commit_entry<C>(s: DriverView<C>, entry: EntryView) -> Progress<C> {
    if entry.data.len() == 0 {
        stay(s)
    } else {
        match entry.kind {
            EntryKind::Normal => match context_seq(entry.context) {
                Some(seq) => commit_normal(s, entry.index, entry.data, seq),
                None => fail(s, Fault::MalformedContext),
            },
            EntryKind::ConfChange => match change_record(entry.data) {
                Some(change) => match context_seq(entry.context) {
                    Some(seq) => match address_text(change.context) {
                        Some(address) => commit_change(s, change, seq, address),
                        None => fail(s, Fault::MalformedAddress),
                    },
                    None => fail(s, Fault::MalformedContext),
                },
                None => fail(s, Fault::MalformedChange),
            },
        }
    }
}

/// The committed entries of a batch, one after the other. A fault ends the work: the
/// entries after the faulty one are not looked at.
pub open spec fn commit_all<C>(s: DriverView<C>, entries: Seq<EntryView>) -> Progress<C>
    decreases entries.len(),
{
    if entries.len() == 0 {
        stay(s)
    } else {
        let before = commit_all(s, entries.drop_last());
        if before.fault is Some {
            before
        } else {
            let last = commit_entry(before.state, entries.last());
            Progress { state: last.state, steps: before.steps + last.steps, fault: last.fault }
        }
    }
}

/// One ready batch.
///
/// Leadership is decided once, from `leader_id`. A leader sends first and persists
/// then; any other node persists first and sends then. Every message goes out with the
/// address table as it is before the committed entries are looked at. The committed
/// entries follow, and the batch ends with `Advance`, unless a fault ended it before.
pub open spec fn ready<C>(s: DriverView<C>, batch: BatchView, leader_id: u64) -> Progress<C> {
    let sends = dispatch::<C>(s.links, table_bytes(s.addresses), batch.messages);
    let durable = if leads(s, leader_id) {
        sends + persist(batch)
    } else {
        persist::<C>(batch) + sends
    };
    let committed = commit_all(s, batch.committed);
    let end = if committed.fault is None {
        seq![StepView::Advance]
    } else {
        Seq::empty()
    };
    Progress {
        state: committed.state,
        steps: durable + committed.steps + end,
        fault: committed.fault,
    }
}

/// One turn of the ready pipeline: nothing happens where the engine has no batch ready.
pub open spec fn on_ready<C>(
    s: DriverView<C>,
    batch: Option<BatchView>,
    leader_id: u64,
) -> Progress<C> {
    match batch {
        Some(b) => ready(s, b, leader_id),
        None => stay(s),
    }
}

} // verus!
