//! What goes into the driver and what comes out of it.
//!
//! Events come in as [`Msg`] and ready batches as [`ReadyBatch`]. What the driver decides
//! comes out as a list of [`Step`]s, which the caller performs in order.

use crate::change::{ConfChange, ConfChangeView};
use raft::eraftpb::Message;
use vstd::prelude::*;

verus! {

/// `raft::eraftpb::Message`, a protocol message of the engine. The driver never looks
/// inside one: it takes messages from the caller and hands them back inside steps.
#[verifier::external_type_specification]
#[verifier::external_body]
pub struct ExMessage(raft::eraftpb::Message);

/// Why the driver stopped in the middle of its work. Each of these is fatal for the
/// node: the caller performs the steps it was given and then stops.
#[derive(Clone, Copy, Debug, PartialEq, Eq, Structural)]
pub enum Fault {
    /// A gossiped address table could not be read.
    MalformedAddressTable,
    /// The context of a committed entry holds no sequence number.
    MalformedContext,
    /// The payload of a committed membership-change entry is no membership change.
    MalformedChange,
    /// The context of a committed membership change holds no address.
    MalformedAddress,
}

/// An event for the driver.
#[derive(Debug, PartialEq)]
pub enum Msg<C> {
    /// A client asks for `op`, already serialized, to be replicated and applied.
    Propose { seq: u64, op: Vec<u8>, cb: C },
    /// A client asks for a change of the cluster's membership.
    ConfigChange { seq: u64, change: ConfChange, cb: C },
    /// A peer sent its address table.
    Address(Vec<u8>),
    /// A peer sent a protocol message.
    Raft(Message),
}

/// The mathematical value of a [`Msg`].
pub enum MsgView<C> {
    Propose { seq: u64, op: Seq<u8>, cb: C },
    ConfigChange { seq: u64, change: ConfChangeView, cb: C },
    Address(Seq<u8>),
    Raft(Message),
}

impl<C> View for Msg<C> {
    type V = MsgView<C>;

    open spec fn view(&self) -> MsgView<C> {
        match *self {
            Msg::Propose { seq, op, cb } => MsgView::Propose { seq, op: op@, cb },
            Msg::ConfigChange { seq, change, cb } => MsgView::ConfigChange {
                seq,
                change: change@,
                cb,
            },
            Msg::Address(table) => MsgView::Address(table@),
            Msg::Raft(message) => MsgView::Raft(message),
        }
    }
}

/// A protocol message on its way out, with the id of the peer it is addressed to.
#[derive(Debug, PartialEq)]
pub struct Outbound {
    pub to: u64,
    pub message: Message,
}

/// The two kinds of log entry.
#[derive(Clone, Copy, Debug, PartialEq, Eq, Structural)]
pub enum EntryKind {
    /// An operation of the application.
    Normal,
    /// A change of the cluster's membership.
    ConfChange,
}

/// A committed log entry, as far as the driver reads it.
#[derive(Clone, Debug, PartialEq, Eq)]
pub struct CommittedEntry {
    pub index: u64,
    pub kind: EntryKind,
    pub data: Vec<u8>,
    pub context: Vec<u8>,
}

/// The mathematical value of a [`CommittedEntry`].
pub struct EntryView {
    pub index: u64,
    pub kind: EntryKind,
    pub data: Seq<u8>,
    pub context: Seq<u8>,
}

impl View for CommittedEntry {
    type V = EntryView;

    open spec fn view(&self) -> EntryView {
        EntryView { index: self.index, kind: self.kind, data: self.data@, context: self.context@ }
    }
}

/// The mathematical value of a list of committed entries.
pub open spec fn entries_of(entries: Seq<CommittedEntry>) -> Seq<EntryView> {
    entries.map_values(|e: CommittedEntry| e@)
}

/// One ready batch of the engine, as far as the driver reads it.
///
/// The snapshot, the entries to persist and the hard state stay with the caller; the
/// batch only says which of them it carries.
#[derive(Debug, PartialEq)]
pub struct ReadyBatch {
    /// The messages to send, in the engine's order.
    pub messages: Vec<Outbound>,
    /// Whether the batch carries a snapshot that is not empty.
    pub snapshot: bool,
    /// Whether the batch carries entries to persist.
    pub entries: bool,
    /// Whether the batch carries a new hard state.
    pub hard_state: bool,
    /// The entries that are safe to apply, in log order.
    pub committed: Vec<CommittedEntry>,
}

/// The mathematical value of a [`ReadyBatch`].
pub struct BatchView {
    pub messages: Seq<Outbound>,
    pub snapshot: bool,
    pub entries: bool,
    pub hard_state: bool,
    pub committed: Seq<EntryView>,
}

impl View for ReadyBatch {
    type V = BatchView;

    open spec fn view(&self) -> BatchView {
        BatchView {
            messages: self.messages@,
            snapshot: self.snapshot,
            entries: self.entries,
            hard_state: self.hard_state,
            committed: entries_of(self.committed@),
        }
    }
}

/// The mathematical value of what the engine has ready: a batch, or nothing.
pub open spec fn batch_of(batch: Option<ReadyBatch>) -> Option<BatchView> {
    match batch {
        Some(b) => Some(b@),
        None => None,
    }
}

/// One thing for the caller to do.
#[derive(Debug, PartialEq)]
pub enum Step<C> {
    /// Invoke `cb` with `success` and `addresses`. The request `seq` is closed by this.
    Resolve { seq: u64, cb: C, success: bool, addresses: Vec<u8> },
    /// Propose `payload` to the engine, with `context`.
    Propose { context: Vec<u8>, payload: Vec<u8> },
    /// Propose `change` to the engine as a membership change, with `context`.
    ProposeMembership { context: Vec<u8>, change: ConfChange },
    /// Step the engine with a message from a peer.
    Deliver(Message),
    /// Open a link to `id` at `address`, in place of any link to `id` there was.
    Connect { id: u64, address: String },
    /// Send `message` over the link to `to`, and `addresses` after it.
    Send { to: u64, message: Message, addresses: Vec<u8> },
    /// Install the snapshot of the batch in the log store.
    InstallSnapshot,
    /// Append the entries of the batch to the log store.
    Append,
    /// Write the hard state of the batch to the log store.
    PersistHardState,
    /// Hand the operation in `payload`, committed at `index`, to the application.
    Apply { index: u64, payload: Vec<u8> },
    /// Apply a committed membership change to the engine.
    ApplyMembership(ConfChange),
    /// Tell the engine that the batch is done.
    Advance,
}

/// The mathematical value of a [`Step`].
pub enum StepView<C> {
    Resolve { seq: u64, cb: C, success: bool, addresses: Seq<u8> },
    Propose { context: Seq<u8>, payload: Seq<u8> },
    ProposeMembership { context: Seq<u8>, change: ConfChangeView },
    Deliver(Message),
    Connect { id: u64, address: Seq<char> },
    Send { to: u64, message: Message, addresses: Seq<u8> },
    InstallSnapshot,
    Append,
    PersistHardState,
    Apply { index: u64, payload: Seq<u8> },
    ApplyMembership(ConfChangeView),
    Advance,
}

impl<C> View for Step<C> {
    type V = StepView<C>;

    open spec fn view(&self) -> StepView<C> {
        match *self {
            Step::Resolve { seq, cb, success, addresses } => StepView::Resolve {
                seq,
                cb,
                success,
                addresses: addresses@,
            },
            Step::Propose { context, payload } => StepView::Propose {
                context: context@,
                payload: payload@,
            },
            Step::ProposeMembership { context, change } => StepView::ProposeMembership {
                context: context@,
                change: change@,
            },
            Step::Deliver(message) => StepView::Deliver(message),
            Step::Connect { id, address } => StepView::Connect { id, address: address@ },
            Step::Send { to, message, addresses } => StepView::Send {
                to,
                message,
                addresses: addresses@,
            },
            Step::InstallSnapshot => StepView::InstallSnapshot,
            Step::Append => StepView::Append,
            Step::PersistHardState => StepView::PersistHardState,
            Step::Apply { index, payload } => StepView::Apply { index, payload: payload@ },
            Step::ApplyMembership(change) => StepView::ApplyMembership(change@),
            Step::Advance => StepView::Advance,
        }
    }
}

/// The mathematical value of a list of steps.
pub open spec fn steps_of<C>(steps: Seq<Step<C>>) -> Seq<StepView<C>> {
    steps.map_values(|s: Step<C>| s@)
}

/// The value of a list with one more step is the value of the list with one more value.
pub proof fn lemma_steps_push<C>(steps: Seq<Step<C>>, step: Step<C>)
    ensures
        steps_of(steps.push(step)) == steps_of(steps).push(step@),
{
    assert(steps_of(steps.push(step)) =~= steps_of(steps).push(step@));
}

/// The value of two lists of steps put together is their values put together.
pub proof fn lemma_steps_add<C>(first: Seq<Step<C>>, second: Seq<Step<C>>)
    ensures
        steps_of(first + second) == steps_of(first) + steps_of(second),
{
    assert(steps_of(first + second) =~= steps_of(first) + steps_of(second));
}

/// What the driver hands back: the steps to perform, in order, and the fault that
/// stopped it, if one did.
#[derive(Debug, PartialEq)]
pub struct Outcome<C> {
    pub steps: Vec<Step<C>>,
    pub fault: Option<Fault>,
}

} // verus!
