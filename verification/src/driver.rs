//! The driver of one node.

use crate::address::{lemma_normalize_fixed, normalize, upsert, AddressTable};
use crate::change::ConfChange;
use crate::codec::{decode_seq, encode_seq, read_change, read_text, table_bytes};
use crate::model;
use crate::model::DriverView;
use crate::registry::{CallbackRegistry, PeerRegistry};
use crate::step::{
    batch_of, entries_of, lemma_steps_add, lemma_steps_push, steps_of, CommittedEntry, EntryKind,
    EntryView, Fault, Msg, Outbound, Outcome, ReadyBatch, Step, StepView,
};
use vstd::prelude::*;

verus! {

/// A copy of `bytes`.
fn copy_bytes(bytes: &Vec<u8>) -> (copy: Vec<u8>)
    ensures
        copy@ == bytes@,
{
    let copy = bytes.clone();
    assert(copy@ =~= bytes@);
    copy
}

/// The state that one node keeps beside its engine: its address table, its links and
/// the callbacks of its open requests.
///
/// `C` is the type of a completion callback. The driver never invokes one: it hands each
/// back inside the `Resolve` step that closes its request.
pub struct Driver<C> {
    id: u64,
    addresses: AddressTable,
    peers: PeerRegistry,
    callbacks: CallbackRegistry<C>,
}

impl<C> View for Driver<C> {
    type V = DriverView<C>;

    closed spec fn view(&self) -> DriverView<C> {
        DriverView {
            id: self.id,
            addresses: self.addresses@,
            links: self.peers@,
            callbacks: self.callbacks@,
        }
    }
}

impl<C> Driver<C> {
    /// The driver of node `id`, which listens at `raft_address` and starts with
    /// `addresses` as its table.
    pub fn new(id: u64, raft_address: String, addresses: AddressTable) -> (driver: Driver<C>)
        ensures
            driver@ == model::start::<C>(id, raft_address@, addresses@),
    {
        let mut addresses = addresses;
        let mut peers = PeerRegistry::new();
        let n: usize = addresses.len();
        let mut i: usize = 0;
        while i < n
            invariant
                n == addresses@.len(),
                i <= n,
                peers@ == normalize(addresses@.take(i as int)),
            decreases n - i,
        {
            let (peer, address) = addresses.entry(i);
            assert(addresses@.take(i + 1).drop_last() =~= addresses@.take(i as int));
            peers.ensure(peer, address.clone());
            i += 1;
        }
        proof {
            assert(addresses@.take(n as int) =~= addresses@);
            lemma_normalize_fixed(addresses@);
        }
        if n == 0 {
            addresses.insert(id, raft_address);
        }
        Driver { id, addresses, peers, callbacks: CallbackRegistry::new() }
    }

    /// The id of the node.
    pub fn id(&self) -> (id: u64)
        ensures
            id == self@.id,
    {
        self.id
    }

    /// The address table.
    pub fn addresses(&self) -> (table: &AddressTable)
        ensures
            table@ == self@.addresses,
    {
        &self.addresses
    }

    /// The registry of links.
    pub fn peers(&self) -> (peers: &PeerRegistry)
        ensures
            peers@ == self@.links,
    {
        &self.peers
    }

    /// The registry of open requests.
    pub fn callbacks(&self) -> (callbacks: &CallbackRegistry<C>)
        ensures
            callbacks@ == self@.callbacks,
    {
        &self.callbacks
    }

    /// Whether this node leads, given the id that its engine takes for the leader's.
    pub fn is_leader(&self, leader_id: u64) -> (leads: bool)
        ensures
            leads == model::leads(self@, leader_id),
    {
        leader_id == self.id
    }

    /// The ids that the engine is to start with as the members of the cluster: those of
    /// the address table.
    pub fn peer_ids(&self) -> (ids: Vec<u64>)
        ensures
            ids@ == model::ids(self@.addresses),
    {
        self.addresses.ids()
    }

    /// The steps that open every link of the registry. A node runs them once, when it
    /// starts.
    pub fn connect_steps(&self) -> (steps: Vec<Step<C>>)
        ensures
            steps_of(steps@) == model::connect_all::<C>(self@.links),
    {
        let mut steps: Vec<Step<C>> = Vec::new();
        let n: usize = self.peers.len();
        let mut i: usize = 0;
        while i < n
            invariant
                n == self.peers@.len(),
                i <= n,
                steps_of(steps@) == model::connect_all::<C>(self.peers@.take(i as int)),
            decreases n - i,
        {
            let (id, address) = self.peers.entry(i);
            let step = Step::Connect { id, address: address.clone() };
            proof {
                lemma_steps_push(steps@, step);
                assert(model::connect_all::<C>(self.peers@.take(i + 1)) =~= model::connect_all::<C>(
                    self.peers@.take(i as int),
                ).push(step@));
            }
            steps.push(step);
            i += 1;
        }
        assert(self.peers@.take(n as int) =~= self.peers@);
        steps
    }

    /// Turns a request away: its callback is to be invoked with failure and without
    /// addresses. The driver itself is left as it is.
    pub fn reject(&self, seq: u64, cb: C) -> (steps: Vec<Step<C>>)
        ensures
            steps_of(steps@) == model::reject(self@, seq, cb).steps,
    {
        let step = Step::Resolve { seq, cb, success: false, addresses: Vec::new() };
        let steps = vec![step];
        assert(steps_of(steps@) =~= model::reject(self@, seq, cb).steps);
        steps
    }

    /// A client proposes the operation `op` under the sequence number `seq`.
    ///
    /// A node that does not lead turns the request away at once. A leader registers the
    /// callback, displacing any callback that `seq` had, and proposes `op` to the engine
    /// with `seq` as its context.
    pub fn propose(&mut self, leader_id: u64, seq: u64, op: Vec<u8>, cb: C) -> (steps: Vec<Step<C>>)
        ensures
            final(self)@ == model::propose(old(self)@, leader_id, seq, op@, cb).state,
            steps_of(steps@) == model::propose(old(self)@, leader_id, seq, op@, cb).steps,
    {
        if leader_id != self.id {
            return self.reject(seq, cb);
        }
        self.callbacks.register(seq, cb);
        let step = Step::Propose { context: encode_seq(seq), payload: op };
        let steps = vec![step];
        assert(steps_of(steps@) =~= seq![step@]);
        steps
    }

    /// A client proposes the membership change `change` under the sequence number `seq`.
    ///
    /// The request is gated and registered as an operation is; the change goes to the
    /// engine as a membership change.
    pub fn propose_change(&mut self, leader_id: u64, seq: u64, change: ConfChange, cb: C) -> (steps:
        Vec<Step<C>>)
        ensures
            final(self)@ == model::propose_change(old(self)@, leader_id, seq, change@, cb).state,
            steps_of(steps@) == model::propose_change(
                old(self)@,
                leader_id,
                seq,
                change@,
                cb,
            ).steps,
    {
        if leader_id != self.id {
            return self.reject(seq, cb);
        }
        self.callbacks.register(seq, cb);
        let step = Step::ProposeMembership { context: encode_seq(seq), change };
        let steps = vec![step];
        assert(steps_of(steps@) =~= seq![step@]);
        steps
    }

    /// Records a link to `id` at `address` and asks the caller to open it.
    pub fn insert_client(&mut self, id: u64, address: String) -> (step: Step<C>)
        ensures
            final(self)@ == (DriverView {
                links: upsert(old(self)@.links, id, address@),
                ..old(self)@
            }),
            step@ == (StepView::<C>::Connect { id, address: address@ }),
    {
        self.peers.ensure(id, address.clone());
        Step::Connect { id, address }
    }

    /// Takes over `table`, which a peer gossiped.
    ///
    /// Every entry that differs from what the node holds for its id, or whose id the
    /// node does not hold, gets a fresh link. Then `table` replaces the node's table.
    pub fn merge_table(&mut self, table: AddressTable) -> (steps: Vec<Step<C>>)
        ensures
            final(self)@ == model::merge_table(old(self)@, table@).state,
            steps_of(steps@) == model::merge_table(old(self)@, table@).steps,
    {
        let mut steps: Vec<Step<C>> = Vec::new();
        let n: usize = table.len();
        let mut i: usize = 0;
        while i < n
            invariant
                n == table@.len(),
                i <= n,
                self@.id == old(self)@.id,
                self@.addresses == old(self)@.addresses,
                self@.callbacks == old(self)@.callbacks,
                self@.links == model::gossip_links(
                    old(self)@.links,
                    old(self)@.addresses,
                    table@.take(i as int),
                ),
                steps_of(steps@) == model::gossip_steps::<C>(
                    old(self)@.addresses,
                    table@.take(i as int),
                ),
            decreases n - i,
        {
            let (id, address) = table.entry(i);
            assert(table@.take(i + 1).drop_last() =~= table@.take(i as int));
            let known = match self.addresses.get(id) {
                Some(held) => *held == *address,
                None => false,
            };
            if !known {
                let step = self.insert_client(id, address.clone());
                proof {
                    lemma_steps_push(steps@, step);
                }
                steps.push(step);
            }
            i += 1;
        }
        assert(table@.take(n as int) =~= table@);
        self.addresses = table;
        steps
    }

    /// A peer sent its address table as `bytes`.
    pub fn gossip(&mut self, bytes: &Vec<u8>) -> (outcome: Outcome<C>)
        ensures
            final(self)@ == model::gossip(old(self)@, bytes@).state,
            steps_of(outcome.steps@) == model::gossip(old(self)@, bytes@).steps,
            outcome.fault == model::gossip(old(self)@, bytes@).fault,
    {
        match AddressTable::from_bytes(bytes.as_slice()) {
            Some(table) => Outcome { steps: self.merge_table(table), fault: None },
            None => {
                let steps: Vec<Step<C>> = Vec::new();
                assert(steps_of(steps@) =~= Seq::empty());
                Outcome { steps, fault: Some(Fault::MalformedAddressTable) }
            },
        }
    }

    /// One event.
    ///
    /// `leader_id` is the id that the engine takes for the leader's at this moment.
    pub fn handle(&mut self, msg: Msg<C>, leader_id: u64) -> (outcome: Outcome<C>)
        ensures
            final(self)@ == model::handle(old(self)@, msg@, leader_id).state,
            steps_of(outcome.steps@) == model::handle(old(self)@, msg@, leader_id).steps,
            outcome.fault == model::handle(old(self)@, msg@, leader_id).fault,
    {
        match msg {
            Msg::Propose { seq, op, cb } => Outcome {
                steps: self.propose(leader_id, seq, op, cb),
                fault: None,
            },
            Msg::ConfigChange { seq, change, cb } => Outcome {
                steps: self.propose_change(leader_id, seq, change, cb),
                fault: None,
            },
            Msg::Address(bytes) => self.gossip(&bytes),
            Msg::Raft(message) => {
                let step = Step::Deliver(message);
                let steps = vec![step];
                assert(steps_of(steps@) =~= seq![step@]);
                Outcome { steps, fault: None }
            },
        }
    }

    /// The address table as it goes out with every message and every success.
    pub fn snapshot(&self) -> (bytes: Vec<u8>)
        ensures
            bytes@ == table_bytes(self@.addresses),
    {
        self.addresses.to_bytes()
    }

    /// Plans the sending of `messages`, each with `addresses` behind it.
    ///
    /// A message to a peer the node has no link to is dropped: the peer counts as out
    /// of reach for the moment, and the engine will send again.
    pub fn dispatch(&self, messages: Vec<Outbound>, addresses: &Vec<u8>) -> (steps: Vec<Step<C>>)
        ensures
            steps_of(steps@) == model::dispatch::<C>(self@.links, addresses@, messages@),
    {
        let mut steps: Vec<Step<C>> = Vec::new();
        let ghost all = messages@;
        for outbound in it: messages
            invariant
                it.seq() == all,
                steps_of(steps@) == model::dispatch::<C>(
                    self@.links,
                    addresses@,
                    all.take(it.index() as int),
                ),
        {
            assert(all.take(it.index() + 1).drop_last() =~= all.take(it.index() as int));
            if self.peers.contains(outbound.to) {
                let step = Step::Send {
                    to: outbound.to,
                    message: outbound.message,
                    addresses: copy_bytes(addresses),
                };
                proof {
                    lemma_steps_push(steps@, step);
                }
                steps.push(step);
            }
        }
        assert(all.take(all.len() as int) =~= all);
        steps
    }

    /// Closes the request `seq`.
    ///
    /// Where a callback is registered for `seq`, it leaves the registry and is handed
    /// back in a `Resolve` step with `success` and `addresses`. Where none is, nothing
    /// happens: the request was made before a restart, or closed before.
    pub fn resolve(&mut self, seq: u64, success: bool, addresses: Vec<u8>) -> (steps: Vec<Step<C>>)
        ensures
            final(self)@ == model::resolve(old(self)@, seq, success, addresses@).state,
            steps_of(steps@) == model::resolve(old(self)@, seq, success, addresses@).steps,
    {
        match self.callbacks.resolve(seq) {
            Some(cb) => {
                let step = Step::Resolve { seq, cb, success, addresses };
                let steps = vec![step];
                assert(steps_of(steps@) =~= seq![step@]);
                assert(self@.callbacks =~= old(self)@.callbacks.remove(seq));
                steps
            },
            None => {
                let steps: Vec<Step<C>> = Vec::new();
                assert(steps_of(steps@) =~= Seq::empty());
                assert(self@.callbacks =~= old(self)@.callbacks);
                steps
            },
        }
    }

    /// The node learns that `id` is at `address`: a link is recorded and asked for, and
    /// the address is entered in the table.
    pub fn adopt(&mut self, id: u64, address: String) -> (steps: Vec<Step<C>>)
        ensures
            final(self)@ == model::adopt(old(self)@, id, address@).state,
            steps_of(steps@) == model::adopt(old(self)@, id, address@).steps,
    {
        let step = self.insert_client(id, address.clone());
        self.addresses.insert(id, address);
        let steps = vec![step];
        assert(steps_of(steps@) =~= seq![step@]);
        steps
    }

    /// The operation `payload` of the request `seq` is committed at `index`.
    pub fn commit_normal(&mut self, index: u64, payload: Vec<u8>, seq: u64) -> (steps: Vec<Step<C>>)
        ensures
            final(self)@ == model::commit_normal(old(self)@, index, payload@, seq).state,
            steps_of(steps@) == model::commit_normal(old(self)@, index, payload@, seq).steps,
    {
        let step = Step::Apply { index, payload };
        let mut steps = vec![step];
        assert(steps_of(steps@) =~= seq![step@]);
        let addresses = self.snapshot();
        let mut closed = self.resolve(seq, true, addresses);
        proof {
            lemma_steps_add(steps@, closed@);
        }
        steps.append(&mut closed);
        steps
    }

    /// The membership change `change` of the request `seq` is committed, and its target
    /// is at `address`.
    pub fn commit_change(&mut self, change: ConfChange, seq: u64, address: String) -> (steps: Vec<
        Step<C>,
    >)
        ensures
            final(self)@ == model::commit_change(old(self)@, change@, seq, address@).state,
            steps_of(steps@) == model::commit_change(old(self)@, change@, seq, address@).steps,
    {
        let mut steps = self.adopt(change.node_id, address);
        let step = Step::ApplyMembership(change);
        proof {
            lemma_steps_push(steps@, step);
        }
        steps.push(step);
        let addresses = self.snapshot();
        let mut closed = self.resolve(seq, true, addresses);
        proof {
            lemma_steps_add(steps@, closed@);
            assert(steps_of(steps@) =~= model::adopt(old(self)@, change@.node_id, address@).steps
                + seq![step@]);
        }
        steps.append(&mut closed);
        steps
    }

    /// One committed entry.
    ///
    /// An entry without payload is skipped. The context of any other entry must hold
    /// the sequence number of its request; the payload of a membership change must hold
    /// the change, and the context of the change the address of its target.
    pub fn commit_entry(&mut self, entry: CommittedEntry) -> (outcome: Outcome<C>)
        ensures
            final(self)@ == model::commit_entry(old(self)@, entry@).state,
            steps_of(outcome.steps@) == model::commit_entry(old(self)@, entry@).steps,
            outcome.fault == model::commit_entry(old(self)@, entry@).fault,
    {
        if entry.data.len() == 0 {
            return Self::stop(None);
        }
        match entry.kind {
            EntryKind::Normal => match decode_seq(entry.context.as_slice()) {
                Some(seq) => Outcome {
                    steps: self.commit_normal(entry.index, entry.data, seq),
                    fault: None,
                },
                None => Self::stop(Some(Fault::MalformedContext)),
            },
            EntryKind::ConfChange => match read_change(entry.data.as_slice()) {
                Some(change) => match decode_seq(entry.context.as_slice()) {
                    Some(seq) => match read_text(change.context.as_slice()) {
                        Some(address) => Outcome {
                            steps: self.commit_change(change, seq, address),
                            fault: None,
                        },
                        None => Self::stop(Some(Fault::MalformedAddress)),
                    },
                    None => Self::stop(Some(Fault::MalformedContext)),
                },
                None => Self::stop(Some(Fault::MalformedChange)),
            },
        }
    }

    /// No steps, and `fault` if there is one.
    fn stop(fault: Option<Fault>) -> (outcome: Outcome<C>)
        ensures
            steps_of(outcome.steps@) == Seq::<StepView<C>>::empty(),
            outcome.fault == fault,
    {
        let steps: Vec<Step<C>> = Vec::new();
        assert(steps_of(steps@) =~= Seq::empty());
        Outcome { steps, fault }
    }

    /// The committed entries of a batch, in order, up to the first fault.
    pub fn commit_all(&mut self, entries: Vec<CommittedEntry>) -> (outcome: Outcome<C>)
        ensures
            final(self)@ == model::commit_all(old(self)@, entries_of(entries@)).state,
            steps_of(outcome.steps@) == model::commit_all(old(self)@, entries_of(entries@)).steps,
            outcome.fault == model::commit_all(old(self)@, entries_of(entries@)).fault,
    {
        let mut steps: Vec<Step<C>> = Vec::new();
        let ghost all = entries_of(entries@);
        assert(steps_of(steps@) =~= Seq::empty());
        for entry in it: entries
            invariant
                entries_of(it.seq()) == all,
                model::commit_all(old(self)@, all.take(it.index() as int)) == (model::Progress {
                    state: self@,
                    steps: steps_of(steps@),
                    fault: None,
                }),
        {
            proof {
                assert(all.take(it.index() + 1).drop_last() =~= all.take(it.index() as int));
                assert(all.take(it.index() + 1).last() == entry@);
            }
            let Outcome { steps: mut more, fault } = self.commit_entry(entry);
            proof {
                lemma_steps_add(steps@, more@);
            }
            steps.append(&mut more);
            if fault.is_some() {
                proof {
                    lemma_commit_fault(old(self)@, all, it.index() + 1);
                }
                return Outcome { steps, fault };
            }
        }
        assert(all.take(all.len() as int) =~= all);
        Outcome { steps, fault: None }
    }

    /// One ready batch of the engine.
    ///
    /// `leader_id` is the id that the engine takes for the leader's when the batch is
    /// taken; leadership is decided from it once, for the whole batch.
    pub fn process_ready(&mut self, batch: ReadyBatch, leader_id: u64) -> (outcome: Outcome<C>)
        ensures
            final(self)@ == model::ready(old(self)@, batch@, leader_id).state,
            steps_of(outcome.steps@) == model::ready(old(self)@, batch@, leader_id).steps,
            outcome.fault == model::ready(old(self)@, batch@, leader_id).fault,
    {
        let ReadyBatch { messages, snapshot, entries, hard_state, committed } = batch;
        let leads = self.is_leader(leader_id);
        let addresses = self.snapshot();
        let mut sends = self.dispatch(messages, &addresses);
        let mut steps: Vec<Step<C>> = Vec::new();
        assert(steps_of(steps@) =~= Seq::empty());
        if leads {
            proof {
                lemma_steps_add(steps@, sends@);
            }
            steps.append(&mut sends);
        }
        let ghost early = steps_of(steps@);
        if snapshot {
            proof {
                lemma_steps_push(steps@, Step::InstallSnapshot);
            }
            steps.push(Step::InstallSnapshot);
        }
        if entries {
            proof {
                lemma_steps_push(steps@, Step::Append);
            }
            steps.push(Step::Append);
        }
        if hard_state {
            proof {
                lemma_steps_push(steps@, Step::PersistHardState);
            }
            steps.push(Step::PersistHardState);
        }
        assert(steps_of(steps@) =~= early + model::persist::<C>(batch@));
        if !leads {
            proof {
                lemma_steps_add(steps@, sends@);
            }
            steps.append(&mut sends);
        }
        let Outcome { steps: mut applied, fault } = self.commit_all(committed);
        proof {
            lemma_steps_add(steps@, applied@);
        }
        steps.append(&mut applied);
        if fault.is_none() {
            proof {
                lemma_steps_push(steps@, Step::Advance);
            }
            steps.push(Step::Advance);
        }
        assert(steps_of(steps@) =~= model::ready(old(self)@, batch@, leader_id).steps);
        Outcome { steps, fault }
    }

    /// One turn of the ready pipeline. `batch` is the ready batch of the engine, or
    /// `None` where the engine has none ready: then nothing is done.
    pub fn on_ready(&mut self, batch: Option<ReadyBatch>, leader_id: u64) -> (outcome: Outcome<C>)
        ensures
            final(self)@ == model::on_ready(old(self)@, batch_of(batch), leader_id).state,
            steps_of(outcome.steps@) == model::on_ready(
                old(self)@,
                batch_of(batch),
                leader_id,
            ).steps,
            outcome.fault == model::on_ready(old(self)@, batch_of(batch), leader_id).fault,
    {
        match batch {
            Some(b) => self.process_ready(b, leader_id),
            None => Self::stop(None),
        }
    }
}

/// Once a fault has ended the work on the first `n` entries, the work on all of them
/// ends in the same way.
proof fn lemma_commit_fault<C>(s: DriverView<C>, entries: Seq<EntryView>, n: int)
    requires
        0 <= n <= entries.len(),
        model::commit_all(s, entries.take(n)).fault is Some,
    ensures
        model::commit_all(s, entries) == model::commit_all(s, entries.take(n)),
    decreases entries.len() - n,
{
    if n < entries.len() {
        assert(entries.take(n + 1).drop_last() =~= entries.take(n));
        lemma_commit_fault(s, entries, n + 1);
    } else {
        assert(entries.take(n) =~= entries);
    }
}

} // verus!
