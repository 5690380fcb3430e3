use raft::eraftpb::{ConfChange as RaftConfChange, ConfChangeType as RaftConfChangeType, EntryType};
use raft::storage::MemStorage;
use raft::{Config, RawNode, Ready};
use raft_driver::{
    AddressTable, CommittedEntry, ConfChange, ConfChangeType, Driver, EntryKind, Msg, Outbound,
    ReadyBatch, Step,
};
use std::collections::{BTreeMap, HashMap, VecDeque};

/// One node of an in-memory cluster: the engine, the driver, and what the caller of the
/// driver would hold beside them.
struct Node {
    raw: RawNode<MemStorage>,
    driver: Driver<u64>,
    links: HashMap<u64, String>,
    applied: Vec<(u64, Vec<u8>)>,
    resolved: Vec<(u64, bool, Vec<u8>)>,
    received: usize,
}

type Network = VecDeque<(u64, Msg<u64>)>;

fn table(entries: &[(u64, &str)]) -> AddressTable {
    AddressTable::from_entries(entries.iter().map(|(id, a)| (*id, a.to_string())).collect())
}

fn to_raft(change: &ConfChange) -> RaftConfChange {
    let mut cc = RaftConfChange::new();
    cc.set_id(change.id);
    cc.set_change_type(match change.change_type {
        ConfChangeType::AddNode => RaftConfChangeType::AddNode,
        ConfChangeType::RemoveNode => RaftConfChangeType::RemoveNode,
        ConfChangeType::AddLearnerNode => RaftConfChangeType::AddLearnerNode,
    });
    cc.set_node_id(change.node_id);
    cc.set_context(change.context.clone());
    cc
}

fn batch_of(ready: &mut Ready) -> ReadyBatch {
    ReadyBatch {
        messages: ready
            .messages
            .drain(..)
            .map(|m| Outbound { to: m.get_to(), message: m })
            .collect(),
        snapshot: !raft::is_empty_snap(&ready.snapshot),
        entries: !ready.entries.is_empty(),
        hard_state: ready.hs.is_some(),
        committed: ready
            .committed_entries
            .take()
            .unwrap_or_default()
            .into_iter()
            .map(|mut e| CommittedEntry {
                index: e.get_index(),
                kind: match e.get_entry_type() {
                    EntryType::EntryNormal => EntryKind::Normal,
                    EntryType::EntryConfChange => EntryKind::ConfChange,
                },
                data: e.take_data(),
                context: e.take_context(),
            })
            .collect(),
    }
}

impl Node {
    fn new(id: u64, peers: &[(u64, &str)]) -> Node {
        let driver: Driver<u64> = Driver::new(id, format!("host{}:port", id), table(peers));
        let cfg = Config {
            id,
            peers: driver.peer_ids(),
            election_tick: 10,
            heartbeat_tick: 3,
            max_size_per_msg: 1024 * 1024 * 1024,
            max_inflight_msgs: 256,
            applied: 0,
            tag: format!("[{}]", id),
            ..Default::default()
        };
        let raw = RawNode::new(&cfg, MemStorage::new(), vec![]).unwrap();
        let mut node = Node {
            raw,
            driver,
            links: HashMap::new(),
            applied: vec![],
            resolved: vec![],
            received: 0,
        };
        let mut nothing = Network::new();
        for step in node.driver.connect_steps() {
            node.perform(step, &mut None, &mut nothing);
        }
        node
    }

    fn leader_id(&self) -> u64 {
        self.raw.raft.leader_id
    }

    fn perform(&mut self, step: Step<u64>, ready: &mut Option<Ready>, net: &mut Network) {
        match step {
            Step::Resolve { seq: _, cb, success, addresses } => {
                self.resolved.push((cb, success, addresses))
            }
            Step::Propose { context, payload } => self.raw.propose(context, payload).unwrap(),
            Step::ProposeMembership { context, change } => {
                self.raw.propose_conf_change(context, to_raft(&change)).unwrap()
            }
            Step::Deliver(message) => {
                self.received += 1;
                let _ = self.raw.step(message);
            }
            Step::Connect { id, address } => {
                self.links.insert(id, address);
            }
            Step::Send { to, message, addresses } => {
                assert!(self.links.contains_key(&to), "send without a link to {}", to);
                net.push_back((to, Msg::Raft(message)));
                net.push_back((to, Msg::Address(addresses)));
            }
            Step::InstallSnapshot => {
                let snapshot = ready.as_ref().unwrap().snapshot.clone();
                self.raw.mut_store().wl().apply_snapshot(snapshot).unwrap()
            }
            Step::Append => {
                let store = self.raw.mut_store().wl().append(&ready.as_ref().unwrap().entries);
                store.unwrap()
            }
            Step::PersistHardState => {
                let hs = ready.as_ref().unwrap().hs.clone().unwrap();
                self.raw.mut_store().wl().set_hardstate(hs)
            }
            Step::Apply { index, payload } => self.applied.push((index, payload)),
            Step::ApplyMembership(change) => {
                self.raw.apply_conf_change(&to_raft(&change));
            }
            Step::Advance => self.raw.advance(ready.take().unwrap()),
        }
    }

    fn handle(&mut self, msg: Msg<u64>, net: &mut Network) {
        let leader_id = self.leader_id();
        let outcome = self.driver.handle(msg, leader_id);
        for step in outcome.steps {
            self.perform(step, &mut None, net);
        }
        assert_eq!(outcome.fault, None);
    }

    fn on_ready(&mut self, net: &mut Network) -> bool {
        let mut ready = if self.raw.has_ready() { Some(self.raw.ready()) } else { None };
        let busy = ready.is_some();
        let leader_id = self.leader_id();
        let outcome = self.driver.on_ready(ready.as_mut().map(batch_of), leader_id);
        assert_eq!(outcome.steps.last(), if busy { Some(&Step::Advance) } else { None });
        for step in outcome.steps {
            self.perform(step, &mut ready, net);
        }
        assert_eq!(outcome.fault, None);
        assert!(ready.is_none());
        busy
    }
}

struct Cluster {
    nodes: BTreeMap<u64, Node>,
    net: Network,
}

impl Cluster {
    fn new(ids: &[u64], peers: &[(u64, &str)]) -> Cluster {
        let nodes = ids.iter().map(|id| (*id, Node::new(*id, peers))).collect();
        Cluster { nodes, net: Network::new() }
    }

    fn node(&mut self, id: u64) -> &mut Node {
        self.nodes.get_mut(&id).unwrap()
    }

    fn settle(&mut self) {
        for _ in 0..10_000 {
            let mut progress = false;
            for node in self.nodes.values_mut() {
                progress |= node.on_ready(&mut self.net);
            }
            while let Some((to, msg)) = self.net.pop_front() {
                if let Some(node) = self.nodes.get_mut(&to) {
                    node.handle(msg, &mut self.net);
                    progress = true;
                }
            }
            if !progress {
                return;
            }
        }
        panic!("the cluster does not come to rest");
    }

    fn elect(&mut self, id: u64) {
        self.node(id).raw.campaign().unwrap();
        self.settle();
        for node in self.nodes.values() {
            if node.raw.raft.prs().get(node.raw.raft.id).is_some() {
                assert_eq!(node.leader_id(), id);
            }
        }
    }

    fn submit(&mut self, to: u64, msg: Msg<u64>) {
        let Cluster { nodes, net } = self;
        nodes.get_mut(&to).unwrap().handle(msg, net);
    }

    fn tick(&mut self, id: u64, times: usize) {
        for _ in 0..times {
            self.node(id).raw.tick();
        }
    }
}

const PEERS: [(u64, &str); 3] = [(1, "host1:port"), (2, "host2:port"), (3, "host3:port")];

fn put(key: &str, value: &str) -> Vec<u8> {
    bincode::serialize(&("PUT".to_string(), key.to_string(), value.to_string())).unwrap()
}

#[test]
fn proposal_to_the_leader_commits_on_every_node() {
    let mut cluster = Cluster::new(&[1, 2, 3], &PEERS);
    cluster.elect(1);
    let op = put("a", "1");
    cluster.submit(1, Msg::Propose { seq: 7, op: op.clone(), cb: 7 });
    assert!(cluster.node(1).driver.callbacks().contains(7));
    cluster.settle();
    cluster.tick(1, 3);
    cluster.settle();

    let table_bytes = table(&PEERS).to_bytes();
    assert_eq!(cluster.node(1).resolved, vec![(7, true, table_bytes)]);
    assert!(!cluster.node(1).driver.callbacks().contains(7));
    for id in [1, 2, 3] {
        let applied: Vec<&Vec<u8>> = cluster.node(id).applied.iter().map(|(_, p)| p).collect();
        assert_eq!(applied, vec![&op], "node {}", id);
    }
    // Followers had no callback to resolve.
    assert!(cluster.node(2).resolved.is_empty());
    assert!(cluster.node(3).resolved.is_empty());
}

#[test]
fn proposals_are_applied_in_the_same_order_everywhere() {
    let mut cluster = Cluster::new(&[1, 2, 3], &PEERS);
    cluster.elect(1);
    for seq in 1..=5u64 {
        cluster.submit(1, Msg::Propose { seq, op: put("k", &seq.to_string()), cb: 100 + seq });
        if seq % 2 == 0 {
            cluster.settle();
        }
    }
    cluster.settle();
    cluster.tick(1, 3);
    cluster.settle();

    let expected: Vec<Vec<u8>> = (1..=5u64).map(|seq| put("k", &seq.to_string())).collect();
    for id in [1, 2, 3] {
        let node = cluster.node(id);
        let payloads: Vec<Vec<u8>> = node.applied.iter().map(|(_, p)| p.clone()).collect();
        assert_eq!(payloads, expected, "node {}", id);
        let indices: Vec<u64> = node.applied.iter().map(|(i, _)| *i).collect();
        assert!(indices.windows(2).all(|w| w[0] < w[1]), "node {}: {:?}", id, indices);
    }
    let answered: Vec<(u64, bool)> =
        cluster.node(1).resolved.iter().map(|(cb, ok, _)| (*cb, *ok)).collect();
    assert_eq!(answered, vec![(101, true), (102, true), (103, true), (104, true), (105, true)]);
    assert_eq!(cluster.node(1).driver.callbacks().len(), 0);
}

#[test]
fn proposal_to_a_follower_fails_at_once() {
    let mut cluster = Cluster::new(&[1, 2, 3], &PEERS);
    cluster.elect(1);
    let last_index = cluster.node(1).raw.raft.raft_log.last_index();
    cluster.submit(2, Msg::Propose { seq: 9, op: put("b", "2"), cb: 9 });
    // Resolved before anything else runs.
    assert_eq!(cluster.node(2).resolved, vec![(9, false, vec![])]);
    assert!(!cluster.node(2).driver.callbacks().contains(9));
    assert!(cluster.net.is_empty());
    assert!(!cluster.node(2).raw.has_ready());
    cluster.settle();
    for id in [1, 2, 3] {
        assert_eq!(cluster.node(id).raw.raft.raft_log.last_index(), last_index);
        assert!(cluster.node(id).applied.is_empty());
    }
}

#[test]
fn committed_membership_change_reaches_the_new_node() {
    let mut cluster = Cluster::new(&[1, 2, 3, 4], &PEERS);
    cluster.elect(1);
    assert_eq!(cluster.node(4).received, 0);
    let change = ConfChange {
        id: 0,
        change_type: ConfChangeType::AddNode,
        node_id: 4,
        context: bincode::serialize(&"host4:port".to_string()).unwrap(),
    };
    cluster.submit(1, Msg::ConfigChange { seq: 21, change, cb: 21 });
    cluster.settle();
    cluster.tick(1, 3);
    cluster.settle();

    let after = table(&[
        (1, "host1:port"),
        (2, "host2:port"),
        (3, "host3:port"),
        (4, "host4:port"),
    ]);
    assert_eq!(cluster.node(1).resolved, vec![(21, true, after.to_bytes())]);
    for id in [1, 2, 3] {
        let node = cluster.node(id);
        assert_eq!(node.driver.peers().get(4), Some(&"host4:port".to_string()), "node {}", id);
        assert_eq!(node.links.get(&4), Some(&"host4:port".to_string()));
        assert!(node.raw.raft.prs().get(4).is_some());
    }

    // The next heartbeat round reaches node 4.
    let before = cluster.node(4).received;
    cluster.tick(1, 3);
    cluster.settle();
    assert!(cluster.node(4).received > before);
    assert_eq!(cluster.node(4).leader_id(), 1);
    // Node 4 caught up with the log: it applied the change that made it a member.
    assert!(cluster.node(4).raw.raft.prs().get(4).is_some());
    assert_eq!(cluster.node(4).driver.peers().get(4), Some(&"host4:port".to_string()));
}

#[test]
fn operations_after_a_membership_change_reach_the_new_node() {
    let mut cluster = Cluster::new(&[1, 2, 3, 4], &PEERS);
    cluster.elect(1);
    let change = ConfChange {
        id: 0,
        change_type: ConfChangeType::AddNode,
        node_id: 4,
        context: bincode::serialize(&"host4:port".to_string()).unwrap(),
    };
    cluster.submit(1, Msg::ConfigChange { seq: 1, change, cb: 1 });
    cluster.settle();
    cluster.submit(1, Msg::Propose { seq: 2, op: put("a", "1"), cb: 2 });
    cluster.settle();
    for _ in 0..3 {
        cluster.tick(1, 3);
        cluster.settle();
    }
    for id in [1, 2, 3, 4] {
        let payloads: Vec<Vec<u8>> =
            cluster.node(id).applied.iter().map(|(_, p)| p.clone()).collect();
        assert_eq!(payloads, vec![put("a", "1")], "node {}", id);
    }
    let answered: Vec<(u64, bool)> =
        cluster.node(1).resolved.iter().map(|(cb, ok, _)| (*cb, *ok)).collect();
    assert_eq!(answered, vec![(1, true), (2, true)]);
}
