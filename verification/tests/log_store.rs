use raft::eraftpb::{Entry, HardState, Snapshot};
use raft::storage::MemStorage;
use raft::{Error, Storage, StorageError};
use raft_driver::{AddressTable, Driver, ReadyBatch, Step};

fn entry(index: u64, term: u64) -> Entry {
    let mut e = Entry::new();
    e.set_index(index);
    e.set_term(term);
    e.set_data(vec![index as u8]);
    e
}

fn snapshot(index: u64, term: u64) -> Snapshot {
    let mut s = Snapshot::new();
    s.mut_metadata().set_index(index);
    s.mut_metadata().set_term(term);
    s.mut_metadata().mut_conf_state().set_nodes(vec![1, 2, 3]);
    s.set_data(vec![0xaa]);
    s
}

fn follower() -> Driver<u8> {
    let peers = vec![(1, "host1:1".to_string()), (2, "host2:1".to_string())];
    Driver::new(2, "host2:1".to_string(), AddressTable::from_entries(peers))
}

/// Carries out the log-store steps of a batch on `store`, as a node would.
fn persist(
    store: &MemStorage,
    steps: Vec<Step<u8>>,
    snap: &Snapshot,
    entries: &[Entry],
    hard_state: &HardState,
) {
    for step in steps {
        match step {
            Step::InstallSnapshot => store.wl().apply_snapshot(snap.clone()).unwrap(),
            Step::Append => store.wl().append(entries).unwrap(),
            Step::PersistHardState => store.wl().set_hardstate(hard_state.clone()),
            Step::Advance => (),
            other => panic!("unexpected step {:?}", other),
        }
    }
}

#[test]
fn snapshot_then_append_leaves_no_stale_entries() {
    let store = MemStorage::new();
    store.wl().append(&[entry(1, 1), entry(2, 1), entry(3, 1)]).unwrap();
    assert_eq!(store.term(3), Ok(1));

    let snap = snapshot(10, 3);
    let fresh = vec![entry(11, 3), entry(12, 4)];
    let mut hard_state = HardState::new();
    hard_state.set_term(4);
    hard_state.set_commit(10);

    let batch = ReadyBatch {
        messages: vec![],
        snapshot: true,
        entries: true,
        hard_state: true,
        committed: vec![],
    };
    let outcome = follower().on_ready(Some(batch), 1);
    assert_eq!(
        outcome.steps,
        vec![Step::InstallSnapshot, Step::Append, Step::PersistHardState, Step::Advance]
    );
    persist(&store, outcome.steps, &snap, &fresh, &hard_state);

    // Inside the snapshot the store answers from the snapshot.
    assert_eq!(store.snapshot().unwrap(), snap);
    assert_eq!(store.term(10), Ok(3));
    assert_eq!(store.first_index(), Ok(11));
    for stale in 1..10 {
        assert_eq!(store.term(stale), Err(Error::Store(StorageError::Compacted)));
    }
    assert_eq!(store.entries(3, 4, u64::MAX), Err(Error::Store(StorageError::Compacted)));
    // After it the new entries stand.
    assert_eq!(store.last_index(), Ok(12));
    assert_eq!(store.entries(11, 13, u64::MAX), Ok(fresh));
    assert_eq!(store.term(12), Ok(4));
    assert_eq!(store.initial_state().unwrap().hard_state, hard_state);
    assert_eq!(store.initial_state().unwrap().conf_state.get_nodes(), &[1, 2, 3]);
}

#[test]
fn append_alone_extends_the_log() {
    let store = MemStorage::new();
    let batch = ReadyBatch {
        messages: vec![],
        snapshot: false,
        entries: true,
        hard_state: false,
        committed: vec![],
    };
    let outcome = follower().on_ready(Some(batch), 1);
    let entries = vec![entry(1, 1), entry(2, 1)];
    persist(&store, outcome.steps, &Snapshot::new(), &entries, &HardState::new());
    assert_eq!(store.first_index(), Ok(1));
    assert_eq!(store.last_index(), Ok(2));
    assert_eq!(store.entries(1, 3, u64::MAX), Ok(entries));
}
