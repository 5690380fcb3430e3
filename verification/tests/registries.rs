use raft_driver::{CallbackRegistry, PeerRegistry};

#[test]
fn register_then_resolve_hands_the_callback_back_once() {
    let mut r: CallbackRegistry<&str> = CallbackRegistry::new();
    assert_eq!(r.len(), 0);
    assert_eq!(r.register(7, "seven"), None);
    assert!(r.contains(7));
    assert_eq!(r.len(), 1);
    assert_eq!(r.resolve(7), Some("seven"));
    assert!(!r.contains(7));
    assert_eq!(r.resolve(7), None);
    assert_eq!(r.len(), 0);
}

#[test]
fn resolve_of_an_unknown_seq_is_a_no_op() {
    let mut r: CallbackRegistry<u32> = CallbackRegistry::new();
    r.register(1, 10);
    assert_eq!(r.resolve(2), None);
    assert_eq!(r.len(), 1);
    assert!(r.contains(1));
}

#[test]
fn register_displaces_the_callback_of_a_seq_in_use() {
    let mut r: CallbackRegistry<&str> = CallbackRegistry::new();
    assert_eq!(r.register(3, "first"), None);
    assert_eq!(r.register(3, "second"), Some("first"));
    assert_eq!(r.len(), 1);
    assert_eq!(r.resolve(3), Some("second"));
    assert_eq!(r.resolve(3), None);
}

#[test]
fn registry_keeps_requests_apart() {
    let mut r: CallbackRegistry<u64> = CallbackRegistry::new();
    for seq in 0..50u64 {
        r.register(seq, seq * 2);
    }
    assert_eq!(r.len(), 50);
    for seq in (0..50u64).rev() {
        assert_eq!(r.resolve(seq), Some(seq * 2));
    }
    assert_eq!(r.len(), 0);
}

#[test]
fn peer_registry_ensure_and_get() {
    let mut p = PeerRegistry::new();
    assert_eq!(p.len(), 0);
    assert_eq!(p.get(2), None);
    assert!(!p.contains(2));
    p.ensure(2, "b:2".to_string());
    p.ensure(3, "c:3".to_string());
    assert_eq!(p.len(), 2);
    assert!(p.contains(2));
    assert_eq!(p.get(2), Some(&"b:2".to_string()));
    assert_eq!(p.get(3), Some(&"c:3".to_string()));
    assert_eq!(p.ids(), vec![2, 3]);
}

#[test]
fn peer_registry_ensure_replaces_the_link_of_a_known_peer() {
    let mut p = PeerRegistry::new();
    p.ensure(2, "old:2".to_string());
    p.ensure(2, "new:2".to_string());
    assert_eq!(p.len(), 1);
    assert_eq!(p.get(2), Some(&"new:2".to_string()));
}
