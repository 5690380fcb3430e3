use raft_driver::AddressTable;
use std::collections::HashMap;

fn table(entries: &[(u64, &str)]) -> AddressTable {
    AddressTable::from_entries(entries.iter().map(|(id, a)| (*id, a.to_string())).collect())
}

#[test]
fn new_table_is_empty() {
    let t = AddressTable::new();
    assert!(t.is_empty());
    assert_eq!(t.len(), 0);
    assert_eq!(t.get(1), None);
    assert!(!t.contains(1));
    assert_eq!(t.ids(), Vec::<u64>::new());
}

#[test]
fn insert_adds_new_ids_at_the_end() {
    let mut t = AddressTable::new();
    t.insert(3, "c:3".to_string());
    t.insert(1, "a:1".to_string());
    t.insert(2, "b:2".to_string());
    assert_eq!(t.len(), 3);
    assert_eq!(t.ids(), vec![3, 1, 2]);
    assert_eq!(t.get(1), Some(&"a:1".to_string()));
    assert_eq!(t.get(2), Some(&"b:2".to_string()));
    assert_eq!(t.get(3), Some(&"c:3".to_string()));
    assert_eq!(t.get(4), None);
}

#[test]
fn insert_replaces_an_address_in_place() {
    let mut t = table(&[(1, "a:1"), (2, "b:2"), (3, "c:3")]);
    t.insert(2, "moved:2".to_string());
    assert_eq!(t.len(), 3);
    assert_eq!(t.ids(), vec![1, 2, 3]);
    assert_eq!(t.get(2), Some(&"moved:2".to_string()));
    assert_eq!(t.get(1), Some(&"a:1".to_string()));
    assert_eq!(t.get(3), Some(&"c:3".to_string()));
}

#[test]
fn from_entries_lets_the_later_entry_win() {
    let t = table(&[(1, "old"), (2, "b"), (1, "new")]);
    assert_eq!(t.len(), 2);
    assert_eq!(t.ids(), vec![1, 2]);
    assert_eq!(t.get(1), Some(&"new".to_string()));
    assert_eq!(t.get(2), Some(&"b".to_string()));
}

#[test]
fn to_bytes_writes_count_then_entries() {
    let t = table(&[(1, "a"), (258, "bc")]);
    let expected: Vec<u8> = vec![
        2, 0, 0, 0, 0, 0, 0, 0, // two entries
        1, 0, 0, 0, 0, 0, 0, 0, // id 1
        1, 0, 0, 0, 0, 0, 0, 0, // one byte of text
        b'a', //
        2, 1, 0, 0, 0, 0, 0, 0, // id 258
        2, 0, 0, 0, 0, 0, 0, 0, // two bytes of text
        b'b', b'c',
    ];
    assert_eq!(t.to_bytes(), expected);
}

#[test]
fn to_bytes_of_empty_table_is_a_zero_count() {
    assert_eq!(AddressTable::new().to_bytes(), vec![0u8; 8]);
}

#[test]
fn to_bytes_matches_what_a_hash_map_serializes_to() {
    let mut map: HashMap<u64, String> = HashMap::new();
    map.insert(7, "host7:7000".to_string());
    let t = table(&[(7, "host7:7000")]);
    assert_eq!(t.to_bytes(), bincode::serialize(&map).unwrap());
}

#[test]
fn from_bytes_reads_what_a_hash_map_serializes_to() {
    let mut map: HashMap<u64, String> = HashMap::new();
    map.insert(1, "a:1".to_string());
    map.insert(2, "b:2".to_string());
    map.insert(3, "c:3".to_string());
    let t = AddressTable::from_bytes(&bincode::serialize(&map).unwrap()).unwrap();
    assert_eq!(t.len(), 3);
    for (id, address) in &map {
        assert_eq!(t.get(*id), Some(address));
    }
}

#[test]
fn from_bytes_round_trips() {
    let t = table(&[(5, "e:5"), (4, "d:4"), (9, "")]);
    let back = AddressTable::from_bytes(&t.to_bytes()).unwrap();
    assert_eq!(back.ids(), vec![5, 4, 9]);
    assert_eq!(back.get(5), Some(&"e:5".to_string()));
    assert_eq!(back.get(4), Some(&"d:4".to_string()));
    assert_eq!(back.get(9), Some(&String::new()));
    assert_eq!(back.to_bytes(), t.to_bytes());
}

#[test]
fn from_bytes_keeps_the_later_of_two_entries_for_one_id() {
    let raw: Vec<(u64, String)> =
        vec![(1, "first".to_string()), (2, "b".to_string()), (1, "second".to_string())];
    let t = AddressTable::from_bytes(&bincode::serialize(&raw).unwrap()).unwrap();
    assert_eq!(t.ids(), vec![1, 2]);
    assert_eq!(t.get(1), Some(&"second".to_string()));
}

#[test]
fn from_bytes_rejects_truncated_bytes() {
    let bytes = table(&[(1, "a:1")]).to_bytes();
    assert!(AddressTable::from_bytes(&bytes[..bytes.len() - 1]).is_none());
    assert!(AddressTable::from_bytes(&[]).is_none());
    assert!(AddressTable::from_bytes(&[1, 0, 0]).is_none());
}

#[test]
fn from_bytes_rejects_text_that_is_not_utf8() {
    let bytes: Vec<u8> = vec![
        1, 0, 0, 0, 0, 0, 0, 0, //
        1, 0, 0, 0, 0, 0, 0, 0, //
        1, 0, 0, 0, 0, 0, 0, 0, //
        0xff,
    ];
    assert!(AddressTable::from_bytes(&bytes).is_none());
}

#[test]
fn from_bytes_accepts_an_empty_table() {
    let t = AddressTable::from_bytes(&[0u8; 8]).unwrap();
    assert!(t.is_empty());
}

#[test]
fn text_is_counted_in_bytes_not_in_characters() {
    let t = table(&[(1, "h\u{f6}st:1")]);
    let bytes = t.to_bytes();
    let expected: Vec<u8> = vec![
        1, 0, 0, 0, 0, 0, 0, 0, // one entry
        1, 0, 0, 0, 0, 0, 0, 0, // id 1
        7, 0, 0, 0, 0, 0, 0, 0, // six characters in seven bytes
        b'h', 0xc3, 0xb6, b's', b't', b':', b'1',
    ];
    assert_eq!(bytes, expected);
    let back = AddressTable::from_bytes(&bytes).unwrap();
    assert_eq!(back.get(1), Some(&"h\u{f6}st:1".to_string()));
}

#[test]
fn from_bytes_ignores_what_follows_the_table() {
    let mut bytes = table(&[(1, "a:1"), (2, "b:2")]).to_bytes();
    bytes.extend_from_slice(&[0xff, 0xfe, 0xfd]);
    let t = AddressTable::from_bytes(&bytes).unwrap();
    assert_eq!(t.ids(), vec![1, 2]);
    assert_eq!(t.get(2), Some(&"b:2".to_string()));
}

#[test]
fn from_bytes_rejects_a_count_that_promises_too_much() {
    let mut bytes = table(&[(1, "a:1")]).to_bytes();
    bytes[0] = 2;
    assert!(AddressTable::from_bytes(&bytes).is_none());
    bytes[0] = 0xff;
    bytes[7] = 0xff;
    assert!(AddressTable::from_bytes(&bytes).is_none());
}

#[test]
fn from_bytes_rejects_a_text_length_that_promises_too_much() {
    let mut bytes = table(&[(1, "a:1")]).to_bytes();
    bytes[16] = 4;
    assert!(AddressTable::from_bytes(&bytes).is_none());
    bytes[16] = 2;
    let t = AddressTable::from_bytes(&bytes).unwrap();
    assert_eq!(t.get(1), Some(&"a:".to_string()));
}
