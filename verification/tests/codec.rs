use raft_driver::codec::{decode_seq, encode_seq};

#[test]
fn encode_seq_is_eight_bytes_little_endian() {
    assert_eq!(encode_seq(7), vec![7, 0, 0, 0, 0, 0, 0, 0]);
    assert_eq!(encode_seq(0), vec![0u8; 8]);
    assert_eq!(encode_seq(0x0102030405060708), vec![8, 7, 6, 5, 4, 3, 2, 1]);
    assert_eq!(encode_seq(u64::MAX), vec![0xffu8; 8]);
}

#[test]
fn encode_seq_matches_bincode() {
    for seq in [0u64, 1, 9, 255, 256, 1 << 40, u64::MAX] {
        assert_eq!(encode_seq(seq), bincode::serialize(&seq).unwrap());
    }
}

#[test]
fn decode_seq_reads_the_first_eight_bytes() {
    assert_eq!(decode_seq(&[7, 0, 0, 0, 0, 0, 0, 0]), Some(7));
    assert_eq!(decode_seq(&[8, 7, 6, 5, 4, 3, 2, 1]), Some(0x0102030405060708));
    assert_eq!(decode_seq(&[9, 0, 0, 0, 0, 0, 0, 0, 0xaa, 0xbb]), Some(9));
}

#[test]
fn decode_seq_rejects_short_contexts() {
    assert_eq!(decode_seq(&[]), None);
    assert_eq!(decode_seq(&[1, 2, 3, 4, 5, 6, 7]), None);
}

#[test]
fn decode_seq_undoes_encode_seq() {
    for seq in [0u64, 7, 9, 1 << 63, u64::MAX] {
        assert_eq!(decode_seq(&encode_seq(seq)), Some(seq));
    }
}
