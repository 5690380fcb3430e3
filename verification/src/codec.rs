//! The byte formats the driver shares with its peers and with the engine's log.
//!
//! Sequence numbers, address tables and addresses are written by `bincode` with its
//! default configuration: integers at their fixed width, least significant byte first,
//! and every length as a `u64`. Membership changes are protobuf messages. The calls into
//! both crates are made here, and nowhere else.

use crate::change::{ConfChange, ConfChangeType, ConfChangeView};
use vstd::bytes::{spec_u64_from_le_bytes, spec_u64_to_le_bytes};
use vstd::prelude::*;
use vstd::utf8::{decode_utf8, encode_utf8, valid_utf8};

verus! {

/// The context that tags a proposal with its sequence number: eight bytes, least
/// significant first.
pub open spec fn context_bytes(seq: u64) -> Seq<u8> {
    spec_u64_to_le_bytes(seq)
}

/// The sequence number that a context carries. Bytes after the eighth are ignored; a
/// shorter context carries none.
pub open spec fn context_seq(context: Seq<u8>) -> Option<u64> {
    if context.len() >= 8 {
        Some(spec_u64_from_le_bytes(context.subrange(0, 8)))
    } else {
        None
    }
}

/// The mathematical value of a list of table entries.
pub open spec fn entries_view(entries: Seq<(u64, String)>) -> Seq<(u64, Seq<char>)> {
    entries.map_values(|e: (u64, String)| (e.0, e.1@))
}

/// A text as it is written: the number of its bytes as eight bytes, least significant
/// first, then the bytes of its UTF-8 encoding.
pub open spec fn text_bytes(text: Seq<char>) -> Seq<u8> {
    spec_u64_to_le_bytes(encode_utf8(text).len() as u64) + encode_utf8(text)
}

/// The number of bytes that the text at the front of `bytes` takes, length included;
/// `None` where no text stands there: where the length is cut short, or promises more
/// bytes than there are, or the bytes it covers are no UTF-8.
pub open spec fn text_size(bytes: Seq<u8>) -> Option<int> {
    if bytes.len() < 8 {
        None
    } else {
        let size = 8 + spec_u64_from_le_bytes(bytes.subrange(0, 8));
        if size <= bytes.len() && valid_utf8(bytes.subrange(8, size)) {
            Some(size)
        } else {
            None
        }
    }
}

/// The text at the front of `bytes`. Bytes after it are ignored.
pub open spec fn address_text(bytes: Seq<u8>) -> Option<Seq<char>> {
    match text_size(bytes) {
        Some(size) => Some(decode_utf8(bytes.subrange(8, size))),
        None => None,
    }
}

/// Table entries as they are written, one after the other: for each the id as eight
/// bytes, least significant first, then the address as a text.
pub open spec fn entries_bytes(entries: Seq<(u64, Seq<char>)>) -> Seq<u8>
    decreases entries.len(),
{
    if entries.len() == 0 {
        Seq::empty()
    } else {
        spec_u64_to_le_bytes(entries.first().0) + text_bytes(entries.first().1) + entries_bytes(
            entries.drop_first(),
        )
    }
}

/// A table as it is written: the number of its entries as eight bytes, least
/// significant first, then the entries.
pub open spec fn table_bytes(entries: Seq<(u64, Seq<char>)>) -> Seq<u8> {
    spec_u64_to_le_bytes(entries.len() as u64) + entries_bytes(entries)
}

/// The `count` entries at the front of `bytes`; `None` where fewer stand there.
pub open spec fn read_entries(bytes: Seq<u8>, count: nat) -> Option<Seq<(u64, Seq<char>)>>
    decreases count,
{
    if count == 0 {
        Some(Seq::empty())
    } else if bytes.len() < 8 {
        None
    } else {
        match text_size(bytes.skip(8)) {
            Some(size) => match read_entries(bytes.skip(8 + size), (count - 1) as nat) {
                Some(rest) => Some(
                    seq![
                        (
                            spec_u64_from_le_bytes(bytes.subrange(0, 8)),
                            decode_utf8(bytes.subrange(16, 8 + size)),
                        ),
                    ] + rest,
                ),
                None => None,
            },
            None => None,
        }
    }
}

/// The entries of the table at the front of `bytes`, in the order in which they are
/// written; `None` where no table stands there. Bytes after the table are ignored.
pub open spec fn table_entries(bytes: Seq<u8>) -> Option<Seq<(u64, Seq<char>)>> {
    if bytes.len() < 8 {
        None
    } else {
        read_entries(bytes.skip(8), spec_u64_from_le_bytes(bytes.subrange(0, 8)) as nat)
    }
}

/// The membership change that protobuf reads from `bytes` as the engine's `ConfChange`
/// message; `None` where it rejects the bytes.
pub uninterp spec fn change_record(bytes: Seq<u8>) -> Option<ConfChangeView>;

/// `bincode::serialize` on a `u64`.
///
/// Trusted: with the default configuration an integer is written at its fixed width,
/// least significant byte first, and writing into a fresh vector cannot fail.
#[verifier::external_body]
pub(crate) fn write_u64(value: u64) -> (bytes: Vec<u8>)
    ensures
        bytes@ == spec_u64_to_le_bytes(value),
{
    bincode::serialize(&value).unwrap_or_default()
}

/// `bincode::deserialize` to a `u64`.
///
/// Trusted: it reads the first eight bytes, least significant first, and accepts bytes
/// that follow them; fewer than eight bytes are an error.
#[verifier::external_body]
pub(crate) fn read_u64(bytes: &[u8]) -> (value: Option<u64>)
    ensures
        value == context_seq(bytes@),
{
    bincode::deserialize::<u64>(bytes).ok()
}

/// `bincode::serialize` on a `Vec<(u64, String)>`.
///
/// Trusted: a sequence is written as the number of its elements, at the fixed width of
/// a `u64`, and then its elements; a tuple as its fields; a string as the number of its
/// bytes, at the same width, and then its bytes. Writing into a fresh vector cannot
/// fail.
#[verifier::external_body]
pub(crate) fn write_table(entries: &Vec<(u64, String)>) -> (bytes: Vec<u8>)
    ensures
        bytes@ == table_bytes(entries_view(entries@)),
{
    bincode::serialize(entries).unwrap_or_default()
}

/// `bincode::deserialize` to a `Vec<(u64, String)>`.
///
/// Trusted: it reads what `bincode::serialize` writes, element by element, and fails
/// where the bytes end early or a string is no UTF-8. Bytes that follow the last
/// element are accepted.
#[verifier::external_body]
pub(crate) fn read_table(bytes: &[u8]) -> (entries: Option<Vec<(u64, String)>>)
    ensures
        match entries {
            Some(e) => table_entries(bytes@) == Some(entries_view(e@)),
            None => table_entries(bytes@) is None,
        },
{
    bincode::deserialize::<Vec<(u64, String)>>(bytes).ok()
}

/// `bincode::deserialize` to a `String`.
///
/// Trusted: it reads the number of bytes, at the fixed width of a `u64`, and then as
/// many bytes, which must be UTF-8. Bytes that follow them are accepted.
#[verifier::external_body]
pub(crate) fn read_text(bytes: &[u8]) -> (text: Option<String>)
    ensures
        match text {
            Some(t) => address_text(bytes@) == Some(t@),
            None => address_text(bytes@) is None,
        },
{
    bincode::deserialize::<String>(bytes).ok()
}

/// `protobuf::Message::merge_from_bytes` on a fresh `raft::eraftpb::ConfChange`.
///
/// Trusted: the fields read depend on the bytes alone. The four fields are moved into
/// the driver's own record.
#[verifier::external_body]
pub(crate) fn read_change(bytes: &[u8]) -> (change: Option<ConfChange>)
    ensures
        match change {
            Some(c) => change_record(bytes@) == Some(c@),
            None => change_record(bytes@) is None,
        },
{
    let mut record = raft::eraftpb::ConfChange::new();
    protobuf::Message::merge_from_bytes(&mut record, bytes).ok()?;
    let change_type = match record.get_change_type() {
        raft::eraftpb::ConfChangeType::AddNode => ConfChangeType::AddNode,
        raft::eraftpb::ConfChangeType::RemoveNode => ConfChangeType::RemoveNode,
        raft::eraftpb::ConfChangeType::AddLearnerNode => ConfChangeType::AddLearnerNode,
    };
    Some(ConfChange {
        id: record.get_id(),
        change_type,
        node_id: record.get_node_id(),
        context: record.take_context(),
    })
}

/// Writes the context of a proposal with sequence number `seq`.
pub fn encode_seq(seq: u64) -> (context: Vec<u8>)
    ensures
        context@ == context_bytes(seq),
{
    write_u64(seq)
}

/// Reads the sequence number back from the context of a log entry.
pub fn decode_seq(context: &[u8]) -> (seq: Option<u64>)
    ensures
        seq == context_seq(context@),
{
    read_u64(context)
}

/// A context written for a sequence number carries that number, also when other bytes
/// follow it.
pub proof fn lemma_context_round_trip(seq: u64, rest: Seq<u8>)
    ensures
        context_bytes(seq).len() == 8,
        context_seq(context_bytes(seq) + rest) == Some(seq),
{
    vstd::bytes::lemma_auto_spec_u64_to_from_le_bytes();
    assert((context_bytes(seq) + rest).subrange(0, 8) =~= context_bytes(seq));
}

/// Whether a table can be written: whether every length in it fits the eight bytes it
/// is written in. Every table that fits in memory can.
pub open spec fn writable(entries: Seq<(u64, Seq<char>)>) -> bool {
    &&& entries.len() <= u64::MAX
    &&& forall|i: int|
        0 <= i < entries.len() ==> encode_utf8(#[trigger] entries[i].1).len() <= u64::MAX
}

/// A text that was written is read back as it was, whatever follows it.
pub proof fn lemma_text_round_trip(text: Seq<char>, rest: Seq<u8>)
    requires
        encode_utf8(text).len() <= u64::MAX,
    ensures
        text_size(text_bytes(text) + rest) == Some(8 + encode_utf8(text).len() as int),
        address_text(text_bytes(text) + rest) == Some(text),
{
    let body = encode_utf8(text);
    let bytes = text_bytes(text) + rest;
    vstd::bytes::lemma_auto_spec_u64_to_from_le_bytes();
    vstd::utf8::encode_utf8_valid_utf8(text);
    vstd::utf8::encode_utf8_decode_utf8(text);
    assert(bytes.subrange(0, 8) =~= spec_u64_to_le_bytes(body.len() as u64));
    assert(bytes.subrange(8, 8 + body.len() as int) =~= body);
}

/// Entries that were written are read back as they were, whatever follows them.
proof fn lemma_entries_round_trip(entries: Seq<(u64, Seq<char>)>, rest: Seq<u8>)
    requires
        writable(entries),
    ensures
        read_entries(entries_bytes(entries) + rest, entries.len()) == Some(entries),
    decreases entries.len(),
{
    if entries.len() > 0 {
        let (id, text) = entries.first();
        let tail = entries.drop_first();
        let after = entries_bytes(tail) + rest;
        let bytes = entries_bytes(entries) + rest;
        vstd::bytes::lemma_auto_spec_u64_to_from_le_bytes();
        assert(writable(tail)) by {
            assert forall|i: int| 0 <= i < tail.len() implies encode_utf8(
                #[trigger] tail[i].1,
            ).len() <= u64::MAX by {
                assert(tail[i] == entries[i + 1]);
            }
        }
        lemma_text_round_trip(text, after);
        lemma_entries_round_trip(tail, rest);
        let size = 8 + encode_utf8(text).len() as int;
        assert(bytes.subrange(0, 8) =~= spec_u64_to_le_bytes(id));
        assert(bytes.skip(8) =~= text_bytes(text) + after);
        assert(bytes.skip(8 + size) =~= after);
        assert(bytes.subrange(16, 8 + size) =~= (text_bytes(text) + after).subrange(8, size));
        assert(seq![(id, text)] + tail =~= entries);
    }
}

/// A table that was written is read back as it was, whatever follows it.
pub proof fn lemma_table_round_trip(entries: Seq<(u64, Seq<char>)>, rest: Seq<u8>)
    requires
        writable(entries),
    ensures
        table_entries(table_bytes(entries) + rest) == Some(entries),
{
    let bytes = table_bytes(entries) + rest;
    vstd::bytes::lemma_auto_spec_u64_to_from_le_bytes();
    lemma_entries_round_trip(entries, rest);
    assert(bytes.subrange(0, 8) =~= spec_u64_to_le_bytes(entries.len() as u64));
    assert(bytes.skip(8) =~= entries_bytes(entries) + rest);
}

} // verus!
