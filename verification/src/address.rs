//! The table that maps each known node to its network address.
//!
//! The table keeps its entries in the order in which their ids first came in, so that
//! what is written to the wire is a function of the table alone. Its model is the
//! sequence of its entries; `lookup` and `upsert` give that sequence the meaning of a map.

use crate::codec::{entries_view, read_table, table_bytes, table_entries, write_table};
use vstd::prelude::*;

verus! {

/// The address that `entries` holds for `id`: that of the first entry with this id.
pub open spec fn lookup(entries: Seq<(u64, Seq<char>)>, id: u64) -> Option<Seq<char>>
    decreases entries.len(),
{
    if entries.len() == 0 {
        None
    } else if entries.first().0 == id {
        Some(entries.first().1)
    } else {
        lookup(entries.drop_first(), id)
    }
}

/// `entries` with the address of `id` set to `address`: the first entry for `id` is
/// replaced where it stands, and a new id is added at the end.
pub open spec fn upsert(entries: Seq<(u64, Seq<char>)>, id: u64, address: Seq<char>) -> Seq<
    (u64, Seq<char>),
>
    decreases entries.len(),
{
    if entries.len() == 0 {
        seq![(id, address)]
    } else if entries.first().0 == id {
        seq![(id, address)] + entries.drop_first()
    } else {
        seq![entries.first()] + upsert(entries.drop_first(), id, address)
    }
}

/// The table that results from entering `raw` one by one, in order, into an empty table:
/// of two entries for one id the later one decides the address.
pub open spec fn normalize(raw: Seq<(u64, Seq<char>)>) -> Seq<(u64, Seq<char>)>
    decreases raw.len(),
{
    if raw.len() == 0 {
        Seq::empty()
    } else {
        upsert(normalize(raw.drop_last()), raw.last().0, raw.last().1)
    }
}

/// No id occurs twice.
pub open spec fn distinct_ids(entries: Seq<(u64, Seq<char>)>) -> bool {
    forall|i: int, j: int| 0 <= i < j < entries.len() ==> entries[i].0 != entries[j].0
}

/// An entry that no earlier entry shadows is the one that `lookup` finds.
pub proof fn lemma_lookup_at(entries: Seq<(u64, Seq<char>)>, id: u64, i: int)
    requires
        0 <= i < entries.len(),
        entries[i].0 == id,
        forall|j: int| 0 <= j < i ==> entries[j].0 != id,
    ensures
        lookup(entries, id) == Some(entries[i].1),
    decreases i,
{
    if i > 0 {
        lemma_lookup_at(entries.drop_first(), id, i - 1);
    }
}

/// `lookup` finds nothing exactly when no entry has the id.
pub proof fn lemma_lookup_none(entries: Seq<(u64, Seq<char>)>, id: u64)
    ensures
        lookup(entries, id) is None <==> forall|j: int|
            0 <= j < entries.len() ==> entries[j].0 != id,
    decreases entries.len(),
{
    if entries.len() > 0 {
        let rest = entries.drop_first();
        lemma_lookup_none(rest, id);
        if entries.first().0 != id {
            if lookup(rest, id) is None {
                assert forall|j: int| 0 <= j < entries.len() implies entries[j].0 != id by {
                    if j > 0 {
                        assert(rest[j - 1] == entries[j]);
                    }
                }
            }
        }
    }
}

/// Where the first entry for `id` stands at `i`, `upsert` replaces that entry.
pub proof fn lemma_upsert_at(entries: Seq<(u64, Seq<char>)>, id: u64, address: Seq<char>, i: int)
    requires
        0 <= i < entries.len(),
        entries[i].0 == id,
        forall|j: int| 0 <= j < i ==> entries[j].0 != id,
    ensures
        upsert(entries, id, address) == entries.update(i, (id, address)),
    decreases i,
{
    if i > 0 {
        let rest = entries.drop_first();
        lemma_upsert_at(rest, id, address, i - 1);
    }
}

/// Where no entry has the id, `upsert` adds one at the end.
pub proof fn lemma_upsert_new(entries: Seq<(u64, Seq<char>)>, id: u64, address: Seq<char>)
    requires
        forall|j: int| 0 <= j < entries.len() ==> entries[j].0 != id,
    ensures
        upsert(entries, id, address) == entries.push((id, address)),
    decreases entries.len(),
{
    if entries.len() > 0 {
        lemma_upsert_new(entries.drop_first(), id, address);
    }
}

/// The position of the first entry for an id that the table holds.
pub proof fn first_index(entries: Seq<(u64, Seq<char>)>, id: u64) -> (i: int)
    requires
        lookup(entries, id) is Some,
    ensures
        0 <= i < entries.len(),
        entries[i].0 == id,
        forall|j: int| 0 <= j < i ==> entries[j].0 != id,
        lookup(entries, id) == Some(entries[i].1),
    decreases entries.len(),
{
    if entries.first().0 == id {
        0
    } else {
        let rest = entries.drop_first();
        let k = first_index(rest, id);
        assert forall|j: int| 0 <= j < k + 1 implies entries[j].0 != id by {
            if j > 0 {
                assert(rest[j - 1] == entries[j]);
            }
        }
        k + 1
    }
}

/// After `upsert` the id maps to the new address, and every other id to what it mapped
/// to before.
pub proof fn lemma_lookup_upsert(
    entries: Seq<(u64, Seq<char>)>,
    id: u64,
    address: Seq<char>,
    other: u64,
)
    ensures
        lookup(upsert(entries, id, address), other) == if other == id {
            Some(address)
        } else {
            lookup(entries, other)
        },
    decreases entries.len(),
{
    let updated = upsert(entries, id, address);
    if entries.len() == 0 {
        assert(lookup(updated.drop_first(), other) is None);
    } else if entries.first().0 == id {
        assert(updated.drop_first() =~= entries.drop_first());
    } else {
        let rest = entries.drop_first();
        lemma_lookup_upsert(rest, id, address, other);
        assert(updated.drop_first() =~= upsert(rest, id, address));
    }
}

/// `upsert` never makes an id occur twice.
pub proof fn lemma_upsert_distinct(entries: Seq<(u64, Seq<char>)>, id: u64, address: Seq<char>)
    requires
        distinct_ids(entries),
    ensures
        distinct_ids(upsert(entries, id, address)),
{
    lemma_lookup_none(entries, id);
    if lookup(entries, id) is None {
        lemma_upsert_new(entries, id, address);
    } else {
        let i = first_index(entries, id);
        lemma_upsert_at(entries, id, address, i);
    }
}

/// A normalized table holds no id twice.
pub proof fn lemma_normalize_distinct(raw: Seq<(u64, Seq<char>)>)
    ensures
        distinct_ids(normalize(raw)),
    decreases raw.len(),
{
    if raw.len() > 0 {
        lemma_normalize_distinct(raw.drop_last());
        lemma_upsert_distinct(normalize(raw.drop_last()), raw.last().0, raw.last().1);
    }
}

/// In a table without repeated ids every entry is the one that `lookup` finds for its id.
pub proof fn lemma_lookup_entry(entries: Seq<(u64, Seq<char>)>, i: int)
    requires
        distinct_ids(entries),
        0 <= i < entries.len(),
    ensures
        lookup(entries, entries[i].0) == Some(entries[i].1),
{
    lemma_lookup_at(entries, entries[i].0, i);
}

/// Normalizing a table without repeated ids changes nothing.
pub proof fn lemma_normalize_fixed(entries: Seq<(u64, Seq<char>)>)
    requires
        distinct_ids(entries),
    ensures
        normalize(entries) == entries,
    decreases entries.len(),
{
    if entries.len() > 0 {
        let front = entries.drop_last();
        lemma_normalize_fixed(front);
        lemma_upsert_new(front, entries.last().0, entries.last().1);
    }
}

/// The table of one node: for each known node id, its address.
pub struct AddressTable {
    entries: Vec<(u64, String)>,
}

impl View for AddressTable {
    type V = Seq<(u64, Seq<char>)>;

    closed spec fn view(&self) -> Seq<(u64, Seq<char>)> {
        entries_view(self.entries@)
    }
}

impl AddressTable {
    #[verifier::type_invariant]
    spec fn well_formed(self) -> bool {
        distinct_ids(entries_view(self.entries@))
    }

    /// A table without entries.
    pub fn new() -> (table: AddressTable)
        ensures
            table@ == Seq::<(u64, Seq<char>)>::empty(),
    {
        AddressTable { entries: Vec::new() }
    }

    /// The number of ids in the table. No id is counted twice.
    pub fn len(&self) -> (n: usize)
        ensures
            n == self@.len(),
            distinct_ids(self@),
    {
        proof {
            use_type_invariant(self);
        }
        self.entries.len()
    }

    /// Whether the table holds no id at all.
    pub fn is_empty(&self) -> (empty: bool)
        ensures
            empty == (self@.len() == 0),
    {
        self.entries.len() == 0
    }

    /// The position of the entry for `id`, or the table's length where there is none.
    fn position(&self, id: u64) -> (i: usize)
        ensures
            i <= self.entries@.len(),
            i < self.entries@.len() ==> self.entries@[i as int].0 == id,
            forall|j: int| 0 <= j < i ==> self.entries@[j].0 != id,
    {
        let mut i: usize = 0;
        while i < self.entries.len()
            invariant
                i <= self.entries@.len(),
                forall|j: int| 0 <= j < i ==> self.entries@[j].0 != id,
            decreases self.entries@.len() - i,
        {
            if self.entries[i].0 == id {
                return i;
            }
            i += 1;
        }
        i
    }

    /// The address of `id`, if the table holds one.
    pub fn get(&self, id: u64) -> (address: Option<&String>)
        ensures
            match address {
                Some(a) => lookup(self@, id) == Some(a@),
                None => lookup(self@, id) is None,
            },
    {
        let i = self.position(id);
        proof {
            lemma_lookup_none(self@, id);
        }
        if i < self.entries.len() {
            proof {
                lemma_lookup_at(self@, id, i as int);
            }
            Some(&self.entries[i].1)
        } else {
            None
        }
    }

    /// Whether the table holds an address for `id`.
    pub fn contains(&self, id: u64) -> (held: bool)
        ensures
            held == lookup(self@, id).is_some(),
    {
        self.get(id).is_some()
    }

    /// Sets the address of `id`, replacing the one it had.
    pub fn insert(&mut self, id: u64, address: String)
        ensures
            final(self)@ == upsert(old(self)@, id, address@),
    {
        proof {
            use_type_invariant(&*self);
        }
        let i = self.position(id);
        let ghost before = self@;
        let mut entries: Vec<(u64, String)> = Vec::new();
        core::mem::swap(&mut self.entries, &mut entries);
        if i < entries.len() {
            proof {
                lemma_upsert_at(before, id, address@, i as int);
            }
            entries.set(i, (id, address));
            assert(entries_view(entries@) =~= before.update(i as int, (id, address@)));
        } else {
            proof {
                lemma_upsert_new(before, id, address@);
            }
            entries.push((id, address));
            assert(entries_view(entries@) =~= before.push((id, address@)));
        }
        core::mem::swap(&mut self.entries, &mut entries);
    }

    /// The entry at position `i`.
    pub(crate) fn entry(&self, i: usize) -> (entry: (u64, &String))
        requires
            i < self@.len(),
        ensures
            (entry.0, entry.1@) == self@[i as int],
    {
        (self.entries[i].0, &self.entries[i].1)
    }

    /// The ids of the table, in the order of its entries.
    pub fn ids(&self) -> (ids: Vec<u64>)
        ensures
            ids@ == self@.map_values(|e: (u64, Seq<char>)| e.0),
    {
        let mut ids: Vec<u64> = Vec::new();
        let mut i: usize = 0;
        while i < self.entries.len()
            invariant
                i <= self.entries@.len(),
                ids@ == self@.take(i as int).map_values(|e: (u64, Seq<char>)| e.0),
            decreases self.entries@.len() - i,
        {
            ids.push(self.entries[i].0);
            i += 1;
        }
        ids
    }

    /// The table that holds `raw`, entered in order: a later entry for an id replaces
    /// the address of an earlier one.
    pub fn from_entries(raw: Vec<(u64, String)>) -> (table: AddressTable)
        ensures
            table@ == normalize(entries_view(raw@)),
    {
        let mut table = AddressTable::new();
        let mut i: usize = 0;
        while i < raw.len()
            invariant
                i <= raw@.len(),
                table@ == normalize(entries_view(raw@).take(i as int)),
            decreases raw@.len() - i,
        {
            let id = raw[i].0;
            let address = raw[i].1.clone();
            assert(entries_view(raw@).take(i + 1).drop_last() =~= entries_view(raw@).take(
                i as int,
            ));
            table.insert(id, address);
            i += 1;
        }
        assert(entries_view(raw@).take(i as int) =~= entries_view(raw@));
        table
    }

    /// The table as it goes over the wire.
    pub fn to_bytes(&self) -> (bytes: Vec<u8>)
        ensures
            bytes@ == table_bytes(self@),
    {
        write_table(&self.entries)
    }

    /// The table that `bytes` hold, or `None` where they hold none.
    pub fn from_bytes(bytes: &[u8]) -> (table: Option<AddressTable>)
        ensures
            match table {
                Some(t) => table_entries(bytes@) matches Some(raw) && t@ == normalize(raw),
                None => table_entries(bytes@) is None,
            },
    {
        match read_table(bytes) {
            Some(raw) => Some(AddressTable::from_entries(raw)),
            None => None,
        }
    }
}

} // verus!
