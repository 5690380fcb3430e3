//! The two registries of a node: its links to peers and its pending client requests.

use crate::address::{distinct_ids, lookup, upsert, AddressTable};
use std::collections::HashMap;
use vstd::prelude::*;

verus! {

/// The outbound links of a node, keyed by the id of the peer.
///
/// The registry records for each peer the address to which its current link was opened.
/// The links themselves are the caller's: it opens one whenever the driver tells it to.
/// A link is never closed, so an id once held is held for good.
pub struct PeerRegistry {
    links: AddressTable,
}

impl View for PeerRegistry {
    type V = Seq<(u64, Seq<char>)>;

    closed spec fn view(&self) -> Seq<(u64, Seq<char>)> {
        self.links@
    }
}

impl PeerRegistry {
    /// A registry without links.
    pub fn new() -> (registry: PeerRegistry)
        ensures
            registry@ == Seq::<(u64, Seq<char>)>::empty(),
    {
        PeerRegistry { links: AddressTable::new() }
    }

    /// Records that the link to `id` now goes to `address`, whether or not there was
    /// one before.
    pub fn ensure(&mut self, id: u64, address: String)
        ensures
            final(self)@ == upsert(old(self)@, id, address@),
    {
        self.links.insert(id, address);
    }

    /// The address behind the link to `id`; `None` where the node has no link to it.
    pub fn get(&self, id: u64) -> (address: Option<&String>)
        ensures
            match address {
                Some(a) => lookup(self@, id) == Some(a@),
                None => lookup(self@, id) is None,
            },
    {
        self.links.get(id)
    }

    /// Whether the node has a link to `id`.
    pub fn contains(&self, id: u64) -> (linked: bool)
        ensures
            linked == lookup(self@, id).is_some(),
    {
        self.links.contains(id)
    }

    /// The link at position `i`: the id of the peer and the address behind the link.
    pub(crate) fn entry(&self, i: usize) -> (entry: (u64, &String))
        requires
            i < self@.len(),
        ensures
            (entry.0, entry.1@) == self@[i as int],
    {
        self.links.entry(i)
    }

    /// The ids of the peers the node has a link to, in the order in which it first
    /// linked to them.
    pub fn ids(&self) -> (ids: Vec<u64>)
        ensures
            ids@ == self@.map_values(|e: (u64, Seq<char>)| e.0),
    {
        self.links.ids()
    }

    /// The number of peers the node has a link to. No peer is counted twice.
    pub fn len(&self) -> (n: usize)
        ensures
            n == self@.len(),
            distinct_ids(self@),
    {
        self.links.len()
    }
}

/// The completion actions of the requests that are still open, keyed by sequence number.
///
/// A callback leaves the registry by value, so whoever resolves a request holds the only
/// copy of its callback.
pub struct CallbackRegistry<C> {
    pending: HashMap<u64, C>,
}

impl<C> View for CallbackRegistry<C> {
    type V = Map<u64, C>;

    closed spec fn view(&self) -> Map<u64, C> {
        self.pending@
    }
}

impl<C> CallbackRegistry<C> {
    /// A registry without open requests.
    pub fn new() -> (registry: CallbackRegistry<C>)
        ensures
            registry@ == Map::<u64, C>::empty(),
    {
        CallbackRegistry { pending: HashMap::new() }
    }

    /// Stores `cb` under `seq`. A callback already stored under `seq` is dropped without
    /// being invoked: it is handed back so that the caller can see the collision.
    pub fn register(&mut self, seq: u64, cb: C) -> (displaced: Option<C>)
        ensures
            final(self)@ == old(self)@.insert(seq, cb),
            match displaced {
                Some(d) => old(self)@.contains_key(seq) && old(self)@[seq] == d,
                None => !old(self)@.contains_key(seq),
            },
    {
        broadcast use vstd::std_specs::hash::group_hash_axioms;

        self.pending.insert(seq, cb)
    }

    /// Takes the callback of `seq` out of the registry, if there is one.
    pub fn resolve(&mut self, seq: u64) -> (cb: Option<C>)
        ensures
            final(self)@ == old(self)@.remove(seq),
            match cb {
                Some(c) => old(self)@.contains_key(seq) && old(self)@[seq] == c,
                None => !old(self)@.contains_key(seq),
            },
    {
        broadcast use vstd::std_specs::hash::group_hash_axioms;

        self.pending.remove(&seq)
    }

    /// Whether a request with this sequence number is open.
    pub fn contains(&self, seq: u64) -> (open: bool)
        ensures
            open == self@.contains_key(seq),
    {
        broadcast use vstd::std_specs::hash::group_hash_axioms;

        self.pending.contains_key(&seq)
    }

    /// The number of open requests.
    pub fn len(&self) -> (n: usize)
        ensures
            n == self@.len(),
    {
        self.pending.len()
    }
}

} // verus!
