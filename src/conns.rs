//! The connection table: for each peer with a live, authenticated stream,
//! the writable half of that stream and the task that drains the other half.
use vstd::prelude::*;

use crate::crypto::same_key;

verus! {

/// The keys of a table, as byte strings.
pub open spec fn key_views(ks: Seq<[u8; 57]>) -> Seq<Seq<u8>> {
    ks.map_values(|k: [u8; 57]| k@)
}

/// No key occurs twice.
pub open spec fn keys_distinct(ks: Seq<Seq<u8>>) -> bool {
    forall|i: int, j: int| 0 <= i < ks.len() && 0 <= j < ks.len() && i != j ==> #[trigger] ks[i] != #[trigger] ks[j]
}

/// A table with distinct keys has at most one entry for each peer.
pub proof fn lemma_one_entry_per_peer(ks: Seq<Seq<u8>>, id: Seq<u8>, i: int, j: int)
    requires
        keys_distinct(ks),
        0 <= i < ks.len(),
        0 <= j < ks.len(),
        ks[i] == id,
        ks[j] == id,
    ensures
        i == j,
{
}

/// The position of `id` among the keys, if it is there.
pub open spec fn key_position(ks: Seq<Seq<u8>>, id: Seq<u8>) -> Option<int> {
    if exists|i: int| 0 <= i < ks.len() && ks[i] == id {
        Some(choose|i: int| 0 <= i < ks.len() && ks[i] == id)
    } else {
        None
    }
}

/// Keys and entries side by side.
struct Slots<W> {
    ids: Vec<[u8; 57]>,
    conns: Vec<W>,
}

/// At most one entry per peer: a second entry for a peer replaces the first.
pub struct ConnectionTable<W> {
    slots: Slots<W>,
}

impl<W> ConnectionTable<W> {
    /// The peers that have an entry, in order of arrival.
    pub closed spec fn keys(&self) -> Seq<Seq<u8>> {
        key_views(self.slots.ids@)
    }

    /// The entries, in the same order.
    pub closed spec fn entries(&self) -> Seq<W> {
        self.slots.conns@
    }

    #[verifier::type_invariant]
    spec fn inv(&self) -> bool {
        &&& self.slots.ids@.len() == self.slots.conns@.len()
        &&& keys_distinct(key_views(self.slots.ids@))
    }

    /// An empty table.
    pub fn new() -> (r: ConnectionTable<W>)
        ensures
            r.keys() == Seq::<Seq<u8>>::empty(),
            r.entries() == Seq::<W>::empty(),
    {
        let r = ConnectionTable { slots: Slots { ids: Vec::new(), conns: Vec::new() } };
        assert(key_views(r.slots.ids@) =~= Seq::<Seq<u8>>::empty());
        r
    }

    /// Where the entry of `id` stands.
    fn find(&self, id: &[u8; 57]) -> (r: Option<usize>)
        ensures
            r matches Some(i) ==> key_position(self.keys(), id@) == Some(i as int),
            r is None ==> key_position(self.keys(), id@) is None,
            self.keys().len() == self.entries().len(),
            keys_distinct(self.keys()),
    {
        proof {
            use_type_invariant(self);
        }
        let mut i: usize = 0;
        while i < self.slots.ids.len()
            invariant
                i <= self.slots.ids@.len(),
                keys_distinct(self.keys()),
                self.slots.ids@.len() == self.slots.conns@.len(),
                self.keys() == key_views(self.slots.ids@),
                forall|j: int| 0 <= j < i ==> self.keys()[j] != id@,
            decreases self.slots.ids@.len() - i,
        {
            if same_key(&self.slots.ids[i], id) {
                proof {
                    let ks = self.keys();
                    assert(ks[i as int] == id@);
                    let c = choose|c: int| 0 <= c < ks.len() && ks[c] == id@;
                    if c != i {
                        assert(ks[c] != ks[i as int]);
                    }
                }
                return Some(i);
            }
            i = i + 1;
        }
        None
    }

    /// Whether `id` has an entry.
    pub fn contains(&self, id: &[u8; 57]) -> (r: bool)
        ensures
            r == key_position(self.keys(), id@) is Some,
    {
        self.find(id).is_some()
    }

    /// The entry of `id`, if it has one.
    pub fn get(&self, id: &[u8; 57]) -> (r: Option<&W>)
        ensures
            r is Some == key_position(self.keys(), id@) is Some,
            r matches Some(w) ==> *w == self.entries()[key_position(self.keys(), id@)->Some_0],
    {
        match self.find(id) {
            Some(i) => Some(&self.slots.conns[i]),
            None => None,
        }
    }

    /// Records the entry of `id`; an entry that `id` had is replaced and
    /// handed back, so that dropping it ends its task.
    pub fn insert(&mut self, id: [u8; 57], w: W) -> (r: Option<W>)
        ensures
            ({
                let ks = old(self).keys();
                match key_position(ks, id@) {
                    Some(i) => {
                        &&& r == Some(old(self).entries()[i])
                        &&& final(self).keys() == ks
                        &&& final(self).entries() == old(self).entries().update(i, w)
                    },
                    None => {
                        &&& r is None
                        &&& final(self).keys() == ks.push(id@)
                        &&& final(self).entries() == old(self).entries().push(w)
                    },
                }
            }),
            keys_distinct(final(self).keys()),
    {
        proof {
            use_type_invariant(&*self);
        }
        let found = self.find(&id);
        let ghost ks = self.keys();
        let mut slots = Slots { ids: Vec::new(), conns: Vec::new() };
        std::mem::swap(&mut slots, &mut self.slots);
        match found {
            Some(i) => {
                let old_w = slots.conns.remove(i);
                slots.conns.insert(i, w);
                std::mem::swap(&mut slots, &mut self.slots);
                assert(self.slots.conns@ =~= old(self).slots.conns@.update(i as int, w));
                Some(old_w)
            },
            None => {
                let mut ids = slots.ids;
                let mut conns = slots.conns;
                ids.push(id);
                conns.push(w);
                proof {
                    assert(key_views(ids@) =~= ks.push(id@));
                    let nk = key_views(ids@);
                    assert forall|a: int, b: int| 0 <= a < nk.len() && 0 <= b < nk.len() && a != b implies #[trigger] nk[a]
                        != #[trigger] nk[b] by {
                        if a == ks.len() {
                            assert(nk[b] == ks[b]);
                        } else if b == ks.len() {
                            assert(nk[a] == ks[a]);
                        } else {
                            assert(nk[a] == ks[a] && nk[b] == ks[b]);
                        }
                    }
                }
                self.slots = Slots { ids, conns };
                None
            },
        }
    }

    /// Takes out the entry of `id`, if it has one.
    pub fn remove(&mut self, id: &[u8; 57]) -> (r: Option<W>)
        ensures
            ({
                let ks = old(self).keys();
                match key_position(ks, id@) {
                    Some(i) => {
                        &&& r == Some(old(self).entries()[i])
                        &&& final(self).keys() == ks.remove(i)
                        &&& final(self).entries() == old(self).entries().remove(i)
                    },
                    None => {
                        &&& r is None
                        &&& final(self).keys() == ks
                        &&& final(self).entries() == old(self).entries()
                    },
                }
            }),
            key_position(final(self).keys(), id@) is None,
            keys_distinct(final(self).keys()),
    {
        proof {
            use_type_invariant(&*self);
        }
        let found = self.find(id);
        let ghost ks = self.keys();
        match found {
            Some(i) => {
                let mut slots = Slots { ids: Vec::new(), conns: Vec::new() };
                std::mem::swap(&mut slots, &mut self.slots);
                let mut ids = slots.ids;
                let mut conns = slots.conns;
                ids.remove(i);
                let gone = conns.remove(i);
                proof {
                    assert(key_views(ids@) =~= ks.remove(i as int));
                    let nk = key_views(ids@);
                    assert forall|a: int, b: int| 0 <= a < nk.len() && 0 <= b < nk.len() && a != b implies #[trigger] nk[a]
                        != #[trigger] nk[b] by {
                        let a2 = if a < i { a } else { a + 1 };
                        let b2 = if b < i { b } else { b + 1 };
                        assert(nk[a] == ks[a2] && nk[b] == ks[b2]);
                    }
                    if exists|k: int| 0 <= k < nk.len() && nk[k] == id@ {
                        let k = choose|k: int| 0 <= k < nk.len() && nk[k] == id@;
                        let k2 = if k < i { k } else { k + 1 };
                        assert(nk[k] == ks[k2]);
                        assert(ks[k2] != ks[i as int]);
                    }
                }
                self.slots = Slots { ids, conns };
                Some(gone)
            },
            None => None,
        }
    }

    /// The number of entries.
    pub fn len(&self) -> (r: usize)
        ensures
            r == self.keys().len(),
    {
        proof {
            use_type_invariant(self);
        }
        self.slots.ids.len()
    }
}

} // verus!
