//! The address book: the peers this session knows, one row per public key,
//! listed newest first by the time of the last exchange with each.
use vstd::prelude::*;

use crate::address::{address_fields, decode_address, name_view, trimmed, UserData};
use crate::consts::KEY_LENGTH;
use crate::crypto::same_key;

verus! {

/// Relies on chrono's `Local::now().timestamp()`: the current time in seconds
/// since the epoch; nothing is known of its value.
#[verifier::external_body]
pub(crate) fn clock_now() -> (r: i64) {
    chrono::Local::now().timestamp()
}

/// One row of the address book.
pub struct BookEntry {
    pub lastupdate: i64,
    pub user: UserData,
}

/// What a row says, as plain values.
pub struct EntryView {
    pub id: Seq<u8>,
    pub hostname: Seq<char>,
    pub username: Option<Seq<char>>,
    pub lastupdate: int,
}

impl View for BookEntry {
    type V = EntryView;

    open spec fn view(&self) -> EntryView {
        EntryView {
            id: self.user.id@,
            hostname: self.user.hostname@,
            username: name_view(self.user.username),
            lastupdate: self.lastupdate as int,
        }
    }
}

impl BookEntry {
    /// A copy of this row.
    pub fn copied(&self) -> (r: BookEntry)
        ensures
            r@ == self@,
    {
        BookEntry { lastupdate: self.lastupdate, user: self.user.copied() }
    }
}

/// The rows that a vector of entries holds.
pub open spec fn entries_view(s: Seq<BookEntry>) -> Seq<EntryView> {
    s.map_values(|e: BookEntry| e@)
}

/// No two rows share a public key.
pub open spec fn ids_unique(s: Seq<EntryView>) -> bool {
    forall|i: int, j: int|
        0 <= i < s.len() && 0 <= j < s.len() && i != j ==> #[trigger] s[i].id != #[trigger] s[j].id
}

/// Rows are ordered by `lastupdate`, newest first.
pub open spec fn newest_first(s: Seq<EntryView>) -> bool {
    forall|i: int, j: int| 0 <= i < j < s.len() ==> #[trigger] s[i].lastupdate >= #[trigger] s[j].lastupdate
}

/// The invariant of the address book.
pub open spec fn book_wf(s: Seq<EntryView>) -> bool {
    &&& ids_unique(s)
    &&& newest_first(s)
    &&& forall|i: int| 0 <= i < s.len() ==> (#[trigger] s[i]).id.len() == KEY_LENGTH
}

/// Some row has public key `id`.
pub open spec fn has_id(s: Seq<EntryView>, id: Seq<u8>) -> bool {
    exists|i: int| 0 <= i < s.len() && (#[trigger] s[i]).id == id
}

/// The position of the row with public key `id`.
pub open spec fn position_of(s: Seq<EntryView>, id: Seq<u8>) -> int {
    choose|i: int| 0 <= i < s.len() && (#[trigger] s[i]).id == id
}

/// `p` splits the rows into those newer than `t` and the others.
pub open spec fn is_insert_position(s: Seq<EntryView>, t: int, p: int) -> bool {
    &&& 0 <= p <= s.len()
    &&& forall|i: int| 0 <= i < p ==> (#[trigger] s[i]).lastupdate > t
    &&& forall|i: int| p <= i < s.len() ==> (#[trigger] s[i]).lastupdate <= t
}

/// Where a row updated at `t` goes: after every newer row, before the others.
pub open spec fn insert_position(s: Seq<EntryView>, t: int) -> int {
    choose|p: int| is_insert_position(s, t, p)
}

/// The rows with `e` added in its place.
pub open spec fn with_entry(s: Seq<EntryView>, e: EntryView) -> Seq<EntryView> {
    s.insert(insert_position(s, e.lastupdate), e)
}

/// The time of the last exchange with `id`, if the book has a row for it.
pub open spec fn last_update(s: Seq<EntryView>, id: Seq<u8>) -> Option<int> {
    if has_id(s, id) {
        Some(s[position_of(s, id)].lastupdate)
    } else {
        None
    }
}

/// The rows after the exchange with `id` at time `t` is recorded: its row
/// moves to its place for `t`; without a row for `id`, nothing changes.
pub open spec fn touched(s: Seq<EntryView>, id: Seq<u8>, t: int) -> Seq<EntryView> {
    if has_id(s, id) {
        let p = position_of(s, id);
        with_entry(s.remove(p), EntryView { lastupdate: t, ..s[p] })
    } else {
        s
    }
}

/// A book that keeps its invariant has at most one row for each key.
pub proof fn lemma_one_row_per_key(s: Seq<EntryView>, id: Seq<u8>, i: int, j: int)
    requires
        book_wf(s),
        0 <= i < s.len(),
        0 <= j < s.len(),
        s[i].id == id,
        s[j].id == id,
    ensures
        i == j,
{
}

/// A split position is unique.
proof fn lemma_insert_position_unique(s: Seq<EntryView>, t: int, p: int)
    requires
        is_insert_position(s, t, p),
    ensures
        insert_position(s, t) == p,
{
    let q = insert_position(s, t);
    assert(is_insert_position(s, t, q));
    if q < p {
        assert(s[q].lastupdate > t);
    } else if q > p {
        assert(s[p].lastupdate > t);
    }
}

/// In a book with unique keys, a row's position is its key's position.
proof fn lemma_position_of(s: Seq<EntryView>, i: int)
    requires
        ids_unique(s),
        0 <= i < s.len(),
    ensures
        has_id(s, s[i].id),
        position_of(s, s[i].id) == i,
{
    assert(0 <= i < s.len() && s[i].id == s[i].id);
    let j = position_of(s, s[i].id);
    if j != i {
        assert(s[j].id != s[i].id);
    }
}

/// Removing a row keeps the invariant.
proof fn lemma_remove_wf(s: Seq<EntryView>, i: int)
    requires
        book_wf(s),
        0 <= i < s.len(),
    ensures
        book_wf(s.remove(i)),
{
    let r = s.remove(i);
    assert forall|a: int, b: int| 0 <= a < r.len() && 0 <= b < r.len() && a != b implies #[trigger] r[a].id
        != #[trigger] r[b].id by {
        let a2 = if a < i { a } else { a + 1 };
        let b2 = if b < i { b } else { b + 1 };
        assert(r[a] == s[a2] && r[b] == s[b2]);
    }
    assert forall|a: int, b: int| 0 <= a < b < r.len() implies #[trigger] r[a].lastupdate >= #[trigger] r[
        b].lastupdate by {
        let a2 = if a < i { a } else { a + 1 };
        let b2 = if b < i { b } else { b + 1 };
        assert(r[a] == s[a2] && r[b] == s[b2]);
    }
    assert forall|a: int| 0 <= a < r.len() implies (#[trigger] r[a]).id.len() == KEY_LENGTH by {
        let a2 = if a < i { a } else { a + 1 };
        assert(r[a] == s[a2]);
    }
}

/// Adding a row with a new key at its place keeps the invariant.
proof fn lemma_insert_wf(s: Seq<EntryView>, e: EntryView, p: int)
    requires
        book_wf(s),
        !has_id(s, e.id),
        e.id.len() == KEY_LENGTH,
        is_insert_position(s, e.lastupdate, p),
    ensures
        book_wf(s.insert(p, e)),
{
    let r = s.insert(p, e);
    assert forall|a: int| 0 <= a < r.len() && a != p implies #[trigger] r[a] == s[if a < p { a } else { a - 1 }] by {}
    assert forall|a: int, b: int| 0 <= a < r.len() && 0 <= b < r.len() && a != b implies #[trigger] r[a].id
        != #[trigger] r[b].id by {
        if a == p {
            let b2 = if b < p { b } else { b - 1 };
            assert(r[b] == s[b2]);
        } else if b == p {
            let a2 = if a < p { a } else { a - 1 };
            assert(r[a] == s[a2]);
        } else {
            let a2 = if a < p { a } else { a - 1 };
            let b2 = if b < p { b } else { b - 1 };
            assert(r[a] == s[a2] && r[b] == s[b2]);
        }
    }
    assert forall|a: int, b: int| 0 <= a < b < r.len() implies #[trigger] r[a].lastupdate >= #[trigger] r[
        b].lastupdate by {
        if a == p {
            assert(r[b] == s[b - 1]);
        } else if b == p {
            assert(r[a] == s[a]);
        } else {
            let a2 = if a < p { a } else { a - 1 };
            let b2 = if b < p { b } else { b - 1 };
            assert(r[a] == s[a2] && r[b] == s[b2]);
        }
    }
}

/// The address book.
pub struct AddressBook {
    entries: Vec<BookEntry>,
}

impl View for AddressBook {
    type V = Seq<EntryView>;

    closed spec fn view(&self) -> Seq<EntryView> {
        entries_view(self.entries@)
    }
}

impl AddressBook {
    #[verifier::type_invariant]
    spec fn inv(&self) -> bool {
        book_wf(entries_view(self.entries@))
    }

    /// An empty book.
    pub fn new() -> (r: AddressBook)
        ensures
            r@ == Seq::<EntryView>::empty(),
    {
        let r = AddressBook { entries: Vec::new() };
        assert(entries_view(r.entries@) =~= Seq::<EntryView>::empty());
        r
    }

    /// The position of the row with key `id`, if any.
    fn find(&self, id: &[u8; 57]) -> (r: Option<usize>)
        ensures
            r is Some <==> has_id(self@, id@),
            r matches Some(i) ==> i < self@.len() && position_of(self@, id@) == i && self@[i as int].id == id@,
    {
        proof {
            use_type_invariant(self);
        }
        let mut i: usize = 0;
        while i < self.entries.len()
            invariant
                i <= self.entries@.len(),
                self@ == entries_view(self.entries@),
                book_wf(self@),
                forall|j: int| 0 <= j < i ==> (#[trigger] self@[j]).id != id@,
            decreases self.entries@.len() - i,
        {
            if same_key(&self.entries[i].user.id, id) {
                proof {
                    lemma_position_of(self@, i as int);
                }
                return Some(i);
            }
            i = i + 1;
        }
        None
    }

    /// Adds a row, unless its key is already in the book.
    pub fn insert_entry(&mut self, e: BookEntry) -> (r: bool)
        ensures
            r == !has_id(old(self)@, e@.id),
            r ==> final(self)@ == with_entry(old(self)@, e@),
            r ==> is_insert_position(old(self)@, e@.lastupdate, insert_position(old(self)@, e@.lastupdate)),
            !r ==> final(self)@ == old(self)@,
            book_wf(final(self)@),
    {
        proof {
            use_type_invariant(&*self);
        }
        if self.find(&e.user.id).is_some() {
            return false;
        }
        let ghost s = self@;
        let t = e.lastupdate;
        let mut p: usize = 0;
        while p < self.entries.len() && self.entries[p].lastupdate > t
            invariant
                p <= self.entries@.len(),
                s == entries_view(self.entries@),
                book_wf(s),
                forall|j: int| 0 <= j < p ==> (#[trigger] s[j]).lastupdate > t,
            decreases self.entries@.len() - p,
        {
            p = p + 1;
        }
        proof {
            assert forall|j: int| p <= j < s.len() implies (#[trigger] s[j]).lastupdate <= t by {
                assert(s[p as int].lastupdate <= t);
                if j > p {
                    assert(s[p as int].lastupdate >= s[j].lastupdate);
                }
            }
            assert(is_insert_position(s, t as int, p as int));
            lemma_insert_position_unique(s, t as int, p as int);
            lemma_insert_wf(s, e@, p as int);
        }
        let mut entries: Vec<BookEntry> = Vec::new();
        std::mem::swap(&mut entries, &mut self.entries);
        let ghost ev = e@;
        entries.insert(p, e);
        assert(entries_view(entries@) =~= s.insert(p as int, ev));
        self.entries = entries;
        true
    }

    /// The peer with key `id`, if the book has it.
    pub fn get(&self, id: &[u8; 57]) -> (r: Option<UserData>)
        ensures
            r is Some <==> has_id(self@, id@),
            r matches Some(u) ==> {
                let e = self@[position_of(self@, id@)];
                &&& u.id@ == id@
                &&& u.hostname@ == e.hostname
                &&& name_view(u.username) == e.username
            },
            book_wf(self@),
    {
        proof {
            use_type_invariant(self);
        }
        match self.find(id) {
            Some(i) => Some(self.entries[i].user.copied()),
            None => None,
        }
    }

    /// Removes the row with key `id`; removing an absent key changes nothing.
    pub fn delete(&mut self, id: &[u8; 57]) -> (r: bool)
        ensures
            r == has_id(old(self)@, id@),
            r ==> final(self)@ == old(self)@.remove(position_of(old(self)@, id@)),
            !r ==> final(self)@ == old(self)@,
            !has_id(final(self)@, id@),
            book_wf(final(self)@),
    {
        proof {
            use_type_invariant(&*self);
        }
        match self.find(id) {
            Some(i) => {
                let ghost s = self@;
                proof {
                    lemma_remove_wf(s, i as int);
                }
                let mut entries: Vec<BookEntry> = Vec::new();
                std::mem::swap(&mut entries, &mut self.entries);
                let _gone = entries.remove(i);
                assert(entries_view(entries@) =~= s.remove(i as int));
                self.entries = entries;
                proof {
                    if has_id(self@, id@) {
                        let k = choose|k: int| 0 <= k < self@.len() && (#[trigger] self@[k]).id == id@;
                        let k2 = if k < i { k } else { k + 1 };
                        assert(self@[k] == s[k2]);
                        assert(s[k2].id != s[i as int].id);
                    }
                }
                true
            },
            None => false,
        }
    }

    /// Sets the time of the last exchange with `id` to `now`; nothing changes
    /// when the book does not have `id`.
    pub fn touch(&mut self, id: &[u8; 57], now: i64) -> (r: bool)
        ensures
            r == has_id(old(self)@, id@),
            final(self)@ == touched(old(self)@, id@, now as int),
            r ==> last_update(final(self)@, id@) == Some(now as int),
            book_wf(final(self)@),
    {
        proof {
            use_type_invariant(&*self);
        }
        match self.find(id) {
            Some(i) => {
                let ghost s = self@;
                proof {
                    lemma_remove_wf(s, i as int);
                }
                let mut entries: Vec<BookEntry> = Vec::new();
                std::mem::swap(&mut entries, &mut self.entries);
                let mut e = entries.remove(i);
                assert(entries_view(entries@) =~= s.remove(i as int));
                self.entries = entries;
                proof {
                    assert(!has_id(self@, id@)) by {
                        if has_id(self@, id@) {
                            let k = choose|k: int| 0 <= k < self@.len() && (#[trigger] self@[k]).id == id@;
                            let k2 = if k < i { k } else { k + 1 };
                            assert(self@[k] == s[k2]);
                            assert(s[k2].id != s[i as int].id);
                        }
                    }
                }
                e.lastupdate = now;
                let ghost ev = e@;
                let added = self.insert_entry(e);
                proof {
                    let f = self@;
                    let p = insert_position(s.remove(i as int), now as int);
                    assert(is_insert_position(s.remove(i as int), now as int, p));
                    assert(f[p] == ev);
                    lemma_position_of(f, p);
                }
                true
            },
            None => false,
        }
    }

    /// Every peer, newest exchange first.
    pub fn list(&self) -> (r: Vec<UserData>)
        ensures
            r@.len() == self@.len(),
            forall|i: int|
                0 <= i < self@.len() ==> {
                    &&& (#[trigger] r@[i]).id@ == self@[i].id
                    &&& r@[i].hostname@ == self@[i].hostname
                    &&& name_view(r@[i].username) == self@[i].username
                },
            newest_first(self@),
    {
        proof {
            use_type_invariant(self);
        }
        let mut r: Vec<UserData> = Vec::new();
        let mut i: usize = 0;
        while i < self.entries.len()
            invariant
                i <= self.entries@.len(),
                self@ == entries_view(self.entries@),
                r@.len() == i,
                forall|j: int|
                    0 <= j < i ==> {
                        &&& (#[trigger] r@[j]).id@ == self@[j].id
                        &&& r@[j].hostname@ == self@[j].hostname
                        &&& name_view(r@[j].username) == self@[j].username
                    },
            decreases self.entries@.len() - i,
        {
            r.push(self.entries[i].user.copied());
            i = i + 1;
        }
        r
    }

    /// Every row, newest exchange first, with its time.
    pub fn rows(&self) -> (r: Vec<BookEntry>)
        ensures
            entries_view(r@) == self@,
    {
        let mut r: Vec<BookEntry> = Vec::new();
        let mut i: usize = 0;
        while i < self.entries.len()
            invariant
                i <= self.entries@.len(),
                self@ == entries_view(self.entries@),
                r@.len() == i,
                entries_view(r@) == self@.subrange(0, i as int),
            decreases self.entries@.len() - i,
        {
            let c = self.entries[i].copied();
            let ghost before = r@;
            r.push(c);
            proof {
                assert(self@[i as int] == self.entries@[i as int]@);
                assert forall|j: int| 0 <= j <= i implies #[trigger] entries_view(r@)[j] == self@[j] by {
                    if j < i {
                        assert(r@[j] == before[j]);
                        assert(entries_view(before)[j] == self@.subrange(0, i as int)[j]);
                    }
                }
            }
            i = i + 1;
            assert(entries_view(r@) =~= self@.subrange(0, i as int));
        }
        assert(self@.subrange(0, i as int) =~= self@);
        r
    }

    /// The time of the last exchange with `id`, if the book has it.
    pub fn last_update_of(&self, id: &[u8; 57]) -> (r: Option<i64>)
        ensures
            r matches Some(t) ==> last_update(self@, id@) == Some(t as int),
            r is None ==> last_update(self@, id@) is None,
    {
        match self.find(id) {
            Some(i) => Some(self.entries[i].lastupdate),
            None => None,
        }
    }

    /// The number of rows.
    pub fn len(&self) -> (r: usize)
        ensures
            r == self@.len(),
    {
        self.entries.len()
    }

    /// Adds the peer that a printable address names, with `now` as the time of
    /// the last exchange; `None` when the address does not decode or the key is
    /// already in the book.
    pub fn add_user(&mut self, address: &str, now: i64) -> (r: Option<BookEntry>)
        ensures
            r is Some <==> (address_fields(trimmed(address@)) matches Some((id, _)) && !has_id(old(self)@, id)),
            r matches Some(e) ==> {
                &&& address_fields(trimmed(address@)) == Some((e@.id, e@.hostname))
                &&& e@.username is None
                &&& e@.lastupdate == now as int
                &&& final(self)@ == with_entry(old(self)@, e@)
            },
            r is None ==> final(self)@ == old(self)@,
            book_wf(final(self)@),
    {
        proof {
            use_type_invariant(&*self);
        }
        let user = match decode_address(address) {
            Some(u) => u,
            None => {
                return None;
            },
        };
        let e = BookEntry { lastupdate: now, user };
        let kept = e.copied();
        if self.insert_entry(e) {
            Some(kept)
        } else {
            None
        }
    }

    /// `add_user` at the current time.
    pub fn add_user_now(&mut self, address: &str) -> (r: Option<BookEntry>)
        ensures
            r is Some <==> (address_fields(trimmed(address@)) matches Some((id, _)) && !has_id(old(self)@, id)),
            r matches Some(e) ==> {
                &&& address_fields(trimmed(address@)) == Some((e@.id, e@.hostname))
                &&& e@.username is None
                &&& final(self)@ == with_entry(old(self)@, e@)
            },
            r is None ==> final(self)@ == old(self)@,
            book_wf(final(self)@),
    {
        let now = clock_now();
        self.add_user(address, now)
    }

    /// `touch` at the current time; the time that was set, when the book has `id`.
    pub fn touch_now(&mut self, id: &[u8; 57]) -> (r: Option<i64>)
        ensures
            r is Some <==> has_id(old(self)@, id@),
            r matches Some(t) ==> last_update(final(self)@, id@) == Some(t as int),
            r matches Some(t) ==> final(self)@ == touched(old(self)@, id@, t as int),
            r is None ==> final(self)@ == old(self)@,
            book_wf(final(self)@),
    {
        let now = clock_now();
        if self.touch(id, now) {
            Some(now)
        } else {
            None
        }
    }
}

} // verus!
