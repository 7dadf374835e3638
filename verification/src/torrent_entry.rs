use vstd::prelude::*;
use vstd::std_specs::cmp::PartialEqSpecImpl;

use crate::info_hash::InfoHash;

verus! {

/// A torrent known to the client: its info hash, the libtorrent handle once
/// the session has reported the torrent as added, and the channel through
/// which its status is published.
pub struct TorrentEntry<H, S> {
    pub info_hash: InfoHash,
    pub handle: Option<H>,
    pub status: S,
}

impl<H, S> PartialEq for TorrentEntry<H, S> {
    fn eq(&self, other: &Self) -> (r: bool) {
        self.info_hash == other.info_hash
    }
}

impl<H, S> PartialEqSpecImpl for TorrentEntry<H, S> {
    open spec fn obeys_eq_spec() -> bool {
        true
    }

    /// Two entries are equal when they are entries of the same torrent.
    open spec fn eq_spec(&self, other: &TorrentEntry<H, S>) -> bool {
        self.info_hash == other.info_hash
    }
}

impl<H, S> Eq for TorrentEntry<H, S> {
}

/// Some entry of `entries` is the torrent `key`.
pub open spec fn has_key<H, S>(entries: Seq<TorrentEntry<H, S>>, key: InfoHash) -> bool {
    exists|i: int| 0 <= i < entries.len() && #[trigger] entries[i].info_hash == key
}

/// No torrent has two entries.
pub open spec fn keys_distinct<H, S>(entries: Seq<TorrentEntry<H, S>>) -> bool {
    forall|i: int, j: int|
        0 <= i < entries.len() && 0 <= j < entries.len() && i != j
            ==> #[trigger] entries[i].info_hash != #[trigger] entries[j].info_hash
}

/// The position of the entry of `key`, where there is one.
pub open spec fn key_index<H, S>(entries: Seq<TorrentEntry<H, S>>, key: InfoHash) -> int {
    choose|i: int| 0 <= i < entries.len() && #[trigger] entries[i].info_hash == key
}

/// The entry of `key`, if the client knows the torrent.
pub open spec fn lookup<H, S>(entries: Seq<TorrentEntry<H, S>>, key: InfoHash) -> Option<
    TorrentEntry<H, S>,
> {
    if has_key(entries, key) {
        Some(entries[key_index(entries, key)])
    } else {
        None
    }
}

/// Stores `entry`, in place of the entry of the same torrent where there is
/// one, else after the others.
pub open spec fn insert_entry<H, S>(entries: Seq<TorrentEntry<H, S>>, entry: TorrentEntry<H, S>) -> Seq<
    TorrentEntry<H, S>,
> {
    if has_key(entries, entry.info_hash) {
        entries.update(key_index(entries, entry.info_hash), entry)
    } else {
        entries.push(entry)
    }
}

/// The handles of the entries that have one, in the order of the entries.
pub open spec fn handles_of<H, S>(entries: Seq<TorrentEntry<H, S>>) -> Seq<H>
    decreases entries.len(),
{
    if entries.len() == 0 {
        Seq::empty()
    } else {
        let rest = handles_of(entries.drop_last());
        match entries.last().handle {
            Some(h) => rest.push(h),
            None => rest,
        }
    }
}

/// There are never more handles than entries.
pub proof fn lemma_handles_at_most_entries<H, S>(entries: Seq<TorrentEntry<H, S>>)
    ensures
        handles_of(entries).len() <= entries.len(),
    decreases entries.len(),
{
    if entries.len() > 0 {
        lemma_handles_at_most_entries(entries.drop_last());
    }
}

/// The entry holds a handle.
pub open spec fn has_handle<H, S>(e: TorrentEntry<H, S>) -> bool {
    e.handle is Some
}

/// The handle that the entry holds.
pub open spec fn handle_of<H, S>(e: TorrentEntry<H, S>) -> H {
    e.handle->0
}

/// The entries that hold a handle, in order.
pub open spec fn entries_with_handles<H, S>(entries: Seq<TorrentEntry<H, S>>) -> Seq<TorrentEntry<H, S>> {
    entries.filter(|e: TorrentEntry<H, S>| has_handle(e))
}

/// The handles asked for resume data are exactly those of the entries that
/// hold one, one per such entry, in the order of the entries.
pub proof fn lemma_handles_are_those_of_entries_with_one<H, S>(entries: Seq<TorrentEntry<H, S>>)
    ensures
        handles_of(entries) == entries_with_handles(entries).map_values(
            |e: TorrentEntry<H, S>| handle_of(e),
        ),
        handles_of(entries).len() == entries_with_handles(entries).len(),
    decreases entries.len(),
{
    reveal(Seq::filter);
    let f = |e: TorrentEntry<H, S>| handle_of(e);
    if entries.len() > 0 {
        lemma_handles_are_those_of_entries_with_one(entries.drop_last());
        let sub = entries_with_handles(entries.drop_last());
        if has_handle(entries.last()) {
            assert(sub.push(entries.last()).map_values(f) =~= sub.map_values(f).push(
                handle_of(entries.last()),
            ));
        }
    } else {
        assert(entries_with_handles(entries).map_values(f) =~= Seq::<H>::empty());
    }
}

/// Registering one more entry adds its handle, if it holds one, after the
/// others, and otherwise adds nothing.
pub proof fn lemma_handles_of_push<H, S>(entries: Seq<TorrentEntry<H, S>>, entry: TorrentEntry<H, S>)
    ensures
        has_handle(entry) ==> handles_of(entries.push(entry)) == handles_of(entries).push(
            handle_of(entry),
        ),
        !has_handle(entry) ==> handles_of(entries.push(entry)) == handles_of(entries),
{
    assert(entries.push(entry).drop_last() =~= entries);
}

/// Every entry that holds a handle has its handle asked: the handle is
/// among `handles_of`.
pub proof fn lemma_every_handle_is_asked<H, S>(entries: Seq<TorrentEntry<H, S>>, i: int)
    requires
        0 <= i < entries.len(),
        has_handle(entries[i]),
    ensures
        handles_of(entries).contains(handle_of(entries[i])),
    decreases entries.len(),
{
    let last = entries.len() - 1;
    if i == last {
        assert(handles_of(entries).last() == handle_of(entries[i]));
    } else {
        lemma_every_handle_is_asked(entries.drop_last(), i);
        let k = choose|k: int|
            0 <= k < handles_of(entries.drop_last()).len() && handles_of(entries.drop_last())[k]
                == handle_of(entries[i]);
        lemma_handles_at_most_entries(entries);
        assert(handles_of(entries)[k] == handle_of(entries[i]));
    }
}

/// The entry of `key`, if any, takes `handle`; everything else stays.
pub open spec fn attach_handle<H, S>(entries: Seq<TorrentEntry<H, S>>, key: InfoHash, handle: H) -> Seq<
    TorrentEntry<H, S>,
> {
    if has_key(entries, key) {
        let i = key_index(entries, key);
        entries.update(i, TorrentEntry { handle: Some(handle), ..entries[i] })
    } else {
        entries
    }
}

/// Storing an entry keeps the torrents distinct, makes the entry the one
/// of its torrent, leaves every other torrent's entry as it was, and grows
/// the entries only when its torrent was not there before.
pub proof fn lemma_insert_entry<H, S>(
    entries: Seq<TorrentEntry<H, S>>,
    entry: TorrentEntry<H, S>,
    other: InfoHash,
)
    requires
        keys_distinct(entries),
    ensures
        keys_distinct(insert_entry(entries, entry)),
        lookup(insert_entry(entries, entry), entry.info_hash) == Some(entry),
        other != entry.info_hash ==> lookup(insert_entry(entries, entry), other) == lookup(
            entries,
            other,
        ),
        has_key(entries, entry.info_hash) ==> insert_entry(entries, entry).len() == entries.len(),
        !has_key(entries, entry.info_hash) ==> insert_entry(entries, entry).len() == entries.len()
            + 1,
{
    let key = entry.info_hash;
    let w = insert_entry(entries, entry);
    if has_key(entries, key) {
        let i = key_index(entries, key);
        assert(w[i].info_hash == key);
        assert(has_key(w, key));
        assert(key_index(w, key) == i);
    } else {
        let i = entries.len() as int;
        assert(w[i].info_hash == key);
        assert(has_key(w, key));
        assert(key_index(w, key) == i);
    }
    if other != key {
        if has_key(entries, other) {
            let j = key_index(entries, other);
            assert(w[j].info_hash == other);
            assert(has_key(w, other));
            assert(key_index(w, other) == j);
        } else {
            assert(!has_key(w, other)) by {
                if has_key(w, other) {
                    let j = key_index(w, other);
                    assert(entries[j].info_hash == other);
                }
            }
        }
    }
}

/// Attaching a handle keeps the torrents and their order: the entry of the
/// torrent, if any, takes the handle and keeps its status; every other
/// entry stays as it was.
pub proof fn lemma_attach_handle<H, S>(
    entries: Seq<TorrentEntry<H, S>>,
    key: InfoHash,
    handle: H,
    other: InfoHash,
)
    requires
        keys_distinct(entries),
    ensures
        keys_distinct(attach_handle(entries, key, handle)),
        attach_handle(entries, key, handle).len() == entries.len(),
        lookup(entries, key) is None ==> attach_handle(entries, key, handle) == entries,
        lookup(entries, key) matches Some(e) ==> lookup(attach_handle(entries, key, handle), key)
            == Some(TorrentEntry { handle: Some(handle), ..e }),
        other != key ==> lookup(attach_handle(entries, key, handle), other) == lookup(
            entries,
            other,
        ),
{
    let w = attach_handle(entries, key, handle);
    if has_key(entries, key) {
        let i = key_index(entries, key);
        assert(w[i].info_hash == key);
        assert(has_key(w, key));
        assert(key_index(w, key) == i);
        if other != key {
            if has_key(entries, other) {
                let j = key_index(entries, other);
                assert(w[j].info_hash == other);
                assert(has_key(w, other));
                assert(key_index(w, other) == j);
            } else {
                assert(!has_key(w, other)) by {
                    if has_key(w, other) {
                        let j = key_index(w, other);
                        assert(entries[j].info_hash == other);
                    }
                }
            }
        }
    }
}

/// The entries of the torrents a client knows, no torrent twice.
pub struct TorrentTable<H, S> {
    entries: Vec<TorrentEntry<H, S>>,
}

impl<H, S> View for TorrentTable<H, S> {
    type V = Seq<TorrentEntry<H, S>>;

    closed spec fn view(&self) -> Seq<TorrentEntry<H, S>> {
        self.entries@
    }
}

impl<H, S> TorrentTable<H, S> {
    #[verifier::type_invariant]
    closed spec fn inv(self) -> bool {
        keys_distinct(self.entries@)
    }

    pub fn new() -> (r: Self)
        ensures
            r@ == Seq::<TorrentEntry<H, S>>::empty(),
            keys_distinct(r@),
    {
        TorrentTable { entries: Vec::new() }
    }

    /// The position of the entry of `key`.
    fn find(&self, key: &InfoHash) -> (r: Option<usize>)
        ensures
            match r {
                Some(i) => i < self@.len() && i == key_index(self@, *key) && has_key(self@, *key),
                None => !has_key(self@, *key),
            },
    {
        proof {
            use_type_invariant(self);
        }
        let mut i: usize = 0;
        while i < self.entries.len()
            invariant
                i <= self.entries@.len(),
                keys_distinct(self.entries@),
                forall|j: int| 0 <= j < i ==> #[trigger] self.entries@[j].info_hash != *key,
            decreases self.entries@.len() - i,
        {
            if self.entries[i].info_hash == *key {
                assert(self@[i as int].info_hash == *key);
                assert(has_key(self@, *key));
                let ghost k = key_index(self@, *key);
                assert(self@[k].info_hash == *key);
                assert(k == i);
                return Some(i);
            }
            i = i + 1;
        }
        None
    }

    /// The entry of the torrent `key`, if any.
    pub fn get(&self, key: &InfoHash) -> (r: Option<&TorrentEntry<H, S>>)
        ensures
            match r {
                Some(e) => lookup(self@, *key) == Some(*e),
                None => lookup(self@, *key) is None,
            },
    {
        match self.find(key) {
            Some(i) => Some(&self.entries[i]),
            None => None,
        }
    }

    /// Stores `entry` in place of the entry of its torrent, or after the others.
    pub fn insert(&mut self, entry: TorrentEntry<H, S>)
        ensures
            final(self)@ == insert_entry(old(self)@, entry),
            keys_distinct(final(self)@),
    {
        proof {
            use_type_invariant(&*self);
            lemma_insert_entry(self@, entry, entry.info_hash);
        }
        let found = self.find(&entry.info_hash);
        let mut entries: Vec<TorrentEntry<H, S>> = Vec::new();
        std::mem::swap(&mut entries, &mut self.entries);
        match found {
            Some(i) => {
                entries.set(i, entry);
            },
            None => {
                entries.push(entry);
            },
        }
        self.entries = entries;
    }

    /// The entry of `key`, if any, takes `handle`.
    pub fn attach_handle(&mut self, key: &InfoHash, handle: H)
        ensures
            final(self)@ == attach_handle(old(self)@, *key, handle),
            keys_distinct(final(self)@),
    {
        proof {
            use_type_invariant(&*self);
            lemma_attach_handle(self@, *key, handle, *key);
        }
        let found = self.find(key);
        let mut entries: Vec<TorrentEntry<H, S>> = Vec::new();
        std::mem::swap(&mut entries, &mut self.entries);
        match found {
            Some(i) => {
                entries[i].handle = Some(handle);
            },
            None => {},
        }
        self.entries = entries;
    }

    /// How many entries have a handle.
    pub fn handle_count(&self) -> (r: usize)
        ensures
            r == handles_of(self@).len(),
            r == entries_with_handles(self@).len(),
    {
        proof {
            lemma_handles_are_those_of_entries_with_one(self@);
        }
        let mut n: usize = 0;
        let mut i: usize = 0;
        while i < self.entries.len()
            invariant
                i <= self.entries@.len(),
                n == handles_of(self.entries@.take(i as int)).len(),
            decreases self.entries@.len() - i,
        {
            assert(self.entries@.take(i + 1).drop_last() == self.entries@.take(i as int));
            proof {
                lemma_handles_at_most_entries(self.entries@.take(i as int));
            }
            if self.entries[i].handle.is_some() {
                n = n + 1;
            }
            i = i + 1;
        }
        assert(self.entries@.take(i as int) == self.entries@);
        n
    }

    /// The handles of the entries that have one, in the order of the entries.
    pub fn handles(&self) -> (r: Vec<&H>)
        ensures
            r@.len() == handles_of(self@).len(),
            forall|i: int| 0 <= i < r@.len() ==> *r@[i] == handles_of(self@)[i],
            r@.len() == entries_with_handles(self@).len(),
            forall|i: int|
                0 <= i < r@.len() ==> *r@[i] == handle_of(entries_with_handles(self@)[i]),
    {
        proof {
            lemma_handles_are_those_of_entries_with_one(self@);
        }
        let mut r: Vec<&H> = Vec::new();
        let mut i: usize = 0;
        while i < self.entries.len()
            invariant
                i <= self.entries@.len(),
                r@.len() == handles_of(self.entries@.take(i as int)).len(),
                forall|k: int|
                    0 <= k < r@.len() ==> *r@[k] == handles_of(self.entries@.take(i as int))[k],
            decreases self.entries@.len() - i,
        {
            assert(self.entries@.take(i + 1).drop_last() == self.entries@.take(i as int));
            match &self.entries[i].handle {
                Some(h) => {
                    r.push(h);
                },
                None => {},
            }
            i = i + 1;
        }
        assert(self.entries@.take(i as int) == self.entries@);
        r
    }
}

} // verus!
