//! An in-memory store of string keys and string values.

use vstd::prelude::*;

verus! {

/// Maps string keys to string values, in memory.
pub struct KvStore {
    entries: Vec<(String, String)>,
    contents: Ghost<Map<Seq<char>, Seq<char>>>,
}

/// `entries` holds each key once, and its pairs are exactly those of
/// `contents`.
spec fn stores(entries: Seq<(String, String)>, contents: Map<Seq<char>, Seq<char>>) -> bool {
    &&& forall|i: int, j: int| 0 <= i < j < entries.len() ==> entries[i].0@ != entries[j].0@
    &&& forall|i: int|
        0 <= i < entries.len() ==> contents.contains_key(#[trigger] entries[i].0@)
            && contents[entries[i].0@] == entries[i].1@
    &&& forall|k: Seq<char>|
        #[trigger] contents.contains_key(k) ==> exists|i: int|
            0 <= i < entries.len() && entries[i].0@ == k
}

impl View for KvStore {
    type V = Map<Seq<char>, Seq<char>>;

    /// The key-value pairs held.
    closed spec fn view(&self) -> Map<Seq<char>, Seq<char>> {
        self.contents@
    }
}

impl KvStore {
    #[verifier::type_invariant]
    closed spec fn inv(self) -> bool {
        stores(self.entries@, self.contents@)
    }

    /// An empty store.
    pub fn new() -> (store: Self)
        ensures
            store@ == Map::<Seq<char>, Seq<char>>::empty(),
    {
        KvStore { entries: Vec::new(), contents: Ghost(Map::empty()) }
    }

    /// The position of `key` among the entries, if it is stored.
    fn position(&self, key: &String) -> (pos: Option<usize>)
        ensures
            match pos {
                Some(i) => i < self.entries@.len() && self.entries@[i as int].0@ == key@,
                None => !self@.contains_key(key@),
            },
    {
        proof {
            use_type_invariant(self);
        }
        let mut i: usize = 0;
        while i < self.entries.len()
            invariant
                i <= self.entries@.len(),
                forall|j: int| 0 <= j < i ==> self.entries@[j].0@ != key@,
            decreases self.entries.len() - i,
        {
            if self.entries[i].0 == *key {
                return Some(i);
            }
            i = i + 1;
        }
        None
    }

    /// Takes the entries out of the store, leaving it empty.
    fn take_entries(&mut self) -> (parts: (Vec<(String, String)>, Ghost<Map<Seq<char>, Seq<char>>>))
        ensures
            parts.1@ == old(self)@,
            parts.0@ == old(self).entries@,
            final(self)@ == Map::<Seq<char>, Seq<char>>::empty(),
            stores(parts.0@, parts.1@),
    {
        proof {
            use_type_invariant(&*self);
        }
        let mut store = KvStore::new();
        std::mem::swap(&mut store, self);
        let KvStore { entries, contents } = store;
        (entries, contents)
    }

    /// Stores `value` under `key`, replacing any value stored there before.
    pub fn set(&mut self, key: String, value: String)
        ensures
            final(self)@ == old(self)@.insert(key@, value@),
    {
        let pos = self.position(&key);
        let (mut entries, contents) = self.take_entries();
        let ghost k = key@;
        let ghost v = value@;
        let ghost old_entries = entries@;
        let ghost new_contents = contents@.insert(k, v);
        match pos {
            Some(i) => {
                entries.set(i, (key, value));
                proof {
                    assert forall|j: int| 0 <= j < entries@.len() implies #[trigger] entries@[j].0@
                        == old_entries[j].0@ by {
                        if j != i {
                            assert(entries@[j] == old_entries[j]);
                        }
                    }
                    assert forall|j: int| 0 <= j < entries@.len() implies new_contents.contains_key(
                        #[trigger] entries@[j].0@,
                    ) && new_contents[entries@[j].0@] == entries@[j].1@ by {
                        if j != i {
                            assert(entries@[j] == old_entries[j]);
                        }
                    }
                    assert forall|q: Seq<char>| #[trigger] new_contents.contains_key(q) implies exists|
                        j: int,
                    | 0 <= j < entries@.len() && entries@[j].0@ == q by {
                        if q != k {
                            let j = choose|j: int| 0 <= j < old_entries.len() && old_entries[j].0@ == q;
                            assert(entries@[j] == old_entries[j]);
                        } else {
                            assert(entries@[i as int].0@ == q);
                        }
                    }
                }
            },
            None => {
                entries.push((key, value));
                proof {
                    assert forall|j: int| 0 <= j < old_entries.len() implies #[trigger] entries@[j]
                        == old_entries[j] && old_entries[j].0@ != k by {
                        assert(contents@.contains_key(old_entries[j].0@));
                    }
                    assert forall|j: int| 0 <= j < entries@.len() implies new_contents.contains_key(
                        #[trigger] entries@[j].0@,
                    ) && new_contents[entries@[j].0@] == entries@[j].1@ by {
                        if j < old_entries.len() {
                            assert(entries@[j] == old_entries[j]);
                        }
                    }
                    assert forall|q: Seq<char>| #[trigger] new_contents.contains_key(q) implies exists|
                        j: int,
                    | 0 <= j < entries@.len() && entries@[j].0@ == q by {
                        if q != k {
                            let j = choose|j: int| 0 <= j < old_entries.len() && old_entries[j].0@ == q;
                            assert(entries@[j] == old_entries[j]);
                        } else {
                            assert(entries@[old_entries.len() as int].0@ == q);
                        }
                    }
                }
            },
        }
        assert(stores(entries@, new_contents));
        *self = KvStore { entries, contents: Ghost(new_contents) };
    }

    /// The value stored under `key`, if any.
    pub fn get(&self, key: String) -> (value: Option<String>)
        ensures
            match value {
                Some(v) => self@.contains_key(key@) && self@[key@] == v@,
                None => !self@.contains_key(key@),
            },
    {
        proof {
            use_type_invariant(self);
        }
        match self.position(&key) {
            Some(i) => Some(self.entries[i].1.clone()),
            None => None,
        }
    }

    /// Removes `key` and the value stored under it, if any.
    pub fn remove(&mut self, key: String)
        ensures
            final(self)@ == old(self)@.remove(key@),
    {
        let pos = self.position(&key);
        let (mut entries, contents) = self.take_entries();
        let ghost k = key@;
        let ghost old_entries = entries@;
        let ghost new_contents = contents@.remove(k);
        match pos {
            Some(i) => {
                entries.remove(i);
                proof {
                    assert forall|j: int| 0 <= j < entries@.len() implies #[trigger] entries@[j]
                        == old_entries[if j < i {
                        j
                    } else {
                        j + 1
                    }] by {}
                    assert forall|a: int, b: int|
                        0 <= a < b < entries@.len() implies entries@[a].0@ != entries@[b].0@ by {
                        let a0 = if a < i {
                            a
                        } else {
                            a + 1
                        };
                        let b0 = if b < i {
                            b
                        } else {
                            b + 1
                        };
                        assert(entries@[a] == old_entries[a0]);
                        assert(entries@[b] == old_entries[b0]);
                    }
                    assert forall|j: int| 0 <= j < entries@.len() implies new_contents.contains_key(
                        #[trigger] entries@[j].0@,
                    ) && new_contents[entries@[j].0@] == entries@[j].1@ by {
                        let j0 = if j < i {
                            j
                        } else {
                            j + 1
                        };
                        assert(entries@[j] == old_entries[j0]);
                        assert(j0 != i);
                    }
                    assert forall|q: Seq<char>| #[trigger] new_contents.contains_key(q) implies exists|
                        j: int,
                    | 0 <= j < entries@.len() && entries@[j].0@ == q by {
                        let j0 = choose|j0: int| 0 <= j0 < old_entries.len() && old_entries[j0].0@ == q;
                        assert(j0 != i);
                        let j = if j0 < i {
                            j0
                        } else {
                            j0 - 1
                        };
                        assert(entries@[j] == old_entries[j0]);
                    }
                }
            },
            None => {
                assert(new_contents =~= contents@);
            },
        }
        assert(stores(entries@, new_contents));
        *self = KvStore { entries, contents: Ghost(new_contents) };
    }
}

/// What a store gives back: after `value` is set under `key`, reading `key`
/// gives `value` and every other key reads as before; after `key` is
/// removed it is absent and every other key reads as before.
pub proof fn lemma_read_after_write(
    store: Map<Seq<char>, Seq<char>>,
    key: Seq<char>,
    value: Seq<char>,
    other: Seq<char>,
)
    ensures
        store.insert(key, value).contains_key(key),
        store.insert(key, value)[key] == value,
        !store.remove(key).contains_key(key),
        other != key ==> store.insert(key, value).contains_key(other) == store.contains_key(other),
        other != key && store.contains_key(other) ==> store.insert(key, value)[other] == store[other],
        other != key ==> store.remove(key).contains_key(other) == store.contains_key(other),
        other != key && store.contains_key(other) ==> store.remove(key)[other] == store[other],
{
}

/// A change made to a store: `set` of a key to a value (`Write`), or `remove` of a key.
pub enum StoreOp {
    Write(Seq<char>, Seq<char>),
    Remove(Seq<char>),
}

/// The contents after one change, as `set` and `remove` make them.
pub open spec fn apply_op(store: Map<Seq<char>, Seq<char>>, op: StoreOp) -> Map<
    Seq<char>,
    Seq<char>,
> {
    match op {
        StoreOp::Write(key, value) => store.insert(key, value),
        StoreOp::Remove(key) => store.remove(key),
    }
}

/// The contents after the changes `ops`, first to last.
pub open spec fn apply_ops(store: Map<Seq<char>, Seq<char>>, ops: Seq<StoreOp>) -> Map<
    Seq<char>,
    Seq<char>,
>
    decreases ops.len(),
{
    if ops.len() == 0 {
        store
    } else {
        apply_op(apply_ops(store, ops.drop_last()), ops.last())
    }
}

/// The value the last change to `key` in `ops` left under it: `Some` of the
/// value of the last `set`, `None` when the last change was a `remove` or
/// there was none.
pub open spec fn last_write(ops: Seq<StoreOp>, key: Seq<char>) -> Option<Seq<char>>
    decreases ops.len(),
{
    if ops.len() == 0 {
        None
    } else {
        match ops.last() {
            StoreOp::Write(k, v) => if k == key {
                Some(v)
            } else {
                last_write(ops.drop_last(), key)
            },
            StoreOp::Remove(k) => if k == key {
                None
            } else {
                last_write(ops.drop_last(), key)
            },
        }
    }
}

/// After any sequence of `set` and `remove` on a new store, a key holds the
/// value of the last `set` to it, and is absent when the last change to it
/// was a `remove` or there was none.
pub proof fn lemma_reads_see_last_write(ops: Seq<StoreOp>, key: Seq<char>)
    ensures
        apply_ops(Map::empty(), ops).contains_key(key) == last_write(ops, key) is Some,
        last_write(ops, key) matches Some(v) ==> apply_ops(Map::empty(), ops)[key] == v,
    decreases ops.len(),
{
    if ops.len() > 0 {
        lemma_reads_see_last_write(ops.drop_last(), key);
    }
}

} // verus!
