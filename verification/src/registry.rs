//! Stable keys for a changing set of values, on top of `slab::Slab`.

use slab::Slab;
use vstd::prelude::*;

verus! {

/// `slab::Slab`: a store that hands out a small integer key for each value put
/// into it and frees the key again on removal. Proofs see a slab only through
/// [`slab_entries`].
#[verifier::external_type_specification]
#[verifier::external_body]
#[verifier::reject_recursive_types(T)]
pub struct ExSlab<T>(Slab<T>);

/// The occupied keys of a slab, each with the value stored under it. The
/// functions below say what `Slab::new`, `insert`, `get`, `remove` and
/// `index_mut` do to it; none of that is proved here.
pub uninterp spec fn slab_entries(slab: Slab<usize>) -> Map<usize, usize>;

/// `Slab::new`: a slab without entries.
#[verifier::external_body]
fn slab_new() -> (made: Slab<usize>)
    ensures
        slab_entries(made) == (Map::<usize, usize>::empty()),
{
    Slab::new()
}

/// `Slab::insert`: stores `value` under a key that was vacant and returns the
/// key; every other entry stays as it was. Like `Vec::push`, the call can
/// fail only where memory runs out.
#[verifier::external_body]
fn slab_insert(slab: &mut Slab<usize>, value: usize) -> (key: usize)
    ensures
        !slab_entries(*old(slab)).contains_key(key),
        slab_entries(*final(slab)) == slab_entries(*old(slab)).insert(key, value),
{
    slab.insert(value)
}

/// `Slab::get`: the value stored under `key`, or nothing where the key is
/// vacant or out of range.
#[verifier::external_body]
fn slab_get(slab: &Slab<usize>, key: usize) -> (value: Option<usize>)
    ensures
        value == if slab_entries(*slab).contains_key(key) {
            Some(slab_entries(*slab)[key])
        } else {
            None
        },
{
    slab.get(key).copied()
}

/// `Slab::remove`: takes out and returns the value stored under an occupied
/// key; every other entry stays as it was. The call panics on a vacant key,
/// which the precondition excludes.
#[verifier::external_body]
fn slab_remove(slab: &mut Slab<usize>, key: usize) -> (value: usize)
    requires
        slab_entries(*old(slab)).contains_key(key),
    ensures
        value == slab_entries(*old(slab))[key],
        slab_entries(*final(slab)) == slab_entries(*old(slab)).remove(key),
{
    slab.remove(key)
}

/// Assignment through `Slab::index_mut`: replaces the value stored under an
/// occupied key. The call panics on a vacant key, which the precondition
/// excludes.
#[verifier::external_body]
fn slab_set(slab: &mut Slab<usize>, key: usize, value: usize)
    requires
        slab_entries(*old(slab)).contains_key(key),
    ensures
        slab_entries(*final(slab)) == slab_entries(*old(slab)).insert(key, value),
{
    slab[key] = value;
}

/// Where keys are distinct, each key is found at its own place.
pub proof fn lemma_place_of(keys: Seq<usize>, place: int)
    requires
        keys.no_duplicates(),
        0 <= place < keys.len(),
    ensures
        keys.contains(keys[place]),
        keys.index_of(keys[place]) == place,
{
    let found = keys.index_of(keys[place]);
    assert(0 <= found < keys.len() && keys[found] == keys[place]);
}

/// A new key behind all others: it is found at the end, and every other key
/// is found where it was.
pub proof fn lemma_key_joined(keys: Seq<usize>, key: usize)
    requires
        keys.no_duplicates(),
        !keys.contains(key),
    ensures
        keys.push(key).no_duplicates(),
        keys.push(key).contains(key),
        keys.push(key).index_of(key) == keys.len(),
        forall|other: usize| #[trigger]
            keys.contains(other) ==> keys.push(key).contains(other) && keys.push(key).index_of(other)
                == keys.index_of(other),
        forall|other: usize| #[trigger]
            keys.push(key).contains(other) ==> other == key || keys.contains(other),
{
    let joined = keys.push(key);
    assert forall|i: int, j: int| 0 <= i < joined.len() && 0 <= j < joined.len() && i != j implies joined[i]
        != joined[j] by {
        if i < keys.len() {
            assert(keys.contains(keys[i]));
        }
        if j < keys.len() {
            assert(keys.contains(keys[j]));
        }
    }
    assert(joined[keys.len() as int] == key);
    lemma_place_of(joined, keys.len() as int);
    assert forall|other: usize| #[trigger] keys.contains(other) implies joined.contains(other)
        && joined.index_of(other) == keys.index_of(other) by {
        let at = keys.index_of(other);
        assert(0 <= at < keys.len() && keys[at] == other);
        assert(joined[at] == other);
        lemma_place_of(joined, at);
    }
    assert forall|other: usize| #[trigger] joined.contains(other) implies other == key
        || keys.contains(other) by {
        let at = joined.index_of(other);
        assert(0 <= at < joined.len() && joined[at] == other);
        if at < keys.len() {
            assert(keys[at] == other);
        }
    }
}

/// A key taken out, the last key moving to its place: the key is gone, every
/// other key stays, and each is found where it was, except the one that was
/// last, which is found at the vacated place.
pub proof fn lemma_key_left(keys: Seq<usize>, key: usize)
    requires
        keys.no_duplicates(),
        keys.contains(key),
    ensures
        ({
            let place = keys.index_of(key);
            let rest = keys.update(place, keys.last()).drop_last();
            &&& rest.no_duplicates()
            &&& rest.len() == keys.len() - 1
            &&& !rest.contains(key)
            &&& forall|other: usize| #[trigger]
                keys.contains(other) && other != key ==> rest.contains(other) && rest.index_of(other)
                    == if other == keys.last() {
                    place
                } else {
                    keys.index_of(other)
                }
            &&& forall|other: usize| #[trigger] rest.contains(other) ==> keys.contains(other)
        }),
{
    let place = keys.index_of(key);
    assert(0 <= place < keys.len() && keys[place] == key);
    let rest = keys.update(place, keys.last()).drop_last();
    assert forall|i: int| 0 <= i < rest.len() implies rest[i] == if i == place {
        keys.last()
    } else {
        keys[i]
    } by {}
    assert forall|i: int, j: int| 0 <= i < rest.len() && 0 <= j < rest.len() && i != j implies rest[i]
        != rest[j] by {}
    if rest.contains(key) {
        let at = rest.index_of(key);
        assert(0 <= at < rest.len() && rest[at] == key);
    }
    assert forall|other: usize| #[trigger] keys.contains(other) && other != key implies rest.contains(
        other,
    ) && rest.index_of(other) == if other == keys.last() {
        place
    } else {
        keys.index_of(other)
    } by {
        let at = keys.index_of(other);
        assert(0 <= at < keys.len() && keys[at] == other);
        if other == keys.last() {
            assert(at == keys.len() - 1);
            assert(rest[place] == other);
            lemma_place_of(rest, place);
        } else {
            assert(rest[at] == other);
            lemma_place_of(rest, at);
        }
    }
    assert forall|other: usize| #[trigger] rest.contains(other) implies keys.contains(other) by {
        let at = rest.index_of(other);
        assert(0 <= at < rest.len() && rest[at] == other);
        if at == place {
            assert(keys[keys.len() - 1] == other);
        } else {
            assert(keys[at] == other);
        }
    }
}

/// A collection that gives every value a stable key.
///
/// The values lie densely in a vector, so that all of them can be visited
/// without looking at vacant places, and a slab maps each key to the place of
/// its value. Inserting and removing take constant time, and removing one
/// value never changes the key of another.
pub struct Registry<V> {
    index: Slab<usize>,
    keys: Vec<usize>,
    values: Vec<V>,
}

impl<V> Registry<V> {
    /// The keys in use, in the order in which the values are visited.
    pub closed spec fn order(&self) -> Seq<usize> {
        self.keys@
    }

    /// The values, in the order of their keys in [`Self::order`].
    pub closed spec fn values(&self) -> Seq<V> {
        self.values@
    }

    /// The slab and the two vectors describe one and the same assignment of
    /// keys to places.
    pub closed spec fn wf(&self) -> bool {
        let entries = slab_entries(self.index);
        &&& self.keys@.len() == self.values@.len()
        &&& forall|i: int|
            0 <= i < self.keys@.len() ==> entries.contains_key(#[trigger] self.keys@[i])
                && entries[self.keys@[i]] == i
        &&& forall|k: usize| #[trigger]
            entries.contains_key(k) ==> entries[k] < self.keys@.len() && self.keys@[entries[k] as int]
                == k
    }

    /// Whether `key` is in use.
    pub open spec fn contains(&self, key: usize) -> bool {
        self.order().contains(key)
    }

    /// The place of `key` in [`Self::order`].
    pub open spec fn place(&self, key: usize) -> int {
        self.order().index_of(key)
    }

    /// The value stored under `key`.
    pub open spec fn value(&self, key: usize) -> V {
        self.values()[self.place(key)]
    }

    /// A well-formed registry has one value for each key and no key twice.
    pub proof fn lemma_distinct(&self)
        requires
            self.wf(),
        ensures
            self.order().len() == self.values().len(),
            self.order().no_duplicates(),
    {
        assert forall|i: int, j: int|
            0 <= i < self.keys@.len() && 0 <= j < self.keys@.len() && i != j implies self.keys@[i]
            != self.keys@[j] by {
            let entries = slab_entries(self.index);
            assert(entries[self.keys@[i]] == i);
            assert(entries[self.keys@[j]] == j);
        }
    }

    /// A registry without entries.
    pub fn new() -> (r: Self)
        ensures
            r.wf(),
            r.order() == Seq::<usize>::empty(),
            r.values() == Seq::<V>::empty(),
    {
        Registry { index: slab_new(), keys: Vec::new(), values: Vec::new() }
    }

    /// The number of entries.
    pub fn len(&self) -> (n: usize)
        requires
            self.wf(),
        ensures
            n == self.order().len(),
            n == self.values().len(),
    {
        self.keys.len()
    }

    /// Stores `value` behind all others, under a key that was not in use.
    pub fn insert(&mut self, value: V) -> (key: usize)
        requires
            old(self).wf(),
        ensures
            final(self).wf(),
            !old(self).contains(key),
            final(self).order() == old(self).order().push(key),
            final(self).values() == old(self).values().push(value),
    {
        let place = self.keys.len();
        let key = slab_insert(&mut self.index, place);
        self.keys.push(key);
        self.values.push(value);
        proof {
            let before = slab_entries(old(self).index);
            let after = slab_entries(self.index);
            assert(!old(self).order().contains(key)) by {
                if old(self).order().contains(key) {
                    let i = choose|i: int| 0 <= i < old(self).keys@.len() && old(self).keys@[i] == key;
                    assert(before.contains_key(old(self).keys@[i]));
                }
            }
            assert forall|i: int| 0 <= i < self.keys@.len() implies after.contains_key(
                #[trigger] self.keys@[i],
            ) && after[self.keys@[i]] == i by {
                if i < place {
                    assert(before.contains_key(old(self).keys@[i]));
                }
            }
            assert forall|k: usize| #[trigger] after.contains_key(k) implies after[k]
                < self.keys@.len() && self.keys@[after[k] as int] == k by {
                if k != key {
                    assert(before.contains_key(k));
                }
            }
        }
        key
    }

    /// The place of `key`, if it is in use.
    pub fn position(&self, key: usize) -> (r: Option<usize>)
        requires
            self.wf(),
        ensures
            match r {
                Some(place) => self.contains(key) && place == self.place(key) && place
                    < self.order().len(),
                None => !self.contains(key),
            },
    {
        let r = slab_get(&self.index, key);
        proof {
            let entries = slab_entries(self.index);
            self.lemma_distinct();
            if entries.contains_key(key) {
                let p = entries[key] as int;
                assert(self.keys@[p] == key);
                let q = self.keys@.index_of(key);
                assert(0 <= q < self.keys@.len() && self.keys@[q] == key);
            } else {
                if self.keys@.contains(key) {
                    let i = choose|i: int| 0 <= i < self.keys@.len() && self.keys@[i] == key;
                    assert(entries.contains_key(self.keys@[i]));
                }
            }
        }
        r
    }

    /// The key at `place`.
    pub fn key_at(&self, place: usize) -> (key: usize)
        requires
            self.wf(),
            place < self.order().len(),
        ensures
            key == self.order()[place as int],
    {
        self.keys[place]
    }

    /// The value at `place`.
    pub fn get(&self, place: usize) -> (value: &V)
        requires
            self.wf(),
            place < self.order().len(),
        ensures
            *value == self.values()[place as int],
    {
        &self.values[place]
    }

    /// The value at `place`, for changing it where it lies. Keys and places
    /// stay as they are.
    pub fn get_mut(&mut self, place: usize) -> (value: &mut V)
        requires
            old(self).wf(),
            place < old(self).order().len(),
        ensures
            *value == old(self).values()[place as int],
            final(self).wf(),
            final(self).order() == old(self).order(),
            final(self).values() == old(self).values().update(place as int, *final(value)),
    {
        &mut self.values[place]
    }

    /// Takes out the value stored under `key`, if the key is in use. The last
    /// entry moves to the vacated place; all other entries stay where they
    /// are, and every remaining value keeps its key.
    pub fn remove(&mut self, key: usize) -> (r: Option<V>)
        requires
            old(self).wf(),
        ensures
            final(self).wf(),
            !old(self).contains(key) ==> r.is_none() && final(self).order() == old(self).order()
                && final(self).values() == old(self).values(),
            old(self).contains(key) ==> r == Some(old(self).value(key)) && final(self).order()
                == old(self).order().update(old(self).place(key), old(self).order().last()).drop_last()
                && final(self).values() == old(self).values().update(
                old(self).place(key),
                old(self).values().last(),
            ).drop_last(),
    {
        let found = self.position(key);
        match found {
            None => None,
            Some(_) => {
                let place = slab_remove(&mut self.index, key);
                let _ = self.keys.swap_remove(place);
                let value = self.values.swap_remove(place);
                if place < self.keys.len() {
                    let moved = self.keys[place];
                    proof {
                        old(self).lemma_distinct();
                        assert(moved == old(self).keys@[old(self).keys@.len() - 1]);
                        assert(slab_entries(old(self).index).contains_key(moved));
                    }
                    slab_set(&mut self.index, moved, place);
                }
                proof {
                    old(self).lemma_distinct();
                    let before = slab_entries(old(self).index);
                    let after = slab_entries(self.index);
                    let n = old(self).keys@.len() as int;
                    assert forall|i: int| 0 <= i < self.keys@.len() implies after.contains_key(
                        #[trigger] self.keys@[i],
                    ) && after[self.keys@[i]] == i by {
                        if i == place {
                            assert(self.keys@[i] == old(self).keys@[n - 1]);
                        } else {
                            assert(self.keys@[i] == old(self).keys@[i]);
                            assert(before.contains_key(old(self).keys@[i]));
                        }
                    }
                    assert forall|k: usize| #[trigger] after.contains_key(k) implies after[k]
                        < self.keys@.len() && self.keys@[after[k] as int] == k by {
                        assert(before.contains_key(k));
                    }
                }
                Some(value)
            },
        }
    }
}

} // verus!
