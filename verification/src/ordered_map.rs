use indexmap::IndexSet;
use vstd::prelude::*;

verus! {

/// `indexmap::IndexSet`: a hash set that keeps its items in the order in
/// which they were inserted. Nothing inside it is visible to proofs.
#[verifier::external_type_specification]
#[verifier::external_body]
#[verifier::reject_recursive_types(T)]
#[verifier::reject_recursive_types(S)]
pub struct ExIndexSet<T, S>(IndexSet<T, S>);

/// The strings that an `IndexSet<String>` holds, in its iteration order.
pub uninterp spec fn key_seq(keys: IndexSet<String>) -> Seq<Seq<char>>;

/// `IndexSet::new` creates a set that holds nothing.
#[verifier::external_body]
fn keys_new() -> (keys: IndexSet<String>)
    ensures
        key_seq(keys) == Seq::<Seq<char>>::empty(),
{
    IndexSet::new()
}

/// `IndexSet::get_index_of` returns the position of the item equal to `key`, or
/// `None` when the set holds no such item.
#[verifier::external_body]
fn keys_index_of(keys: &IndexSet<String>, key: &str) -> (r: Option<usize>)
    ensures
        match r {
            Some(i) => i < key_seq(*keys).len() && key_seq(*keys)[i as int] == key@,
            None => !key_seq(*keys).contains(key@),
        },
{
    keys.get_index_of(key)
}

/// `IndexSet::get_index` returns the item at a position, or `None` when the
/// position is past the end.
#[verifier::external_body]
fn keys_get(keys: &IndexSet<String>, i: usize) -> (r: Option<&String>)
    ensures
        match r {
            Some(k) => i < key_seq(*keys).len() && k@ == key_seq(*keys)[i as int],
            None => i >= key_seq(*keys).len(),
        },
{
    keys.get_index(i)
}

/// `IndexSet::insert_full` leaves the set unchanged and returns the position of the
/// equal item and `false` when there is one; otherwise it appends the item and
/// returns its position, the old length, and `true`.
#[verifier::external_body]
fn keys_insert(keys: &mut IndexSet<String>, key: String) -> (r: (usize, bool))
    ensures
        r.1 == !key_seq(*old(keys)).contains(key@),
        r.1 ==> r.0 == key_seq(*old(keys)).len() && key_seq(*final(keys)) == key_seq(
            *old(keys),
        ).push(key@),
        !r.1 ==> r.0 < key_seq(*old(keys)).len() && key_seq(*old(keys))[r.0 as int] == key@
            && key_seq(*final(keys)) == key_seq(*old(keys)),
{
    keys.insert_full(key)
}

/// `IndexSet::shift_remove_index` removes and returns the item at a position,
/// moving the items behind it one place forward; past the end it returns `None`
/// and changes nothing.
#[verifier::external_body]
fn keys_remove_at(keys: &mut IndexSet<String>, i: usize) -> (r: Option<String>)
    ensures
        match r {
            Some(k) => i < key_seq(*old(keys)).len() && k@ == key_seq(*old(keys))[i as int]
                && key_seq(*final(keys)) == key_seq(*old(keys)).remove(i as int),
            None => i >= key_seq(*old(keys)).len() && key_seq(*final(keys)) == key_seq(
                *old(keys),
            ),
        },
{
    keys.shift_remove_index(i)
}

/// A map from strings to values that keeps its entries in the order in which
/// their keys were first inserted.
///
/// The keys live in an `IndexSet`, the values in a vector at the same positions.
#[derive(Debug)]
pub struct OrderedMap<V> {
    keys: IndexSet<String>,
    values: Vec<V>,
}

impl<V> OrderedMap<V> {
    #[verifier::type_invariant]
    spec fn inv(self) -> bool {
        &&& key_seq(self.keys).len() == self.values@.len()
        &&& key_seq(self.keys).no_duplicates()
    }

    /// The keys, in order.
    pub closed spec fn keys(self) -> Seq<Seq<char>> {
        key_seq(self.keys)
    }

    /// The values, each at the position of its key.
    pub closed spec fn values(self) -> Seq<V> {
        self.values@
    }

    /// As many values as keys, and no key twice.
    pub open spec fn wf(self) -> bool {
        &&& self.keys().len() == self.values().len()
        &&& self.keys().no_duplicates()
    }

    /// The position of `key` among the keys, or the number of keys when it is not among them.
    pub open spec fn position(self, key: Seq<char>) -> int {
        self.keys().index_of(key)
    }

    /// The value at a position.
    pub open spec fn value_at_spec(self, i: int) -> V {
        self.values()[i]
    }

    /// A map is larger, in the order that recursion descends by, than its values.
    pub proof fn lemma_decreases(self)
        ensures
            decreases_to!(self => self.values()),
    {
    }

    pub fn new() -> (m: Self)
        ensures
            m.wf(),
            m.keys() == Seq::<Seq<char>>::empty(),
            m.values() == Seq::<V>::empty(),
    {
        OrderedMap { keys: keys_new(), values: Vec::new() }
    }

    pub fn len(&self) -> (n: usize)
        ensures
            self.wf(),
            n == self.values().len(),
    {
        proof {
            use_type_invariant(self);
        }
        self.values.len()
    }

    pub fn is_empty(&self) -> (r: bool)
        ensures
            self.wf(),
            r == (self.values().len() == 0),
    {
        self.len() == 0
    }

    /// The position of `key`, if the map holds it.
    pub fn index_of(&self, key: &str) -> (r: Option<usize>)
        ensures
            self.wf(),
            match r {
                Some(i) => i < self.keys().len() && self.keys()[i as int] == key@,
                None => !self.keys().contains(key@),
            },
    {
        proof {
            use_type_invariant(self);
        }
        keys_index_of(&self.keys, key)
    }

    pub fn contains_key(&self, key: &str) -> (r: bool)
        ensures
            self.wf(),
            r == self.keys().contains(key@),
    {
        self.index_of(key).is_some()
    }

    /// The value stored under `key`, if the map holds it.
    pub fn get(&self, key: &str) -> (r: Option<&V>)
        ensures
            self.wf(),
            match r {
                Some(v) => self.keys().contains(key@) && *v == self.values()[self.position(key@)],
                None => !self.keys().contains(key@),
            },
    {
        proof {
            use_type_invariant(self);
        }
        match keys_index_of(&self.keys, key) {
            Some(i) => {
                proof {
                    self.lemma_position(i as int);
                }
                Some(&self.values[i])
            },
            None => None,
        }
    }

    /// In a map without duplicate keys a key's position is the one place where it stands.
    pub proof fn lemma_position(self, i: int)
        requires
            self.wf(),
            0 <= i < self.keys().len(),
        ensures
            self.position(self.keys()[i]) == i,
            self.keys().contains(self.keys()[i]),
    {
        let k = self.keys()[i];
        assert(self.keys().contains(k));
        self.keys().index_of_first_ensures(k);
        let j = self.keys().index_of(k);
        assert(self.keys()[j] == k);
    }

    /// The key at position `i`.
    pub fn key_at(&self, i: usize) -> (k: &String)
        requires
            i < self.values().len(),
        ensures
            self.wf(),
            k@ == self.keys()[i as int],
    {
        proof {
            use_type_invariant(self);
        }
        match keys_get(&self.keys, i) {
            Some(k) => k,
            None => vstd::pervasive::unreached(),
        }
    }

    /// The value at position `i`.
    pub fn value_at(&self, i: usize) -> (v: &V)
        requires
            i < self.values().len(),
        ensures
            self.wf(),
            *v == self.values()[i as int],
    {
        proof {
            use_type_invariant(self);
        }
        &self.values[i]
    }

    /// The value at position `i`, to be changed in place.
    pub fn value_at_mut(&mut self, i: usize) -> (v: &mut V)
        requires
            i < old(self).values().len(),
        ensures
            old(self).wf(),
            *v == old(self).values()[i as int],
            final(self).keys() == old(self).keys(),
            final(self).values() == old(self).values().update(i as int, *final(v)),
    {
        proof {
            use_type_invariant(&*self);
        }
        &mut self.values[i]
    }

    /// Stores `value` under `key`: in place of the old value when the map holds
    /// the key, which it returns; as a new last entry when it does not.
    pub fn insert(&mut self, key: String, value: V) -> (prev: Option<V>)
        ensures
            old(self).wf(),
            final(self).wf(),
            match prev {
                Some(v) => {
                    &&& old(self).keys().contains(key@)
                    &&& v == old(self).values()[old(self).position(key@)]
                    &&& final(self).keys() == old(self).keys()
                    &&& final(self).values() == old(self).values().update(
                        old(self).position(key@),
                        value,
                    )
                },
                None => {
                    &&& !old(self).keys().contains(key@)
                    &&& final(self).keys() == old(self).keys().push(key@)
                    &&& final(self).values() == old(self).values().push(value)
                },
            },
    {
        proof {
            use_type_invariant(&*self);
        }
        let ghost before = *self;
        let mut taken = OrderedMap::new();
        core::mem::swap(self, &mut taken);
        let OrderedMap { mut keys, mut values } = taken;
        let (i, fresh) = keys_insert(&mut keys, key);
        let prev = if fresh {
            values.push(value);
            proof {
                lemma_push_no_duplicates(before.keys(), key@);
            }
            None
        } else {
            proof {
                before.lemma_position(i as int);
            }
            let mut v = value;
            core::mem::swap(&mut values[i], &mut v);
            Some(v)
        };
        *self = OrderedMap { keys, values };
        prev
    }

    /// Removes the entry at position `i` and returns it; the entries behind it
    /// move one place forward.
    pub fn shift_remove_index(&mut self, i: usize) -> (r: (String, V))
        requires
            i < old(self).values().len(),
        ensures
            old(self).wf(),
            final(self).wf(),
            r.0@ == old(self).keys()[i as int],
            r.1 == old(self).values()[i as int],
            final(self).keys() == old(self).keys().remove(i as int),
            final(self).values() == old(self).values().remove(i as int),
    {
        proof {
            use_type_invariant(&*self);
        }
        let ghost before = *self;
        let mut taken = OrderedMap::new();
        core::mem::swap(self, &mut taken);
        let OrderedMap { mut keys, mut values } = taken;
        let removed = keys_remove_at(&mut keys, i);
        let value = values.remove(i);
        proof {
            lemma_remove_no_duplicates(before.keys(), i as int);
        }
        *self = OrderedMap { keys, values };
        match removed {
            Some(k) => (k, value),
            None => vstd::pervasive::unreached(),
        }
    }

    /// Removes the entry of `key`, if the map holds it, and returns its value;
    /// the entries behind it move one place forward.
    pub fn shift_remove(&mut self, key: &str) -> (r: Option<V>)
        ensures
            old(self).wf(),
            final(self).wf(),
            match r {
                Some(v) => {
                    &&& old(self).keys().contains(key@)
                    &&& v == old(self).values()[old(self).position(key@)]
                    &&& final(self).keys() == old(self).keys().remove(old(self).position(key@))
                    &&& final(self).values() == old(self).values().remove(
                        old(self).position(key@),
                    )
                },
                None => !old(self).keys().contains(key@) && *final(self) == *old(self),
            },
    {
        match self.index_of(key) {
            Some(i) => {
                proof {
                    self.lemma_position(i as int);
                }
                let (_, v) = self.shift_remove_index(i);
                Some(v)
            },
            None => None,
        }
    }
}

impl<V: Clone> Clone for OrderedMap<V> {
    /// A map with the same keys in the same order, each with a clone of its value.
    fn clone(&self) -> (r: Self)
        ensures
            r.wf(),
            r.keys() == self.keys(),
            r.values().len() == self.values().len(),
    {
        let mut r = OrderedMap::new();
        let n = self.len();
        let mut i: usize = 0;
        while i < n
            invariant
                self.wf(),
                r.wf(),
                n == self.values().len(),
                i <= n,
                r.keys() == self.keys().take(i as int),
                r.values().len() == i,
            decreases n - i,
        {
            let key = self.key_at(i).clone();
            let value = self.value_at(i).clone();
            proof {
                if r.keys().contains(key@) {
                    let j = choose|j: int| 0 <= j < r.keys().len() && r.keys()[j] == key@;
                    assert(self.keys()[j] == self.keys()[i as int]);
                }
            }
            r.insert(key, value);
            i += 1;
            assert(r.keys() =~= self.keys().take(i as int));
        }
        assert(self.keys().take(n as int) =~= self.keys());
        r
    }
}

/// Appending a key that a duplicate-free sequence lacks keeps it duplicate-free.
pub proof fn lemma_push_no_duplicates(s: Seq<Seq<char>>, k: Seq<char>)
    requires
        s.no_duplicates(),
        !s.contains(k),
    ensures
        s.push(k).no_duplicates(),
{
    let t = s.push(k);
    assert forall|i: int, j: int| 0 <= i < t.len() && 0 <= j < t.len() && i != j implies t[i]
        != t[j] by {
        if i < s.len() && j < s.len() {
        } else if i < s.len() {
            assert(s.contains(s[i]));
        } else {
            assert(s.contains(s[j]));
        }
    }
}

/// Removing one place from a duplicate-free sequence keeps it duplicate-free.
pub proof fn lemma_remove_no_duplicates(s: Seq<Seq<char>>, i: int)
    requires
        s.no_duplicates(),
        0 <= i < s.len(),
    ensures
        s.remove(i).no_duplicates(),
{
    let t = s.remove(i);
    assert forall|a: int, b: int| 0 <= a < t.len() && 0 <= b < t.len() && a != b implies t[a]
        != t[b] by {
        let a2 = if a < i { a } else { a + 1 };
        let b2 = if b < i { b } else { b + 1 };
        assert(t[a] == s[a2]);
        assert(t[b] == s[b2]);
    }
}

} // verus!
