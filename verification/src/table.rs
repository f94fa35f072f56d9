use vstd::prelude::*;

verus! {

/// The mathematical content of a [`NameMap`]: the names in the order in which
/// they were first registered, each with its current value.
pub struct Table<V> {
    pub keys: Seq<Seq<char>>,
    pub values: Seq<V>,
}

impl<V> Table<V> {
    /// Every name has one value and no name occurs twice.
    pub open spec fn wf(self) -> bool {
        &&& self.keys.len() == self.values.len()
        &&& self.keys.no_duplicates()
    }

    /// The table without names.
    pub open spec fn empty() -> Self {
        Table { keys: Seq::empty(), values: Seq::empty() }
    }

    /// The number of names.
    pub open spec fn len(self) -> nat {
        self.keys.len()
    }

    /// Whether `key` is one of the names.
    pub open spec fn contains(self, key: Seq<char>) -> bool {
        self.keys.contains(key)
    }

    /// The position of `key`; meaningful only where the table contains it.
    pub open spec fn index_of(self, key: Seq<char>) -> int {
        self.keys.index_of(key)
    }

    /// The value registered under `key`, if any.
    pub open spec fn get(self, key: Seq<char>) -> Option<V> {
        if self.contains(key) {
            Some(self.values[self.index_of(key)])
        } else {
            None
        }
    }

    /// Registers `value` under `key`. A name that is already there keeps its
    /// place and gets the new value; a new name goes to the end.
    pub open spec fn insert(self, key: Seq<char>, value: V) -> Self {
        if self.contains(key) {
            Table { keys: self.keys, values: self.values.update(self.index_of(key), value) }
        } else {
            Table { keys: self.keys.push(key), values: self.values.push(value) }
        }
    }

    /// Exchanges the values of the names `a` and `b`, both of which the table
    /// is to contain.
    pub open spec fn swap(self, a: Seq<char>, b: Seq<char>) -> Self {
        let i = self.index_of(a);
        let j = self.index_of(b);
        Table { keys: self.keys, values: self.values.update(i, self.values[j]).update(j, self.values[i]) }
    }

    /// Takes `key` and its value out of the table. The other names keep
    /// their order.
    pub open spec fn remove(self, key: Seq<char>) -> Self {
        if self.contains(key) {
            Table {
                keys: self.keys.remove(self.index_of(key)),
                values: self.values.remove(self.index_of(key)),
            }
        } else {
            self
        }
    }

    /// The values as `f` shows them, under the same names.
    pub open spec fn mapped<W>(self, f: spec_fn(V) -> W) -> Table<W> {
        Table { keys: self.keys, values: self.values.map_values(f) }
    }

    /// In a well-formed table the name at a position is found at that position.
    pub proof fn lemma_index_of(self, i: int)
        requires
            self.wf(),
            0 <= i < self.len(),
        ensures
            self.contains(self.keys[i]),
            self.index_of(self.keys[i]) == i,
            self.get(self.keys[i]) == Some(self.values[i]),
    {
        let j = self.keys.index_of(self.keys[i]);
        assert(self.keys.contains(self.keys[i]));
        assert(0 <= j < self.keys.len() && self.keys[j] == self.keys[i]);
    }

    /// A name that the table contains has a position, and sits there.
    pub proof fn lemma_contains(self, key: Seq<char>)
        requires
            self.contains(key),
        ensures
            0 <= self.index_of(key) < self.len(),
            self.keys[self.index_of(key)] == key,
    {
    }

    /// Registering a name keeps the table well-formed, makes the name resolve
    /// to the new value and leaves every other name as it was.
    pub proof fn lemma_insert(self, key: Seq<char>, value: V)
        requires
            self.wf(),
        ensures
            self.insert(key, value).wf(),
            self.insert(key, value).get(key) == Some(value),
            forall|other: Seq<char>| other != key ==> self.insert(key, value).get(other) == self.get(other),
            forall|other: Seq<char>|
                self.insert(key, value).contains(other) <==> (other == key || self.contains(other)),
    {
        let after = self.insert(key, value);
        if self.contains(key) {
            let i = self.index_of(key);
            assert(after.keys == self.keys);
            assert(after.get(key) == Some(value));
            assert forall|other: Seq<char>| other != key implies after.get(other) == self.get(
                other,
            ) by {
                if self.contains(other) {
                    assert(self.index_of(other) != i);
                }
            }
        } else {
            assert(after.keys.no_duplicates()) by {
                assert forall|i: int, j: int|
                    0 <= i < after.keys.len() && 0 <= j < after.keys.len() && i != j implies after.keys[i]
                    != after.keys[j] by {
                    if i < self.keys.len() && j < self.keys.len() {
                    } else if i < self.keys.len() {
                        assert(self.keys.contains(self.keys[i]));
                    } else {
                        assert(self.keys.contains(self.keys[j]));
                    }
                }
            }
            let n = self.keys.len() as int;
            assert(after.keys[n] == key);
            assert(after.keys.contains(key));
            after.lemma_index_of(n);
            assert forall|other: Seq<char>| other != key implies after.get(other) == self.get(
                other,
            ) by {
                if self.contains(other) {
                    let i = self.index_of(other);
                    assert(after.keys[i] == other);
                    after.lemma_index_of(i);
                } else if after.contains(other) {
                    let i = after.index_of(other);
                    assert(i < n);
                    assert(self.keys[i] == other);
                }
            }
            assert forall|other: Seq<char>| after.contains(other) <==> (other == key
                || self.contains(other)) by {
                if self.contains(other) {
                    let i = self.index_of(other);
                    assert(after.keys[i] == other);
                }
                if after.contains(other) && other != key {
                    let i = after.index_of(other);
                    assert(self.keys[i] == other);
                }
            }
        }
    }

    /// Taking a name out keeps the table well-formed, makes the name
    /// resolve to nothing and leaves every other name as it was.
    pub proof fn lemma_remove(self, key: Seq<char>)
        requires
            self.wf(),
        ensures
            self.remove(key).wf(),
            !self.remove(key).contains(key),
            forall|other: Seq<char>| other != key ==> self.remove(key).get(other) == self.get(other),
            forall|other: Seq<char>|
                self.remove(key).contains(other) <==> (other != key && self.contains(other)),
    {
        let after = self.remove(key);
        if self.contains(key) {
            let i = self.index_of(key);
            assert forall|p: int, q: int|
                0 <= p < after.keys.len() && 0 <= q < after.keys.len() && p != q implies after.keys[p]
                != after.keys[q] by {
                let before_p = if p < i {
                    p
                } else {
                    p + 1
                };
                let before_q = if q < i {
                    q
                } else {
                    q + 1
                };
                assert(after.keys[p] == self.keys[before_p]);
                assert(after.keys[q] == self.keys[before_q]);
            }
            assert forall|other: Seq<char>| after.contains(other) <==> (other != key
                && self.contains(other)) by {
                if after.contains(other) {
                    let p = after.index_of(other);
                    let before_p = if p < i {
                        p
                    } else {
                        p + 1
                    };
                    assert(self.keys[before_p] == other);
                }
                if other != key && self.contains(other) {
                    let q = self.index_of(other);
                    let after_q = if q < i {
                        q
                    } else {
                        q - 1
                    };
                    assert(after.keys[after_q] == other);
                }
            }
            assert forall|other: Seq<char>| other != key implies after.get(other) == self.get(
                other,
            ) by {
                if self.contains(other) {
                    let q = self.index_of(other);
                    let after_q = if q < i {
                        q
                    } else {
                        q - 1
                    };
                    assert(after.keys[after_q] == other);
                    after.lemma_index_of(after_q);
                }
            }
        }
    }

    /// Showing the values otherwise goes together with looking a name up.
    pub proof fn lemma_mapped<W>(self, f: spec_fn(V) -> W, key: Seq<char>)
        ensures
            self.mapped(f).wf() == self.wf(),
            self.mapped(f).contains(key) == self.contains(key),
            self.mapped(f).index_of(key) == self.index_of(key),
            self.wf() && self.contains(key) ==> self.mapped(f).get(key) == Some(f(self.get(key)->0)),
    {
    }

    /// Showing the values otherwise goes together with registering,
    /// taking out and exchanging.
    pub proof fn lemma_mapped_changes<W>(self, f: spec_fn(V) -> W, key: Seq<char>, value: V)
        requires
            self.wf(),
        ensures
            self.insert(key, value).mapped(f) == self.mapped(f).insert(key, f(value)),
            self.remove(key).mapped(f) == self.mapped(f).remove(key),
    {
        assert(self.insert(key, value).mapped(f).values =~= self.mapped(f).insert(key, f(value)).values);
        assert(self.remove(key).mapped(f).values =~= self.mapped(f).remove(key).values);
    }

    /// Exchanging two names keeps the names, makes each resolve to what the
    /// other resolved to and leaves every third name as it was.
    pub proof fn lemma_swap(self, a: Seq<char>, b: Seq<char>)
        requires
            self.wf(),
            self.contains(a),
            self.contains(b),
        ensures
            self.swap(a, b).wf(),
            self.swap(a, b).keys == self.keys,
            self.swap(a, b).get(a) == self.get(b),
            self.swap(a, b).get(b) == self.get(a),
            forall|other: Seq<char>|
                other != a && other != b ==> self.swap(a, b).get(other) == self.get(other),
            self.swap(a, b).swap(a, b) == self,
    {
        let after = self.swap(a, b);
        let i = self.index_of(a);
        let j = self.index_of(b);
        assert forall|other: Seq<char>| other != a && other != b implies after.get(other)
            == self.get(other) by {
            if self.contains(other) {
                assert(self.index_of(other) != i);
                assert(self.index_of(other) != j);
            }
        }
        assert(after.swap(a, b).values =~= self.values);
    }
}

/// A table from names to values that remembers the order in which the names
/// were first registered.
pub struct NameMap<V> {
    names: Vec<String>,
    values: Vec<V>,
}

impl<V> View for NameMap<V> {
    type V = Table<V>;

    closed spec fn view(&self) -> Table<V> {
        Table { keys: Seq::new(self.names@.len(), |i: int| self.names@[i]@), values: self.values@ }
    }
}

impl<V> NameMap<V> {
    /// Every name has one value and no name occurs twice.
    pub open spec fn wf(&self) -> bool {
        self@.wf()
    }

    /// A table without names.
    pub fn new() -> (table: Self)
        ensures
            table.wf(),
            table@ == Table::<V>::empty(),
    {
        let table = NameMap { names: Vec::new(), values: Vec::new() };
        assert(table@.keys =~= Seq::<Seq<char>>::empty());
        table
    }

    /// The number of names.
    pub fn len(&self) -> (n: usize)
        requires
            self.wf(),
        ensures
            n == self@.len(),
    {
        self.names.len()
    }

    /// The position of `name`, if the table has it.
    pub fn position(&self, name: &str) -> (found: Option<usize>)
        requires
            self.wf(),
        ensures
            found is Some <==> self@.contains(name@),
            found matches Some(i) ==> i == self@.index_of(name@) && i < self@.len(),
    {
        let key = name.to_owned();
        let mut i: usize = 0;
        while i < self.names.len()
            invariant
                self.wf(),
                key@ == name@,
                i <= self.names.len(),
                forall|j: int| 0 <= j < i ==> self@.keys[j] != name@,
            decreases self.names.len() - i,
        {
            if self.names[i] == key {
                proof {
                    self@.lemma_index_of(i as int);
                }
                return Some(i);
            }
            i = i + 1;
        }
        None
    }

    /// Whether the table has `name`.
    pub fn contains_key(&self, name: &str) -> (yes: bool)
        requires
            self.wf(),
        ensures
            yes == self@.contains(name@),
    {
        self.position(name).is_some()
    }

    /// The value registered under `name`, if any.
    pub fn get(&self, name: &str) -> (found: Option<&V>)
        requires
            self.wf(),
        ensures
            found is Some <==> self@.contains(name@),
            found matches Some(value) ==> self@.get(name@) == Some(*value),
    {
        match self.position(name) {
            Some(i) => Some(&self.values[i]),
            None => None,
        }
    }

    /// The name at position `i`.
    pub fn key(&self, i: usize) -> (name: &String)
        requires
            self.wf(),
            i < self@.len(),
        ensures
            name@ == self@.keys[i as int],
    {
        &self.names[i]
    }

    /// The value at position `i`.
    pub fn value(&self, i: usize) -> (value: &V)
        requires
            self.wf(),
            i < self@.len(),
        ensures
            *value == self@.values[i as int],
    {
        &self.values[i]
    }

    /// The value at position `i`, to be changed in place.
    pub fn value_mut(&mut self, i: usize) -> (value: &mut V)
        requires
            old(self).wf(),
            i < old(self)@.len(),
        ensures
            *value == old(self)@.values[i as int],
            final(self).wf(),
            final(self)@.keys == old(self)@.keys,
            final(self)@.values == old(self)@.values.update(i as int, *final(value)),
    {
        &mut self.values[i]
    }

    /// Replaces the value at position `i`.
    pub fn set_value(&mut self, i: usize, value: V)
        requires
            old(self).wf(),
            i < old(self)@.len(),
        ensures
            final(self).wf(),
            final(self)@.keys == old(self)@.keys,
            final(self)@.values == old(self)@.values.update(i as int, value),
    {
        self.values.set(i, value);
        assert(self@.keys =~= old(self)@.keys);
    }

    /// Registers `value` under `name`. A name that is already there keeps its
    /// place and gets the new value; a new name goes to the end.
    pub fn insert(&mut self, name: &str, value: V)
        requires
            old(self).wf(),
        ensures
            final(self).wf(),
            final(self)@ == old(self)@.insert(name@, value),
    {
        proof {
            self@.lemma_insert(name@, value);
        }
        match self.position(name) {
            Some(i) => {
                self.values.set(i, value);
                assert(self@.keys =~= old(self)@.keys);
            },
            None => {
                self.names.push(name.to_owned());
                self.values.push(value);
                assert(self@.keys =~= old(self)@.keys.push(name@));
            },
        }
    }
}

impl<V> NameMap<V> {
    /// Takes `name` out of the table and hands back its value, if it had one.
    pub fn remove(&mut self, name: &str) -> (removed: Option<V>)
        requires
            old(self).wf(),
        ensures
            final(self).wf(),
            final(self)@ == old(self)@.remove(name@),
            removed == old(self)@.get(name@),
    {
        proof {
            self@.lemma_remove(name@);
        }
        match self.position(name) {
            Some(i) => {
                let _ = self.names.remove(i);
                let value = self.values.remove(i);
                assert(self@.keys =~= old(self)@.keys.remove(i as int));
                Some(value)
            },
            None => None,
        }
    }
}

impl<V: Copy> NameMap<V> {
    /// A copy of the table.
    pub fn duplicate(&self) -> (copy: Self)
        requires
            self.wf(),
        ensures
            copy.wf(),
            copy@ == self@,
    {
        let mut names: Vec<String> = Vec::new();
        let mut values: Vec<V> = Vec::new();
        let mut i: usize = 0;
        while i < self.names.len()
            invariant
                self.wf(),
                i <= self.names.len(),
                names@.len() == i,
                values@ == self.values@.take(i as int),
                forall|j: int| 0 <= j < i ==> names@[j]@ == self.names@[j]@,
            decreases self.names.len() - i,
        {
            names.push(self.names[i].clone());
            values.push(self.values[i]);
            assert(self.values@.take(i as int).push(self.values@[i as int]) =~= self.values@.take(
                i + 1,
            ));
            i = i + 1;
        }
        let copy = NameMap { names, values };
        assert(self.values@.take(i as int) =~= self.values@);
        assert(copy@.keys =~= self@.keys);
        copy
    }

    /// Exchanges the values at the positions `i` and `j`.
    pub fn swap_values(&mut self, i: usize, j: usize)
        requires
            old(self).wf(),
            i < old(self)@.len(),
            j < old(self)@.len(),
        ensures
            final(self).wf(),
            final(self)@.keys == old(self)@.keys,
            final(self)@.values == old(self)@.values.update(i as int, old(self)@.values[j as int]).update(
                j as int,
                old(self)@.values[i as int],
            ),
    {
        let first = self.values[i];
        let second = self.values[j];
        self.values.set(i, second);
        self.values.set(j, first);
        assert(self@.keys =~= old(self)@.keys);
    }
}

} // verus!
