//! In-memory tables keyed by hash: the rows of the server's indices.
//!
//! A `Table` maps names to values and a `NameSet` is a set of names. Both
//! keep their rows in insertion order and never hold a name twice.

use vstd::prelude::*;
use vstd::seq_lib::seq_to_set_is_finite;
use crate::crypto;
use crate::crypto::hash_eq;

verus! {

/// The names of a run of rows.
pub open spec fn row_keys<V>(rows: Seq<(crypto::Hash, V)>) -> Seq<crypto::Hash> {
    rows.map_values(|row: (crypto::Hash, V)| row.0)
}

/// The map that a run of rows with distinct names stands for.
pub open spec fn rows_to_map<V>(rows: Seq<(crypto::Hash, V)>) -> Map<crypto::Hash, V> {
    Map::new(
        |k: crypto::Hash| row_keys(rows).contains(k),
        |k: crypto::Hash| rows[row_keys(rows).index_of(k)].1,
    )
}

/// A row of a run with distinct names is what the map holds under its name.
pub proof fn lemma_row_in_map<V>(rows: Seq<(crypto::Hash, V)>, i: int)
    requires
        row_keys(rows).no_duplicates(),
        0 <= i < rows.len(),
    ensures
        rows_to_map(rows).dom().contains(rows[i].0),
        rows_to_map(rows)[rows[i].0] == rows[i].1,
{
    let keys = row_keys(rows);
    assert(keys[i] == rows[i].0);
    let j = keys.index_of(rows[i].0);
    assert(keys[j] == keys[i]);
}

/// Whether two maps agree at `key`: both hold it with the same value, or
/// neither holds it.
pub open spec fn agree_at<V>(
    a: Map<crypto::Hash, V>,
    b: Map<crypto::Hash, V>,
    key: crypto::Hash,
) -> bool {
    &&& a.dom().contains(key) == b.dom().contains(key)
    &&& a.dom().contains(key) ==> a[key] == b[key]
}

/// A table that was changed at `key` alone agrees with its saved state
/// wherever the journal, which now holds `key`, does not list the name.
proof fn lemma_journal_covers<V>(
    before: Map<crypto::Hash, V>,
    after: Map<crypto::Hash, V>,
    saved: Map<crypto::Hash, V>,
    journal: Seq<crypto::Hash>,
    key: crypto::Hash,
)
    requires
        forall|k: crypto::Hash| !journal.contains(k) ==> agree_at(before, saved, k),
        forall|k: crypto::Hash| k != key ==> agree_at(after, before, k),
    ensures
        forall|k: crypto::Hash| !journal.push(key).contains(k) ==> agree_at(after, saved, k),
{
    let longer = journal.push(key);
    assert(longer[journal.len() as int] == key);
    assert forall|k: crypto::Hash| !longer.contains(k) implies agree_at(after, saved, k) by {
        assert(k != key);
        if journal.contains(k) {
            let j = choose|j: int| 0 <= j < journal.len() && journal[j] == k;
            assert(longer[j] == k);
        }
        assert(agree_at(before, saved, k));
        assert(agree_at(after, before, k));
    }
}

/// A map keyed by hash, with a journal of the names that were stored or
/// removed since the journal was last taken.
pub struct Table<V> {
    rows: Vec<(crypto::Hash, V)>,
    changed: Vec<crypto::Hash>,
    saved: Ghost<Map<crypto::Hash, V>>,
}

impl<V> View for Table<V> {
    type V = Map<crypto::Hash, V>;

    closed spec fn view(&self) -> Map<crypto::Hash, V> {
        rows_to_map(self.rows@)
    }
}

impl<V> Table<V> {
    #[verifier::type_invariant]
    spec fn well_formed(self) -> bool {
        &&& row_keys(self.rows@).no_duplicates()
        &&& forall|k: crypto::Hash|
            !self.changed@.contains(k) ==> agree_at(rows_to_map(self.rows@), self.saved@, k)
    }

    /// The table as it was when the journal was last taken.
    pub closed spec fn saved(&self) -> Map<crypto::Hash, V> {
        self.saved@
    }

    /// The names that were stored or removed since the journal was last
    /// taken, in order.
    pub closed spec fn journal(&self) -> Seq<crypto::Hash> {
        self.changed@
    }

    /// The rows in the order in which their names were first stored.
    pub closed spec fn rows(&self) -> Seq<(crypto::Hash, V)> {
        self.rows@
    }

    /// States what holds of every table: it has finitely many rows, each
    /// name once, and its view is the map that its rows stand for. Does
    /// nothing when run.
    pub fn known(&self)
        ensures
            self@.dom().finite(),
            row_keys(self.rows()).no_duplicates(),
            self@ == rows_to_map(self.rows()),
            self@.dom() == row_keys(self.rows()).to_set(),
            forall|k: crypto::Hash| !self.journal().contains(k) ==> agree_at(self@, self.saved(), k),
    {
        proof {
            use_type_invariant(self);
            seq_to_set_is_finite(row_keys(self.rows@));
            assert(self@.dom() =~= row_keys(self.rows@).to_set());
        }
    }

    /// An empty table.
    pub fn new() -> (table: Self)
        ensures
            table@ == Map::<crypto::Hash, V>::empty(),
            table.rows().len() == 0,
            table.saved() == Map::<crypto::Hash, V>::empty(),
            table.journal() == Seq::<crypto::Hash>::empty(),
    {
        let table = Table { rows: Vec::new(), changed: Vec::new(), saved: Ghost(Map::empty()) };
        assert(table@ =~= Map::<crypto::Hash, V>::empty());
        table
    }

    /// Takes the journal: the names that were stored or removed since it
    /// was last taken. Every row under another name is as it was then.
    pub fn take_changed(&mut self) -> (names: Vec<crypto::Hash>)
        ensures
            names@ == old(self).journal(),
            forall|k: crypto::Hash|
                !names@.contains(k) ==> agree_at(old(self)@, old(self).saved(), k),
            final(self)@ == old(self)@,
            final(self).rows() == old(self).rows(),
            final(self).saved() == old(self)@,
            final(self).journal() == Seq::<crypto::Hash>::empty(),
    {
        proof {
            use_type_invariant(&*self);
        }
        let mut whole = Table::new();
        std::mem::swap(self, &mut whole);
        let Table { rows, changed, saved } = whole;
        let ghost now = rows_to_map(rows@);
        *self = Table { rows, changed: Vec::new(), saved: Ghost(now) };
        changed
    }

    /// The number of rows.
    pub fn len(&self) -> (n: usize)
        ensures
            n == self.rows().len(),
    {
        self.rows.len()
    }

    /// The `i`-th row, in the order in which the names were first stored.
    pub fn row(&self, i: usize) -> (row: (&crypto::Hash, &V))
        requires
            i < self.rows().len(),
        ensures
            *row.0 == self.rows()[i as int].0,
            *row.1 == self.rows()[i as int].1,
            self@.dom().contains(*row.0),
            self@[*row.0] == *row.1,
    {
        proof {
            use_type_invariant(self);
            lemma_row_in_map(self.rows@, i as int);
        }
        (&self.rows[i].0, &self.rows[i].1)
    }

    /// Where the row named `key` stands, if there is one.
    fn position(&self, key: &crypto::Hash) -> (at: Option<usize>)
        ensures
            match at {
                Some(i) => i < self.rows@.len() && self.rows@[i as int].0 == *key,
                None => !row_keys(self.rows@).contains(*key),
            },
    {
        let mut i: usize = 0;
        while i < self.rows.len()
            invariant
                i <= self.rows.len(),
                forall|j: int| 0 <= j < i ==> self.rows@[j].0 != *key,
            decreases self.rows.len() - i,
        {
            if hash_eq(&self.rows[i].0, key) {
                return Some(i);
            }
            i += 1;
        }
        None
    }

    /// Whether a row is stored under `key`.
    pub fn contains_key(&self, key: &crypto::Hash) -> (found: bool)
        ensures
            found == self@.dom().contains(*key),
    {
        proof {
            use_type_invariant(self);
        }
        match self.position(key) {
            Some(i) => {
                proof {
                    lemma_row_in_map(self.rows@, i as int);
                }
                true
            },
            None => false,
        }
    }

    /// The value stored under `key`.
    pub fn get(&self, key: &crypto::Hash) -> (value: Option<&V>)
        ensures
            match value {
                Some(v) => self@.dom().contains(*key) && *v == self@[*key],
                None => !self@.dom().contains(*key),
            },
    {
        proof {
            use_type_invariant(self);
        }
        match self.position(key) {
            Some(i) => {
                proof {
                    lemma_row_in_map(self.rows@, i as int);
                }
                Some(&self.rows[i].1)
            },
            None => None,
        }
    }

    /// Stores `value` under `key` and returns what was stored there before.
    pub fn insert(&mut self, key: crypto::Hash, value: V) -> (previous: Option<V>)
        ensures
            final(self)@ == old(self)@.insert(key, value),
            final(self).saved() == old(self).saved(),
            final(self).journal() == old(self).journal().push(key),
            match previous {
                Some(v) => old(self)@.dom().contains(key) && v == old(self)@[key],
                None => !old(self)@.dom().contains(key),
            },
    {
        proof {
            use_type_invariant(&*self);
        }
        let ghost before = self.rows@;
        let ghost journal_before = self.changed@;
        let at = self.position(&key);
        let mut whole = Table::new();
        std::mem::swap(self, &mut whole);
        let Table { rows, changed, saved } = whole;
        let mut rows = rows;
        let mut changed = changed;
        changed.push(key);
        let ghost saved_before = saved@;
        match at {
            Some(i) => {
                proof {
                    lemma_row_in_map(before, i as int);
                }
                rows.push((key, value));
                let row = rows.swap_remove(i);
                proof {
                    let after = rows@;
                    assert(after =~= before.update(i as int, (key, value)));
                    assert(row_keys(after) =~= row_keys(before));
                    assert forall|k: crypto::Hash|
                        rows_to_map(after).dom().contains(k) implies #[trigger] rows_to_map(
                        after,
                    )[k] == rows_to_map(before).insert(key, value)[k] by {
                        let j = row_keys(after).index_of(k);
                        assert(row_keys(after)[j] == k);
                        assert(row_keys(before)[i as int] == key);
                        if j != i {
                            assert(row_keys(before)[j] == k);
                            lemma_row_in_map(before, j);
                        }
                    }
                    assert(rows_to_map(after) =~= rows_to_map(before).insert(key, value));
                    lemma_journal_covers(
                        rows_to_map(before),
                        rows_to_map(after),
                        saved_before,
                        journal_before,
                        key,
                    );
                }
                *self = Table { rows, changed, saved };
                Some(row.1)
            },
            None => {
                rows.push((key, value));
                proof {
                    let after = rows@;
                    assert(row_keys(after) =~= row_keys(before).push(key));
                    assert forall|k: crypto::Hash|
                        rows_to_map(after).dom().contains(k) implies #[trigger] rows_to_map(
                        after,
                    )[k] == rows_to_map(before).insert(key, value)[k] by {
                        let j = row_keys(after).index_of(k);
                        assert(row_keys(after)[j] == k);
                        if j < before.len() {
                            assert(row_keys(before)[j] == k);
                            lemma_row_in_map(before, j);
                        }
                    }
                    assert forall|k: crypto::Hash|
                        rows_to_map(before).insert(key, value).dom().contains(
                            k,
                        ) implies rows_to_map(after).dom().contains(k) by {
                        if k != key {
                            let j = row_keys(before).index_of(k);
                            assert(row_keys(after)[j] == k);
                        } else {
                            assert(row_keys(after)[before.len() as int] == k);
                        }
                    }
                    assert(rows_to_map(after) =~= rows_to_map(before).insert(key, value));
                    lemma_journal_covers(
                        rows_to_map(before),
                        rows_to_map(after),
                        saved_before,
                        journal_before,
                        key,
                    );
                }
                *self = Table { rows, changed, saved };
                None
            },
        }
    }

    /// Removes the row stored under `key` and returns its value.
    pub fn remove(&mut self, key: &crypto::Hash) -> (previous: Option<V>)
        ensures
            final(self)@ == old(self)@.remove(*key),
            final(self).saved() == old(self).saved(),
            final(self).journal() == old(self).journal().push(*key),
            match previous {
                Some(v) => old(self)@.dom().contains(*key) && v == old(self)@[*key],
                None => !old(self)@.dom().contains(*key),
            },
    {
        proof {
            use_type_invariant(&*self);
        }
        let ghost before = self.rows@;
        let ghost journal_before = self.changed@;
        let at = self.position(key);
        let mut whole = Table::new();
        std::mem::swap(self, &mut whole);
        let Table { rows, changed, saved } = whole;
        let mut rows = rows;
        let mut changed = changed;
        changed.push(*key);
        let ghost saved_before = saved@;
        match at {
            Some(i) => {
                proof {
                    lemma_row_in_map(before, i as int);
                }
                let row = rows.remove(i);
                proof {
                    let after = rows@;
                    assert(row_keys(after) =~= row_keys(before).remove(i as int));
                    assert forall|k: crypto::Hash| #[trigger]
                        rows_to_map(after).dom().contains(k) implies rows_to_map(
                        before,
                    ).dom().contains(k) && k != *key && rows_to_map(after)[k] == rows_to_map(
                        before,
                    )[k] by {
                        let j = row_keys(after).index_of(k);
                        assert(row_keys(after)[j] == k);
                        let b = if j < i {
                            j
                        } else {
                            j + 1
                        };
                        assert(after[j] == before[b]);
                        assert(row_keys(before)[b] == k);
                        lemma_row_in_map(before, b);
                        assert(rows_to_map(before).dom().contains(k));
                        assert(row_keys(before)[i as int] == *key);
                        assert(k != *key);
                        assert(rows_to_map(after)[k] == after[j].1);
                    }
                    assert forall|k: crypto::Hash|
                        rows_to_map(before).dom().contains(k) && k != *key implies #[trigger]
                        rows_to_map(after).dom().contains(k) by {
                        let b = row_keys(before).index_of(k);
                        assert(row_keys(before)[b] == k);
                        let j = if b < i {
                            b
                        } else {
                            b - 1
                        };
                        assert(row_keys(after)[j] == k);
                    }
                    assert(rows_to_map(after) =~= rows_to_map(before).remove(*key));
                    lemma_journal_covers(
                        rows_to_map(before),
                        rows_to_map(after),
                        saved_before,
                        journal_before,
                        *key,
                    );
                }
                *self = Table { rows, changed, saved };
                Some(row.1)
            },
            None => {
                proof {
                    assert(rows_to_map(before) =~= rows_to_map(before).remove(*key));
                    lemma_journal_covers(
                        rows_to_map(before),
                        rows_to_map(before),
                        saved_before,
                        journal_before,
                        *key,
                    );
                }
                *self = Table { rows, changed, saved };
                None
            },
        }
    }
}

/// A set of names.
pub struct NameSet {
    names: Table<()>,
}

impl View for NameSet {
    type V = Set<crypto::Hash>;

    closed spec fn view(&self) -> Set<crypto::Hash> {
        self.names@.dom()
    }
}

impl NameSet {
    /// The names in the order in which they were added.
    pub closed spec fn order(&self) -> Seq<crypto::Hash> {
        row_keys(self.names.rows())
    }

    /// States what holds of every set of names: it is finite, and it holds
    /// the names of `order`, each once. Does nothing when run.
    pub fn known(&self)
        ensures
            self@.finite(),
            self.order().no_duplicates(),
            self@ == self.order().to_set(),
    {
        self.names.known();
    }

    /// An empty set.
    pub fn new() -> (set: Self)
        ensures
            set@ == Set::<crypto::Hash>::empty(),
            set.order() == Seq::<crypto::Hash>::empty(),
    {
        let set = NameSet { names: Table::new() };
        assert(set@ =~= Set::<crypto::Hash>::empty());
        assert(set.order() =~= Seq::<crypto::Hash>::empty());
        set
    }

    /// The number of names.
    pub fn len(&self) -> (n: usize)
        ensures
            n == self.order().len(),
    {
        self.names.len()
    }

    /// The `i`-th name, in the order in which the names were added.
    pub fn name_at(&self, i: usize) -> (name: &crypto::Hash)
        requires
            i < self.order().len(),
        ensures
            *name == self.order()[i as int],
            self@.contains(*name),
    {
        self.names.row(i).0
    }

    /// Whether the set holds `name`.
    pub fn contains(&self, name: &crypto::Hash) -> (found: bool)
        ensures
            found == self@.contains(*name),
    {
        self.names.contains_key(name)
    }

    /// Adds `name`; returns whether it was new.
    pub fn insert(&mut self, name: crypto::Hash) -> (added: bool)
        ensures
            final(self)@ == old(self)@.insert(name),
            added == !old(self)@.contains(name),
    {
        let previous = self.names.insert(name, ());
        assert(self@ =~= old(self)@.insert(name));
        previous.is_none()
    }

    /// Removes `name`; returns whether it was there.
    pub fn remove(&mut self, name: &crypto::Hash) -> (removed: bool)
        ensures
            final(self)@ == old(self)@.remove(*name),
            removed == old(self)@.contains(*name),
    {
        let previous = self.names.remove(name);
        assert(self@ =~= old(self)@.remove(*name));
        previous.is_some()
    }

    /// The names as a list, in the order in which they were added.
    pub fn to_vec(&self) -> (names: Vec<crypto::Hash>)
        ensures
            names@ == self.order(),
    {
        let mut names: Vec<crypto::Hash> = Vec::new();
        let mut i: usize = 0;
        while i < self.names.len()
            invariant
                i <= self.names.rows().len(),
                names@ == self.order().take(i as int),
            decreases self.names.rows().len() - i,
        {
            names.push(*self.names.row(i).0);
            assert(self.order().take(i as int + 1) =~= self.order().take(i as int).push(
                self.order()[i as int],
            ));
            i += 1;
        }
        assert(self.order().take(self.order().len() as int) =~= self.order());
        names
    }
}

} // verus!
