//! The row: a positional list of cells beside a mapping from column names to
//! cells, whose keys are unique and are walked in the order they were added.

use vstd::prelude::*;

use crate::names::{has_name, lemma_place_found, lemma_place_in_range, names_unique, place_of};
use crate::value::{Value, ValueView};

verus! {

/// The cell that `entries` hold under `key`, if any.
pub open spec fn lookup(entries: Seq<(Seq<char>, ValueView)>, key: Seq<char>) -> Option<ValueView>
    decreases entries.len(),
{
    if entries.len() == 0 {
        None
    } else if entries.last().0 == key {
        Some(entries.last().1)
    } else {
        lookup(entries.drop_last(), key)
    }
}

/// The mapping from names to cells that `entries` describe.
pub open spec fn entries_map(entries: Seq<(Seq<char>, ValueView)>) -> Map<Seq<char>, ValueView> {
    Map::new(|k: Seq<char>| lookup(entries, k) is Some, |k: Seq<char>| lookup(entries, k)->0)
}

/// A key is found exactly when some entry carries it.
pub proof fn lemma_lookup_found(entries: Seq<(Seq<char>, ValueView)>, key: Seq<char>)
    ensures
        lookup(entries, key) is Some <==> has_name(entries, key),
    decreases entries.len(),
{
    if entries.len() > 0 {
        let rest = entries.drop_last();
        lemma_lookup_found(rest, key);
        if entries.last().0 == key {
            assert(entries[entries.len() - 1].0 == key);
        } else if lookup(rest, key) is Some {
            let i = choose|i: int| 0 <= i < rest.len() && (#[trigger] rest[i]).0 == key;
            assert(entries[i].0 == key);
        } else {
            assert forall|i: int| 0 <= i < entries.len() implies (#[trigger] entries[i]).0
                != key by {
                if i < rest.len() {
                    assert(rest[i] == entries[i]);
                }
            }
        }
    }
}

/// Where keys are unique, each entry is what a lookup of its key finds.
pub proof fn lemma_lookup_entry(entries: Seq<(Seq<char>, ValueView)>, i: int)
    requires
        names_unique(entries),
        0 <= i < entries.len(),
    ensures
        lookup(entries, entries[i].0) == Some(entries[i].1),
    decreases entries.len(),
{
    if i < entries.len() - 1 {
        let rest = entries.drop_last();
        assert(rest[i] == entries[i]);
        assert(names_unique(rest)) by {
            assert forall|a: int, b: int| 0 <= a < b < rest.len() implies rest[a].0 != rest[b].0 by {
                assert(rest[a] == entries[a]);
                assert(rest[b] == entries[b]);
            }
        }
        lemma_lookup_entry(rest, i);
    }
}

/// One named cell of a row.
#[derive(Debug)]
struct Column {
    name: String,
    value: Value,
}

/// A single database result row. The row owns its cells; converters borrow
/// them and never change them.
#[derive(Debug)]
pub struct Row {
    values: Vec<Value>,
    columns: Vec<Column>,
}

impl View for Row {
    type V = Map<Seq<char>, ValueView>;

    /// The mapping from column names to cells.
    open spec fn view(&self) -> Map<Seq<char>, ValueView> {
        entries_map(self.entries())
    }
}

impl Row {
    /// The named cells in the order in which they are walked.
    pub closed spec fn entries(&self) -> Seq<(Seq<char>, ValueView)> {
        Seq::new(
            self.columns@.len(),
            |i: int| (self.columns@[i].name@, self.columns@[i].value@),
        )
    }

    /// The cells by position.
    pub closed spec fn positional(&self) -> Seq<ValueView> {
        Seq::new(self.values@.len(), |i: int| self.values@[i]@)
    }

    /// Every key of the mapping stands for exactly one column.
    pub open spec fn wf(&self) -> bool {
        names_unique(self.entries())
    }

    /// A row without cells.
    pub fn new() -> (row: Row)
        ensures
            row.wf(),
            row.entries() == Seq::<(Seq<char>, ValueView)>::empty(),
            row.positional() == Seq::<ValueView>::empty(),
    {
        Row { values: Vec::new(), columns: Vec::new() }
    }

    /// Appends a cell to the positional list; the mapping stays as it is.
    pub fn push_value(&mut self, value: Value)
        ensures
            final(self).positional() == old(self).positional().push(value@),
            final(self).entries() == old(self).entries(),
    {
        self.values.push(value);
    }

    /// The cells by position.
    pub fn values(&self) -> (values: &Vec<Value>)
        ensures
            values@.len() == self.positional().len(),
            forall|i: int|
                0 <= i < values@.len() ==> (#[trigger] values@[i])@ == self.positional()[i],
    {
        &self.values
    }

    /// The number of keys in the mapping.
    pub fn len(&self) -> (n: usize)
        ensures
            n == self.entries().len(),
    {
        self.columns.len()
    }

    /// The key at place `i` of the walk.
    pub fn key_at(&self, i: usize) -> (key: &String)
        requires
            i < self.entries().len(),
        ensures
            key@ == self.entries()[i as int].0,
    {
        &self.columns[i].name
    }

    /// The cell at place `i` of the walk.
    pub fn value_at(&self, i: usize) -> (value: &Value)
        requires
            i < self.entries().len(),
        ensures
            value@ == self.entries()[i as int].1,
    {
        &self.columns[i].value
    }

    /// The place of `key` in the walk, if the mapping holds it.
    pub fn position(&self, key: &String) -> (place: Option<usize>)
        ensures
            match place {
                Some(i) => place_of(self.entries(), key@) == Some(i as int) && i
                    < self.entries().len(),
                None => place_of(self.entries(), key@) is None,
            },
    {
        let mut i: usize = 0;
        while i < self.columns.len()
            invariant
                i <= self.columns.len(),
                forall|j: int| 0 <= j < i ==> (#[trigger] self.entries()[j]).0 != key@,
            decreases self.columns.len() - i,
        {
            if self.columns[i].name == *key {
                proof {
                    lemma_place_found(self.entries(), key@, i as int);
                }
                return Some(i);
            }
            i = i + 1;
        }
        proof {
            lemma_place_in_range(self.entries(), key@);
        }
        None
    }

    /// The cell under `key`, if the mapping holds the key.
    pub fn get(&self, key: &String) -> (cell: Option<&Value>)
        requires
            self.wf(),
        ensures
            cell is Some <==> self@.contains_key(key@),
            cell is Some ==> cell->0@ == self@[key@],
    {
        proof {
            lemma_lookup_found(self.entries(), key@);
            lemma_place_in_range(self.entries(), key@);
        }
        match self.position(key) {
            Some(i) => {
                proof {
                    lemma_lookup_entry(self.entries(), i as int);
                }
                Some(&self.columns[i].value)
            },
            None => None,
        }
    }

    /// Puts `value` under `key`. A key that the mapping holds keeps its place
    /// in the walk and gets the new cell; a new key is walked last.
    pub fn insert(&mut self, key: String, value: Value)
        requires
            old(self).wf(),
        ensures
            final(self).wf(),
            final(self)@ == old(self)@.insert(key@, value@),
            final(self).positional() == old(self).positional(),
            final(self).entries() == match place_of(old(self).entries(), key@) {
                Some(i) => old(self).entries().update(i, (key@, value@)),
                None => old(self).entries().push((key@, value@)),
            },
    {
        let ghost before = self.entries();
        proof {
            lemma_place_in_range(before, key@);
            lemma_lookup_found(before, key@);
        }
        match self.position(&key) {
            Some(i) => {
                self.columns[i] = Column { name: key, value };
                proof {
                    assert(self.entries() == before.update(i as int, (key@, value@)));
                    lemma_update_map(before, i as int, value@);
                }
            },
            None => {
                self.columns.push(Column { name: key, value });
                proof {
                    assert(self.entries() == before.push((key@, value@)));
                    lemma_push_map(before, key@, value@);
                }
            },
        }
    }
}

proof fn lemma_push_map(entries: Seq<(Seq<char>, ValueView)>, key: Seq<char>, value: ValueView)
    requires
        names_unique(entries),
        lookup(entries, key) is None,
    ensures
        names_unique(entries.push((key, value))),
        entries_map(entries.push((key, value))) == entries_map(entries).insert(key, value),
{
    let after = entries.push((key, value));
    lemma_lookup_found(entries, key);
    assert(after.drop_last() == entries);
    assert forall|i: int, j: int| 0 <= i < j < after.len() implies after[i].0 != after[j].0 by {
        assert(after[i] == entries[i]);
        if j < entries.len() {
            assert(after[j] == entries[j]);
        }
    }
    assert(entries_map(after) =~= entries_map(entries).insert(key, value));
}

proof fn lemma_update_map(entries: Seq<(Seq<char>, ValueView)>, i: int, value: ValueView)
    requires
        names_unique(entries),
        0 <= i < entries.len(),
    ensures
        names_unique(entries.update(i, (entries[i].0, value))),
        entries_map(entries.update(i, (entries[i].0, value))) == entries_map(entries).insert(
            entries[i].0,
            value,
        ),
{
    let key = entries[i].0;
    let after = entries.update(i, (key, value));
    assert(names_unique(after)) by {
        assert forall|a: int, b: int| 0 <= a < b < after.len() implies after[a].0 != after[b].0 by {
            assert(after[a].0 == entries[a].0);
            assert(after[b].0 == entries[b].0);
        }
    }
    assert forall|k: Seq<char>| lookup(after, k) == (if k == key {
        Some(value)
    } else {
        lookup(entries, k)
    }) by {
        if k == key {
            lemma_lookup_entry(after, i);
        } else {
            lemma_lookup_found(entries, k);
            lemma_lookup_found(after, k);
            if lookup(entries, k) is Some {
                let j = choose|j: int| 0 <= j < entries.len() && (#[trigger] entries[j]).0 == k;
                lemma_lookup_entry(entries, j);
                assert(after[j] == entries[j]);
                lemma_lookup_entry(after, j);
            } else if lookup(after, k) is Some {
                let j = choose|j: int| 0 <= j < after.len() && (#[trigger] after[j]).0 == k;
                assert(entries[j].0 == k);
            }
        }
    }
    assert(entries_map(after) =~= entries_map(entries).insert(key, value));
}

} // verus!
