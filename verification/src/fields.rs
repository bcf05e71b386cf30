//! The row converter and the cursor it hands out: keys and cells are pulled
//! one pair at a time, the key first, in the row's own order.

use vstd::prelude::*;

use crate::error::{ConvertError, ConvertErrorView};
use crate::row::Row;
use crate::value::{Value, ValueConverter, ValueView};

verus! {

/// Starts the traversal of one borrowed row.
pub struct RowConverter<'a> {
    row: &'a Row,
}

impl<'a> RowConverter<'a> {
    /// The named cells of the row, in the order in which they are walked.
    pub closed spec fn entries(&self) -> Seq<(Seq<char>, ValueView)> {
        self.row.entries()
    }

    /// A converter for `row`.
    pub fn new(row: &'a Row) -> (converter: Self)
        ensures
            converter.entries() == row.entries(),
    {
        RowConverter { row }
    }

    /// Begins the traversal for a record target. The cursor stands before
    /// the first entry of the row and holds no cell. What the target
    /// declares plays no part: every key of the row is visited, in the row's
    /// order, and the consumer matches keys to its fields by name.
    pub fn begin_record(&self) -> (cursor: FieldEnumerator<'a>)
        ensures
            cursor.entries() == self.entries(),
            cursor.position() == 0,
            cursor.pending() is None,
    {
        FieldEnumerator { row: self.row, next: 0, value: None }
    }

    /// Begins the traversal for a target of unknown shape. Only records are
    /// converted, so this is refused for every row.
    pub fn begin_any(&self) -> (result: Result<FieldEnumerator<'a>, ConvertError>)
        ensures
            result matches Err(error) && error@ == ConvertErrorView::UnsupportedTarget,
    {
        Err(ConvertError::UnsupportedTarget)
    }
}

/// The cursor over a row's named cells. A key is requested first; that makes
/// the cell under it ready, and the cell is then taken exactly once.
pub struct FieldEnumerator<'a> {
    row: &'a Row,
    next: usize,
    value: Option<&'a Value>,
}

impl<'a> FieldEnumerator<'a> {
    #[verifier::type_invariant]
    spec fn within_row(self) -> bool {
        self.next <= self.row.entries().len()
    }

    /// The named cells of the row, in the order in which they are walked.
    pub closed spec fn entries(&self) -> Seq<(Seq<char>, ValueView)> {
        self.row.entries()
    }

    /// The number of keys handed out so far.
    pub closed spec fn position(&self) -> nat {
        self.next as nat
    }

    /// The cell that is ready to be taken, if any.
    pub closed spec fn pending(&self) -> Option<ValueView> {
        match self.value {
            Some(value) => Some(value@),
            None => None,
        }
    }

    /// Hands out the next key as an owned string and makes the cell under it
    /// ready, replacing a cell that was ready and not taken. At the end of
    /// the row the result is `None` and nothing changes.
    pub fn next_key(&mut self) -> (key: Option<String>)
        ensures
            final(self).entries() == old(self).entries(),
            old(self).position() <= old(self).entries().len(),
            match key {
                Some(name) => {
                    &&& old(self).position() < old(self).entries().len()
                    &&& name@ == old(self).entries()[old(self).position() as int].0
                    &&& final(self).position() == old(self).position() + 1
                    &&& final(self).pending() == Some(
                        old(self).entries()[old(self).position() as int].1,
                    )
                },
                None => {
                    &&& old(self).position() == old(self).entries().len()
                    &&& final(self).position() == old(self).position()
                    &&& final(self).pending() == old(self).pending()
                },
            },
    {
        proof {
            use_type_invariant(&*self);
        }
        if self.next < self.row.len() {
            let place = self.next;
            let key = self.row.key_at(place).clone();
            self.value = Some(self.row.value_at(place));
            self.next = place + 1;
            Some(key)
        } else {
            None
        }
    }

    /// Whether a cell is ready to be taken: a key was handed out and the cell
    /// under it was not taken since.
    pub fn value_ready(&self) -> (ready: bool)
        ensures
            ready == self.pending() is Some,
    {
        self.value.is_some()
    }

    /// Takes the ready cell, wrapped in a fresh converter. No cell is ready
    /// afterwards, so a second take needs another key first.
    pub fn next_value(&mut self) -> (converter: ValueConverter<'a>)
        requires
            old(self).pending() is Some,
        ensures
            Some(converter.cell()) == old(self).pending(),
            final(self).pending() is None,
            final(self).position() == old(self).position(),
            final(self).entries() == old(self).entries(),
    {
        proof {
            use_type_invariant(&*self);
        }
        let taken = self.value;
        self.value = None;
        ValueConverter::new(taken.unwrap())
    }
}

} // verus!
