//! The target of a conversion: the shape that declares its fields, and the
//! record that holds one primitive for each of them.

use vstd::prelude::*;

use crate::error::FieldKind;
use crate::names::{lemma_place_found, lemma_place_in_range, names_unique, place_of};
use crate::value::{Primitive, PrimitiveView};

verus! {

/// One declared field.
#[derive(Debug)]
struct Field {
    name: String,
    kind: FieldKind,
}

/// The declared fields of a target record, in their declared order. Fields
/// are matched to the keys of a row by name, never by position.
#[derive(Debug)]
pub struct Shape {
    fields: Vec<Field>,
}

impl View for Shape {
    type V = Seq<(Seq<char>, FieldKind)>;

    /// The declared names and kinds, in declared order.
    closed spec fn view(&self) -> Seq<(Seq<char>, FieldKind)> {
        Seq::new(self.fields@.len(), |i: int| (self.fields@[i].name@, self.fields@[i].kind))
    }
}

impl Shape {
    /// No two fields share a name.
    pub open spec fn wf(&self) -> bool {
        names_unique(self@)
    }

    /// A shape without fields.
    pub fn new() -> (shape: Shape)
        ensures
            shape.wf(),
            shape@ == Seq::<(Seq<char>, FieldKind)>::empty(),
    {
        Shape { fields: Vec::new() }
    }

    /// The number of declared fields.
    pub fn len(&self) -> (n: usize)
        ensures
            n == self@.len(),
    {
        self.fields.len()
    }

    /// The name of field `i`.
    pub fn name_at(&self, i: usize) -> (name: &String)
        requires
            i < self@.len(),
        ensures
            name@ == self@[i as int].0,
    {
        &self.fields[i].name
    }

    /// The kind of field `i`.
    pub fn kind_at(&self, i: usize) -> (kind: FieldKind)
        requires
            i < self@.len(),
        ensures
            kind == self@[i as int].1,
    {
        self.fields[i].kind
    }

    /// The field that carries `name`, if one is declared.
    pub fn position(&self, name: &String) -> (place: Option<usize>)
        ensures
            match place {
                Some(i) => place_of(self@, name@) == Some(i as int) && i < self@.len(),
                None => place_of(self@, name@) is None,
            },
    {
        let mut i: usize = 0;
        while i < self.fields.len()
            invariant
                i <= self.fields.len(),
                forall|j: int| 0 <= j < i ==> (#[trigger] self@[j]).0 != name@,
            decreases self.fields.len() - i,
        {
            if self.fields[i].name == *name {
                proof {
                    lemma_place_found(self@, name@, i as int);
                }
                return Some(i);
            }
            i = i + 1;
        }
        proof {
            lemma_place_in_range(self@, name@);
        }
        None
    }

    /// Declares a field at the end of the shape and says so with `true`. A
    /// name that is declared already is refused: the shape stays as it is
    /// and the result is `false`.
    pub fn declare(&mut self, name: String, kind: FieldKind) -> (added: bool)
        requires
            old(self).wf(),
        ensures
            final(self).wf(),
            added == place_of(old(self)@, name@) is None,
            final(self)@ == if added {
                old(self)@.push((name@, kind))
            } else {
                old(self)@
            },
    {
        match self.position(&name) {
            Some(_) => false,
            None => {
                let ghost before = self@;
                proof {
                    lemma_place_in_range(before, name@);
                }
                self.fields.push(Field { name, kind });
                proof {
                    let after = self@;
                    assert(after == before.push((name@, kind)));
                    assert forall|i: int, j: int| 0 <= i < j < after.len() implies after[i].0
                        != after[j].0 by {
                        assert(after[i] == before[i]);
                        if j < before.len() {
                            assert(after[j] == before[j]);
                        }
                    }
                }
                true
            },
        }
    }
}

/// A populated record: one primitive for each declared field, in declared
/// order.
#[derive(Debug, PartialEq, Eq)]
pub struct Record {
    fields: Vec<Primitive>,
}

impl View for Record {
    type V = Seq<PrimitiveView>;

    /// The primitives, in the declared order of their fields.
    closed spec fn view(&self) -> Seq<PrimitiveView> {
        Seq::new(self.fields@.len(), |i: int| self.fields@[i]@)
    }
}

impl Record {
    /// A record of `fields`, which stand in the declared order.
    pub fn new(fields: Vec<Primitive>) -> (record: Record)
        ensures
            record@.len() == fields@.len(),
            forall|i: int| 0 <= i < fields@.len() ==> record@[i] == (#[trigger] fields@[i])@,
    {
        Record { fields }
    }

    /// The number of fields.
    pub fn len(&self) -> (n: usize)
        ensures
            n == self@.len(),
    {
        self.fields.len()
    }

    /// The primitive of field `i`.
    pub fn field(&self, i: usize) -> (primitive: &Primitive)
        requires
            i < self@.len(),
        ensures
            primitive@ == self@[i as int],
    {
        &self.fields[i]
    }
}

} // verus!
