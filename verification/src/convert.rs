//! The conversion of a whole row into a record, and the statement of what it
//! yields.

use vstd::prelude::*;

use crate::error::{ConvertError, ConvertErrorView, FieldKind};
use crate::fields::RowConverter;
use crate::names::{lemma_place_in_range, place_of};
use crate::row::{lookup, Row};
use crate::shape::{Record, Shape};
use crate::value::{announced, kind_of, Primitive, PrimitiveView, ValueView};

verus! {

/// What delivering one entry of the row to the target fails with, if it
/// fails: its cell is of a variant that no converter handles, or its key
/// names a field that accepts another kind. A key that names no field is
/// passed over.
pub open spec fn entry_failure(
    entry: (Seq<char>, ValueView),
    shape: Seq<(Seq<char>, FieldKind)>,
) -> Option<ConvertErrorView> {
    match announced(entry.1) {
        None => Some(ConvertErrorView::UnsupportedValue),
        Some(primitive) => match place_of(shape, entry.0) {
            None => None,
            Some(i) => if kind_of(primitive) == shape[i].1 {
                None
            } else {
                Some(
                    ConvertErrorView::InvalidType {
                        field: entry.0,
                        expected: shape[i].1,
                        found: kind_of(primitive),
                    },
                )
            },
        },
    }
}

/// The failure of the first entry, in the order of the walk, that fails.
pub open spec fn first_failure(
    entries: Seq<(Seq<char>, ValueView)>,
    shape: Seq<(Seq<char>, FieldKind)>,
) -> Option<ConvertErrorView>
    decreases entries.len(),
{
    if entries.len() == 0 {
        None
    } else {
        match first_failure(entries.drop_last(), shape) {
            Some(error) => Some(error),
            None => entry_failure(entries.last(), shape),
        }
    }
}

/// The name of the first field, in declared order, that the row holds no
/// key for.
pub open spec fn first_missing(
    entries: Seq<(Seq<char>, ValueView)>,
    shape: Seq<(Seq<char>, FieldKind)>,
) -> Option<Seq<char>>
    decreases shape.len(),
{
    if shape.len() == 0 {
        None
    } else {
        match first_missing(entries, shape.drop_last()) {
            Some(name) => Some(name),
            None => if lookup(entries, shape.last().0) is Some {
                None
            } else {
                Some(shape.last().0)
            },
        }
    }
}

/// The record of a row that holds a key for every field: each field is what
/// the cell under the field's name is announced as.
pub open spec fn record_of(
    entries: Seq<(Seq<char>, ValueView)>,
    shape: Seq<(Seq<char>, FieldKind)>,
) -> Seq<PrimitiveView> {
    Seq::new(shape.len(), |i: int| announced(lookup(entries, shape[i].0)->0)->0)
}

/// What converting a row into a record of the given shape yields. The
/// entries are delivered in the order of the walk and the first failure
/// ends the conversion; after the walk the first field left without a cell
/// is reported as missing; otherwise every field holds its primitive.
pub open spec fn outcome(
    entries: Seq<(Seq<char>, ValueView)>,
    shape: Seq<(Seq<char>, FieldKind)>,
) -> Result<Seq<PrimitiveView>, ConvertErrorView> {
    match first_failure(entries, shape) {
        Some(error) => Err(error),
        None => match first_missing(entries, shape) {
            Some(name) => Err(ConvertErrorView::MissingField { field: name }),
            None => Ok(record_of(entries, shape)),
        },
    }
}

/// A failure found in a prefix of the walk is the failure of the whole walk.
pub proof fn lemma_failure_stays(
    entries: Seq<(Seq<char>, ValueView)>,
    shape: Seq<(Seq<char>, FieldKind)>,
    k: int,
)
    requires
        0 <= k <= entries.len(),
        first_failure(entries.take(k), shape) is Some,
    ensures
        first_failure(entries, shape) == first_failure(entries.take(k), shape),
    decreases entries.len() - k,
{
    if k < entries.len() {
        assert(entries.take(k + 1).drop_last() == entries.take(k));
        lemma_failure_stays(entries, shape, k + 1);
    } else {
        assert(entries.take(k) == entries);
    }
}

/// A field found missing among the first fields is the first missing field
/// of the whole shape.
pub proof fn lemma_missing_stays(
    entries: Seq<(Seq<char>, ValueView)>,
    shape: Seq<(Seq<char>, FieldKind)>,
    k: int,
)
    requires
        0 <= k <= shape.len(),
        first_missing(entries, shape.take(k)) is Some,
    ensures
        first_missing(entries, shape) == first_missing(entries, shape.take(k)),
    decreases shape.len() - k,
{
    if k < shape.len() {
        assert(shape.take(k + 1).drop_last() == shape.take(k));
        lemma_missing_stays(entries, shape, k + 1);
    } else {
        assert(shape.take(k) == shape);
    }
}

/// The slot of a field holds what the cell found under the field's name is
/// announced as, and nothing where no cell was found.
spec fn slot_holds(slot: Option<Primitive>, cell: Option<ValueView>) -> bool {
    match cell {
        None => slot is None,
        Some(value) => slot matches Some(primitive) && announced(value) == Some(primitive@),
    }
}

/// Converts `row` into a record of the given shape. The row is walked once,
/// in its own order; each cell is delivered by its variant and stored in the
/// field that its key names, keys that name no field are passed over. The
/// conversion is atomic: it yields the whole record or the first error.
pub fn from_row(row: &Row, shape: &Shape) -> (result: Result<Record, ConvertError>)
    requires
        shape.wf(),
    ensures
        match result {
            Ok(record) => outcome(row.entries(), shape@) == Ok::<
                Seq<PrimitiveView>,
                ConvertErrorView,
            >(record@),
            Err(error) => outcome(row.entries(), shape@) == Err::<
                Seq<PrimitiveView>,
                ConvertErrorView,
            >(error@),
        },
{
    let ghost entries = row.entries();
    let ghost fields = shape@;
    let mut slots: Vec<Option<Primitive>> = Vec::new();
    let mut n: usize = 0;
    while n < shape.len()
        invariant
            n <= shape@.len(),
            slots@.len() == n,
            forall|i: int| 0 <= i < n ==> (#[trigger] slots@[i]) is None,
        decreases shape@.len() - n,
    {
        slots.push(None);
        n = n + 1;
    }
    let converter = RowConverter::new(row);
    let mut cursor = converter.begin_record();
    assert(entries.take(0) == Seq::<(Seq<char>, ValueView)>::empty());
    loop
        invariant
            shape.wf(),
            fields == shape@,
            entries == row.entries(),
            cursor.entries() == entries,
            cursor.position() <= entries.len(),
            first_failure(entries.take(cursor.position() as int), fields) is None,
            slots@.len() == fields.len(),
            forall|i: int|
                0 <= i < fields.len() ==> slot_holds(
                    #[trigger] slots@[i],
                    lookup(entries.take(cursor.position() as int), fields[i].0),
                ),
        ensures
            cursor.position() == entries.len(),
        decreases entries.len() - cursor.position(),
    {
        let ghost at = cursor.position() as int;
        let key = match cursor.next_key() {
            Some(key) => key,
            None => {
                break ;
            },
        };
        let value = cursor.next_value();
        let ghost before = entries.take(at);
        let ghost walked = entries.take(at + 1);
        proof {
            assert(walked.drop_last() == before);
            assert(walked.last() == entries[at]);
        }
        let primitive = match value.deliver() {
            Ok(primitive) => primitive,
            Err(error) => {
                proof {
                    lemma_failure_stays(entries, fields, at + 1);
                }
                return Err(error);
            },
        };
        proof {
            lemma_place_in_range(fields, key@);
        }
        match shape.position(&key) {
            None => {
                assert forall|i: int| 0 <= i < fields.len() implies slot_holds(
                    #[trigger] slots@[i],
                    lookup(walked, fields[i].0),
                ) by {
                    assert(fields[i].0 != key@);
                }
            },
            Some(place) => {
                let expected = shape.kind_at(place);
                let found = primitive.kind();
                if expected != found {
                    proof {
                        lemma_failure_stays(entries, fields, at + 1);
                    }
                    return Err(ConvertError::InvalidType { field: key, expected, found });
                }
                let ghost earlier = slots@;
                slots[place] = Some(primitive);
                assert forall|i: int| 0 <= i < fields.len() implies slot_holds(
                    #[trigger] slots@[i],
                    lookup(walked, fields[i].0),
                ) by {
                    if i != place {
                        assert(slots@[i] == earlier[i]);
                        assert(fields[i].0 != key@);
                    }
                }
            },
        }
    }
    assert(entries.take(entries.len() as int) == entries);
    let mut out: Vec<Primitive> = Vec::new();
    let mut i: usize = 0;
    assert(fields.take(0) == Seq::<(Seq<char>, FieldKind)>::empty());
    while i < shape.len()
        invariant
            fields == shape@,
            entries == row.entries(),
            i <= fields.len(),
            slots@.len() == fields.len(),
            first_failure(entries, fields) is None,
            first_missing(entries, fields.take(i as int)) is None,
            out@.len() == i,
            forall|j: int| 0 <= j < i ==> (#[trigger] out@[j])@ == record_of(entries, fields)[j],
            forall|j: int|
                i <= j < fields.len() ==> slot_holds(
                    #[trigger] slots@[j],
                    lookup(entries, fields[j].0),
                ),
        decreases fields.len() - i,
    {
        proof {
            assert(fields.take(i + 1).drop_last() == fields.take(i as int));
            assert(fields.take(i + 1).last() == fields[i as int]);
        }
        let ghost earlier = slots@;
        match slots[i].take() {
            Some(primitive) => {
                out.push(primitive);
            },
            None => {
                proof {
                    lemma_missing_stays(entries, fields, i + 1);
                }
                return Err(ConvertError::MissingField { field: shape.name_at(i).clone() });
            },
        }
        assert forall|j: int| i + 1 <= j < fields.len() implies slot_holds(
            #[trigger] slots@[j],
            lookup(entries, fields[j].0),
        ) by {
            assert(slots@[j] == earlier[j]);
        }
        i = i + 1;
    }
    assert(fields.take(fields.len() as int) == fields);
    let record = Record::new(out);
    assert(record@ =~= record_of(entries, fields)) by {
        assert forall|j: int| 0 <= j < fields.len() implies record@[j] == record_of(
            entries,
            fields,
        )[j] by {
            assert(record@[j] == out@[j]@);
        }
    }
    Ok(record)
}

} // verus!
