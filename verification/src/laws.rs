//! What holds of every conversion, proved from the statement of its outcome.

use vstd::prelude::*;

use crate::convert::{entry_failure, first_failure, first_missing, outcome, record_of};
use crate::error::{ConvertErrorView, FieldKind};
use crate::names::{has_name, lemma_place_in_range, lemma_place_unique, names_unique};
use crate::row::{entries_map, lemma_lookup_entry, lemma_lookup_found, lookup, Row};
use crate::shape::Shape;
use crate::value::{announced, kind_of, PrimitiveView, ValueView};

verus! {

/// An error that speaks of the field `name`: the field has the wrong kind
/// or is missing.
pub open spec fn blames(error: ConvertErrorView, name: Seq<char>) -> bool {
    match error {
        ConvertErrorView::InvalidType { field, .. } => field == name,
        ConvertErrorView::MissingField { field } => field == name,
        _ => false,
    }
}

/// No entry fails exactly when each entry alone does not fail; a failure is
/// that of some entry before which none fails.
pub proof fn lemma_first_failure(
    entries: Seq<(Seq<char>, ValueView)>,
    shape: Seq<(Seq<char>, FieldKind)>,
)
    ensures
        first_failure(entries, shape) is None <==> forall|i: int|
            0 <= i < entries.len() ==> entry_failure(#[trigger] entries[i], shape) is None,
        first_failure(entries, shape) is Some ==> exists|i: int|
            0 <= i < entries.len() && entry_failure(#[trigger] entries[i], shape) == first_failure(
                entries,
                shape,
            ),
    decreases entries.len(),
{
    if entries.len() > 0 {
        let rest = entries.drop_last();
        lemma_first_failure(rest, shape);
        assert forall|i: int| 0 <= i < rest.len() implies rest[i] == entries[i] by {}
        if first_failure(rest, shape) is Some {
            let i = choose|i: int|
                0 <= i < rest.len() && entry_failure(#[trigger] rest[i], shape) == first_failure(
                    rest,
                    shape,
                );
            assert(entry_failure(entries[i], shape) == first_failure(entries, shape));
        } else {
            assert(entries[entries.len() - 1] == entries.last());
            if entry_failure(entries.last(), shape) is None {
                assert forall|i: int| 0 <= i < entries.len() implies entry_failure(
                    #[trigger] entries[i],
                    shape,
                ) is None by {
                    if i < rest.len() {
                        assert(rest[i] == entries[i]);
                    }
                }
            }
        }
    }
}

/// No field is missing exactly when the row holds a key for each field; a
/// missing field is a declared one that the row holds no key for.
pub proof fn lemma_first_missing(
    entries: Seq<(Seq<char>, ValueView)>,
    shape: Seq<(Seq<char>, FieldKind)>,
)
    ensures
        first_missing(entries, shape) is None <==> forall|i: int|
            0 <= i < shape.len() ==> lookup(entries, (#[trigger] shape[i]).0) is Some,
        first_missing(entries, shape) matches Some(name) ==> has_name(shape, name) && lookup(
            entries,
            name,
        ) is None,
    decreases shape.len(),
{
    if shape.len() > 0 {
        let rest = shape.drop_last();
        lemma_first_missing(entries, rest);
        assert forall|i: int| 0 <= i < rest.len() implies rest[i] == shape[i] by {}
        if first_missing(entries, rest) is Some {
            let name = first_missing(entries, rest)->0;
            let i = choose|i: int| 0 <= i < rest.len() && (#[trigger] rest[i]).0 == name;
            assert(shape[i].0 == name);
        } else {
            assert(shape[shape.len() - 1] == shape.last());
            if lookup(entries, shape.last().0) is Some {
                assert forall|i: int| 0 <= i < shape.len() implies lookup(
                    entries,
                    (#[trigger] shape[i]).0,
                ) is Some by {
                    if i < rest.len() {
                        assert(rest[i] == shape[i]);
                    }
                }
            }
        }
    }
}

/// Rows that describe the same mapping hold the same cell under each key.
proof fn lemma_same_lookup(
    a: Seq<(Seq<char>, ValueView)>,
    b: Seq<(Seq<char>, ValueView)>,
    key: Seq<char>,
)
    requires
        entries_map(a) == entries_map(b),
    ensures
        lookup(a, key) == lookup(b, key),
{
    assert(entries_map(a).dom().contains(key) == (lookup(a, key) is Some));
    assert(entries_map(b).dom().contains(key) == (lookup(b, key) is Some));
    if lookup(a, key) is Some {
        assert(entries_map(a)[key] == lookup(a, key)->0);
        assert(entries_map(b)[key] == lookup(b, key)->0);
    }
}

/// Where keys are unique, whether an entry fails is a matter of the mapping
/// alone.
proof fn lemma_failure_by_mapping(
    entries: Seq<(Seq<char>, ValueView)>,
    shape: Seq<(Seq<char>, FieldKind)>,
)
    requires
        names_unique(entries),
    ensures
        first_failure(entries, shape) is None <==> forall|key: Seq<char>|
            lookup(entries, key) is Some ==> entry_failure(
                (key, (#[trigger] lookup(entries, key))->0),
                shape,
            ) is None,
{
    lemma_first_failure(entries, shape);
    if first_failure(entries, shape) is None {
        assert forall|key: Seq<char>| lookup(entries, key) is Some implies entry_failure(
            (key, (#[trigger] lookup(entries, key))->0),
            shape,
        ) is None by {
            lemma_lookup_found(entries, key);
            let i = choose|i: int| 0 <= i < entries.len() && (#[trigger] entries[i]).0 == key;
            lemma_lookup_entry(entries, i);
            assert((key, lookup(entries, key)->0) == entries[i]);
        }
    }
    if forall|key: Seq<char>|
        lookup(entries, key) is Some ==> entry_failure(
            (key, (#[trigger] lookup(entries, key))->0),
            shape,
        ) is None {
        assert forall|i: int| 0 <= i < entries.len() implies entry_failure(
            #[trigger] entries[i],
            shape,
        ) is None by {
            lemma_lookup_entry(entries, i);
            let key = entries[i].0;
            assert(lookup(entries, key) is Some);
            assert((key, lookup(entries, key)->0) == entries[i]);
        }
    }
}

/// Which field is missing first is a matter of the mapping alone.
proof fn lemma_missing_by_mapping(
    a: Seq<(Seq<char>, ValueView)>,
    b: Seq<(Seq<char>, ValueView)>,
    shape: Seq<(Seq<char>, FieldKind)>,
)
    requires
        entries_map(a) == entries_map(b),
    ensures
        first_missing(a, shape) == first_missing(b, shape),
    decreases shape.len(),
{
    if shape.len() > 0 {
        lemma_missing_by_mapping(a, b, shape.drop_last());
        lemma_same_lookup(a, b, shape.last().0);
    }
}

/// A cell that stands under the name of a field and is announced as the kind
/// that the field accepts reaches that field. Either the conversion yields a
/// record whose field `i` is the announced primitive, or it fails with an
/// error that does not speak of that field.
pub proof fn law_field_delivered(row: Row, shape: Shape, i: int, primitive: PrimitiveView)
    requires
        row.wf(),
        shape.wf(),
        0 <= i < shape@.len(),
        row@.contains_key(shape@[i].0),
        announced(row@[shape@[i].0]) == Some(primitive),
        kind_of(primitive) == shape@[i].1,
    ensures
        match outcome(row.entries(), shape@) {
            Ok(record) => record.len() == shape@.len() && record[i] == primitive,
            Err(error) => !blames(error, shape@[i].0),
        },
{
    let entries = row.entries();
    let fields = shape@;
    let name = fields[i].0;
    lemma_first_failure(entries, fields);
    lemma_first_missing(entries, fields);
    match outcome(entries, fields) {
        Ok(record) => {},
        Err(error) => {
            if first_failure(entries, fields) is Some {
                let j = choose|j: int|
                    0 <= j < entries.len() && entry_failure(#[trigger] entries[j], fields)
                        == first_failure(entries, fields);
                if entries[j].0 == name {
                    lemma_lookup_entry(entries, j);
                    lemma_place_unique(fields, i);
                } else {
                    lemma_place_in_range(fields, entries[j].0);
                }
            }
        },
    }
}

/// A text cell under the name of a string field: the field of the record
/// holds the text's content.
pub proof fn law_text_field(row: Row, shape: Shape, i: int, text: Seq<char>)
    requires
        row.wf(),
        shape.wf(),
        0 <= i < shape@.len(),
        shape@[i].1 == FieldKind::Text,
        row@.contains_key(shape@[i].0),
        row@[shape@[i].0] == ValueView::Text(text),
    ensures
        match outcome(row.entries(), shape@) {
            Ok(record) => record[i] == PrimitiveView::Text(text),
            Err(error) => !blames(error, shape@[i].0),
        },
{
    law_field_delivered(row, shape, i, PrimitiveView::Text(text));
}

/// An integer cell under the name of an integer field: the field of the
/// record holds the stored integer.
pub proof fn law_integer_field(row: Row, shape: Shape, i: int, integer: i64)
    requires
        row.wf(),
        shape.wf(),
        0 <= i < shape@.len(),
        shape@[i].1 == FieldKind::Integer,
        row@.contains_key(shape@[i].0),
        row@[shape@[i].0] == ValueView::Integer(integer),
    ensures
        match outcome(row.entries(), shape@) {
            Ok(record) => record[i] == PrimitiveView::Integer(integer),
            Err(error) => !blames(error, shape@[i].0),
        },
{
    law_field_delivered(row, shape, i, PrimitiveView::Integer(integer));
}

/// A float cell under the name of a float field: the field of the record
/// holds the stored number, bit for bit.
pub proof fn law_float_field(row: Row, shape: Shape, i: int, bits: u64)
    requires
        row.wf(),
        shape.wf(),
        0 <= i < shape@.len(),
        shape@[i].1 == FieldKind::Float,
        row@.contains_key(shape@[i].0),
        row@[shape@[i].0] == ValueView::Float(bits),
    ensures
        match outcome(row.entries(), shape@) {
            Ok(record) => record[i] == PrimitiveView::Float(bits),
            Err(error) => !blames(error, shape@[i].0),
        },
{
    law_field_delivered(row, shape, i, PrimitiveView::Float(bits));
}

/// A blob cell under the name of a byte-sequence field: the field of the
/// record holds as many bytes as the blob, each equal to the blob's byte at
/// its place.
pub proof fn law_blob_field(row: Row, shape: Shape, i: int, blob: Seq<u8>)
    requires
        row.wf(),
        shape.wf(),
        0 <= i < shape@.len(),
        shape@[i].1 == FieldKind::Bytes,
        row@.contains_key(shape@[i].0),
        row@[shape@[i].0] == ValueView::Blob(blob),
    ensures
        match outcome(row.entries(), shape@) {
            Ok(record) => record[i] matches PrimitiveView::Bytes(bytes) && bytes.len()
                == blob.len() && forall|k: int| 0 <= k < blob.len() ==> bytes[k] == blob[k],
            Err(error) => !blames(error, shape@[i].0),
        },
{
    law_field_delivered(row, shape, i, PrimitiveView::Bytes(blob));
}

/// A null cell under the name of a unit field: the field of the record holds
/// unit, and the cell is no cause of failure.
pub proof fn law_null_field(row: Row, shape: Shape, i: int)
    requires
        row.wf(),
        shape.wf(),
        0 <= i < shape@.len(),
        shape@[i].1 == FieldKind::Unit,
        row@.contains_key(shape@[i].0),
        row@[shape@[i].0] == ValueView::Null,
    ensures
        match outcome(row.entries(), shape@) {
            Ok(record) => record[i] == PrimitiveView::Unit,
            Err(error) => !blames(error, shape@[i].0),
        },
{
    law_field_delivered(row, shape, i, PrimitiveView::Unit);
}

/// The order in which a row's keys are walked does not change the record.
/// Two rows that describe the same mapping are converted alike: both
/// conversions succeed or both fail, and unless an entry fails they yield
/// the very same outcome, be it the record or the first missing field.
pub proof fn law_order_independent(a: Row, b: Row, shape: Shape)
    requires
        a.wf(),
        b.wf(),
        a@ == b@,
    ensures
        outcome(a.entries(), shape@) is Ok <==> outcome(b.entries(), shape@) is Ok,
        first_failure(a.entries(), shape@) is None <==> first_failure(b.entries(), shape@) is None,
        first_failure(a.entries(), shape@) is None ==> outcome(a.entries(), shape@) == outcome(
            b.entries(),
            shape@,
        ),
{
    let ea = a.entries();
    let eb = b.entries();
    let fields = shape@;
    lemma_failure_by_mapping(ea, fields);
    lemma_failure_by_mapping(eb, fields);
    if first_failure(ea, fields) is None {
        assert forall|key: Seq<char>| lookup(eb, key) is Some implies entry_failure(
            (key, (#[trigger] lookup(eb, key))->0),
            fields,
        ) is None by {
            lemma_same_lookup(ea, eb, key);
        }
    }
    if first_failure(eb, fields) is None {
        assert forall|key: Seq<char>| lookup(ea, key) is Some implies entry_failure(
            (key, (#[trigger] lookup(ea, key))->0),
            fields,
        ) is None by {
            lemma_same_lookup(ea, eb, key);
        }
    }
    lemma_missing_by_mapping(ea, eb, fields);
    assert(record_of(ea, fields) =~= record_of(eb, fields)) by {
        assert forall|i: int| 0 <= i < fields.len() implies lookup(ea, fields[i].0) == lookup(
            eb,
            fields[i].0,
        ) by {
            lemma_same_lookup(ea, eb, fields[i].0);
        }
    }
}

/// A row that lacks a key for a declared field is never converted: the
/// outcome is an error. Unless an entry of the row fails first, the error
/// names a declared field that the row holds no key for.
pub proof fn law_missing_field(row: Row, shape: Shape, i: int)
    requires
        0 <= i < shape@.len(),
        !row@.contains_key(shape@[i].0),
    ensures
        outcome(row.entries(), shape@) is Err,
        first_failure(row.entries(), shape@) is None ==> (outcome(row.entries(), shape@) matches Err(
            ConvertErrorView::MissingField { field },
        ) && has_name(shape@, field) && !row@.contains_key(field)),
{
    lemma_first_missing(row.entries(), shape@);
}

} // verus!
