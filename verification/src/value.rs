//! Cells, the primitives they are announced as, and the converter between
//! the two.

use vstd::prelude::*;

use crate::error::{ConvertError, ConvertErrorView, FieldKind};

verus! {

/// One dynamically typed cell of a row.
#[derive(Debug, PartialEq, Eq)]
#[allow(inconsistent_fields)]
pub enum Value {
    /// No value.
    Null,
    /// A 64-bit signed integer.
    Integer { value: i64 },
    /// A 64-bit IEEE 754 number, held as its bit pattern.
    Float { bits: u64 },
    /// An owned string.
    Text { value: String },
    /// An owned sequence of bytes.
    Blob { value: Vec<u8> },
    /// A variant that the wire format reserves and no converter handles.
    Other,
}

/// The mathematical content of a [`Value`].
pub enum ValueView {
    Null,
    Integer(i64),
    Float(u64),
    Text(Seq<char>),
    Blob(Seq<u8>),
    Other,
}

impl View for Value {
    type V = ValueView;

    open spec fn view(&self) -> ValueView {
        match self {
            Value::Null => ValueView::Null,
            Value::Integer { value } => ValueView::Integer(*value),
            Value::Float { bits } => ValueView::Float(*bits),
            Value::Text { value } => ValueView::Text(value@),
            Value::Blob { value } => ValueView::Blob(value@),
            Value::Other => ValueView::Other,
        }
    }
}

/// What a cell is announced as: each variant stands for one acceptance call
/// of the framework that consumes the row.
#[derive(Debug, PartialEq, Eq)]
pub enum Primitive {
    /// An owned string.
    Text(String),
    /// The unit value, "no value".
    Unit,
    /// A 64-bit signed integer.
    Integer(i64),
    /// A 64-bit IEEE 754 number, held as its bit pattern.
    Float(u64),
    /// A finite sequence of bytes, to be handed on one byte at a time.
    Bytes(Vec<u8>),
}

/// The mathematical content of a [`Primitive`].
pub enum PrimitiveView {
    Text(Seq<char>),
    Unit,
    Integer(i64),
    Float(u64),
    Bytes(Seq<u8>),
}

impl View for Primitive {
    type V = PrimitiveView;

    open spec fn view(&self) -> PrimitiveView {
        match self {
            Primitive::Text(s) => PrimitiveView::Text(s@),
            Primitive::Unit => PrimitiveView::Unit,
            Primitive::Integer(i) => PrimitiveView::Integer(*i),
            Primitive::Float(bits) => PrimitiveView::Float(*bits),
            Primitive::Bytes(b) => PrimitiveView::Bytes(b@),
        }
    }
}

/// The kind of a primitive.
pub open spec fn kind_of(p: PrimitiveView) -> FieldKind {
    match p {
        PrimitiveView::Text(_) => FieldKind::Text,
        PrimitiveView::Unit => FieldKind::Unit,
        PrimitiveView::Integer(_) => FieldKind::Integer,
        PrimitiveView::Float(_) => FieldKind::Float,
        PrimitiveView::Bytes(_) => FieldKind::Bytes,
    }
}

impl Primitive {
    /// The kind of this primitive.
    pub fn kind(&self) -> (kind: FieldKind)
        ensures
            kind == kind_of(self@),
    {
        match self {
            Primitive::Text(_) => FieldKind::Text,
            Primitive::Unit => FieldKind::Unit,
            Primitive::Integer(_) => FieldKind::Integer,
            Primitive::Float(_) => FieldKind::Float,
            Primitive::Bytes(_) => FieldKind::Bytes,
        }
    }
}

/// The primitive that a cell is announced as, by the cell's variant alone;
/// `None` for a variant that no converter handles.
pub open spec fn announced(v: ValueView) -> Option<PrimitiveView> {
    match v {
        ValueView::Text(s) => Some(PrimitiveView::Text(s)),
        ValueView::Null => Some(PrimitiveView::Unit),
        ValueView::Integer(i) => Some(PrimitiveView::Integer(i)),
        ValueView::Float(bits) => Some(PrimitiveView::Float(bits)),
        ValueView::Blob(b) => Some(PrimitiveView::Bytes(b)),
        ValueView::Other => None,
    }
}

/// A copy of `bytes`, made one byte at a time.
fn copy_bytes(bytes: &Vec<u8>) -> (out: Vec<u8>)
    ensures
        out@ == bytes@,
{
    let mut out: Vec<u8> = Vec::new();
    let mut i: usize = 0;
    while i < bytes.len()
        invariant
            i <= bytes.len(),
            out@ == bytes@.take(i as int),
        decreases bytes.len() - i,
    {
        out.push(bytes[i]);
        i = i + 1;
        assert(out@ == bytes@.take(i as int));
    }
    assert(bytes@.take(bytes.len() as int) == bytes@);
    out
}

/// Delivers one borrowed cell to whichever acceptance call matches the
/// cell's variant.
pub struct ValueConverter<'a> {
    value: &'a Value,
}

impl<'a> ValueConverter<'a> {
    /// The cell that this converter delivers.
    pub closed spec fn cell(&self) -> ValueView {
        self.value@
    }

    /// A converter for `value`.
    pub fn new(value: &'a Value) -> (converter: Self)
        ensures
            converter.cell() == value@,
    {
        ValueConverter { value }
    }

    /// Announces the cell. The result depends on the cell's variant alone:
    /// text as an owned copy of the string, null as unit, an integer and a
    /// float as they are, a blob as a copy of all its bytes. A variant
    /// outside these five is refused as unsupported.
    pub fn deliver(&self) -> (result: Result<Primitive, ConvertError>)
        ensures
            match result {
                Ok(primitive) => announced(self.cell()) == Some(primitive@),
                Err(error) => announced(self.cell()) is None && error@
                    == ConvertErrorView::UnsupportedValue,
            },
    {
        match self.value {
            Value::Text { value } => Ok(Primitive::Text(value.clone())),
            Value::Null => Ok(Primitive::Unit),
            Value::Integer { value } => Ok(Primitive::Integer(*value)),
            Value::Float { bits } => Ok(Primitive::Float(*bits)),
            Value::Blob { value } => Ok(Primitive::Bytes(copy_bytes(value))),
            Value::Other => Err(ConvertError::UnsupportedValue),
        }
    }
}

} // verus!
