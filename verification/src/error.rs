//! The kinds a field can have and the ways a conversion can fail.

use vstd::prelude::*;

verus! {

/// The kind of primitive that a field of the target accepts.
#[derive(Clone, Copy, Debug, PartialEq, Eq, Structural)]
pub enum FieldKind {
    /// An owned string.
    Text,
    /// The unit value.
    Unit,
    /// A 64-bit signed integer.
    Integer,
    /// A 64-bit IEEE 754 number.
    Float,
    /// A sequence of bytes.
    Bytes,
}

/// Why a conversion failed. No failure is retried and none leaves a partial
/// result.
#[derive(Debug, PartialEq, Eq)]
pub enum ConvertError {
    /// A cell holds a variant that no converter handles.
    UnsupportedValue,
    /// The target is not a record with named fields.
    UnsupportedTarget,
    /// The cell under `field` was announced as `found`, and the field of that
    /// name accepts `expected`.
    InvalidType { field: String, expected: FieldKind, found: FieldKind },
    /// The target declares `field` and the row holds no such key.
    MissingField { field: String },
}

/// The mathematical content of a [`ConvertError`].
pub enum ConvertErrorView {
    UnsupportedValue,
    UnsupportedTarget,
    InvalidType { field: Seq<char>, expected: FieldKind, found: FieldKind },
    MissingField { field: Seq<char> },
}

impl View for ConvertError {
    type V = ConvertErrorView;

    open spec fn view(&self) -> ConvertErrorView {
        match self {
            ConvertError::UnsupportedValue => ConvertErrorView::UnsupportedValue,
            ConvertError::UnsupportedTarget => ConvertErrorView::UnsupportedTarget,
            ConvertError::InvalidType { field, expected, found } => ConvertErrorView::InvalidType {
                field: field@,
                expected: *expected,
                found: *found,
            },
            ConvertError::MissingField { field } => ConvertErrorView::MissingField { field: field@ },
        }
    }
}

} // verus!
