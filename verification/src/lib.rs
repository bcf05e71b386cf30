//! Conversion of one database result row, a set of named and dynamically
//! typed cells, into a typed record.
//!
//! Two converters work together. A [`RowConverter`] hands out a
//! [`FieldEnumerator`], a cursor that yields the row's keys and cells one
//! pair at a time, in the row's own order. A [`ValueConverter`] announces one
//! cell as the [`Primitive`] that matches the cell's variant. [`from_row`]
//! drives both and fills a [`Record`] whose fields a [`Shape`] declares.

pub mod convert;
pub mod error;
pub mod fields;
pub mod laws;
pub mod names;
pub mod row;
pub mod shape;
pub mod value;

pub use convert::from_row;
pub use error::{ConvertError, ConvertErrorView, FieldKind};
pub use fields::{FieldEnumerator, RowConverter};
pub use row::Row;
pub use shape::{Record, Shape};
pub use value::{Primitive, PrimitiveView, Value, ValueConverter, ValueView};
