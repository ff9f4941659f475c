//! Conversion of database result rows into typed records.
//!
//! A record type is described by a [`RowConsumer`]: its name and its named,
//! typed fields in declaration order. Field `i` binds to the row's cell at
//! position `i`. A field whose cell cannot be read as the declared type takes
//! that type's default value, and the conversion records a diagnostic naming
//! the field and the record type.
//!
//! - [`value`]: cells, field types, and the rule that reads one as the other.
//! - [`consumer`]: record types, and the conversion of one row, of a batch of
//!   rows, and of a query's outcome.
//! - [`json`]: the JSON text of converted records.
//! - [`json_read`]: reading that text back, and the proof that it recovers
//!   the records.
pub mod consumer;
pub mod json;
pub mod json_read;
pub mod value;

pub use consumer::{ConsumeError, FieldDescriptor, Record, RowConsumer, SchemaError};
pub use value::{BaseType, Cell, FieldType, FieldValue, Row, Scalar, Shape};
