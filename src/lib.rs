//! In-memory values of a structured document format: the closed set of
//! primitive kinds, name-keyed dictionaries, indirect-object identifiers,
//! typed coercions and the textual rendering of each value.

pub mod error;
pub mod laws;
pub mod object;
pub mod text;

pub use error::Error;
pub use object::{Dictionary, IndirectObject, ObjectId, Primitive, Stream};
