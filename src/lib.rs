//! A schema-free model of decoded data, and the verified rules by which such
//! a value is built from a structured source, replayed as a source, and
//! partially extracted into typed shapes.
pub mod decode;
pub mod extract;
pub mod laws;
pub mod replay;
pub mod source;
pub mod value;

pub use extract::{extract, from_value, Extracted, Shape, Width};
pub use source::{DecodeError, Payload, Source};
pub use value::{Composite, Primitive, Value, Variant};
