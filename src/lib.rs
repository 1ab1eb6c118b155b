//! The wire format of a local transform: field keys, the canonical field
//! order, encoding a record into entries and decoding entries back, with the
//! defaulting and validation rules of the format.
//!
//! The number type is a parameter: the codec checks the shape of a record
//! (which fields, how many components, in which order), never the numbers.

pub mod field;
pub mod record;
