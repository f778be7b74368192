//! Conversion of a fixed-schema CSV table of evacuation-facility hazard
//! designations into a pretty-printed JSON array.
//!
//! The library holds the verified core of the pipeline: the CSV grammar
//! (decoding and encoding of rows), the JSON rendering of the decoded
//! records, and the derivation of the timestamped output file name.
//! Reading the input file and writing the output file are left to the
//! surrounding program.

pub mod convert;
pub mod csv_codec;
pub mod json;
pub mod naming;
pub mod record;
mod strutil;

pub use record::Record;
pub use record::FIELD_COUNT;
