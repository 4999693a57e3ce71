//! What the operations are for.
//!
//! Each law says of an operation what its results must satisfy, in terms of plain values:
//! characters by their codes, bytes by their place, texts written out.

pub mod publishing;
pub mod registries;
pub mod serving;
pub mod texts;
