//! A packed-integer array ("log array"): a compact representation of a
//! sequence of unsigned integers in which every element occupies exactly
//! `width` bits, together with builders, a streaming decoder, and a
//! binary-searchable monotonic variant.

pub mod array;
pub mod builder;
pub mod bytebuf;
pub mod control;
pub mod decoder;
pub mod error;
pub mod laws;
pub mod model;
pub mod monotonic;
pub mod storage;
pub mod width;
