//! Transaction submission helpers.

pub mod serialization;
