//! What the record store is asked and what it starts with. The store itself
//! is the caller's.

pub mod query;
