//! The records and reference data that the services work on.

pub mod email;
pub mod email_provider;
