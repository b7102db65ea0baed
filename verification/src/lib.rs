//! The core of a mail client: synchronising a mailbox with its server, and
//! the records that come of it.
//!
//! The library decides and the caller acts. Parsing, searching, counting and
//! the credential codec are functions from values to values. What needs the
//! network is a state machine: it takes what happened and says what to do
//! next, and a driver outside the library performs it.

pub mod commands;
pub mod database;
pub mod ids;
pub mod models;
pub mod pattern;
pub mod services;
pub mod text;
pub mod time;
