//! The services: parsing, synchronisation, credentials, search.

pub mod category_service;
pub mod connection;
pub mod crypto_service;
pub mod email_service;
pub mod folder_session;
pub mod message_parser;
pub mod outgoing;
pub mod protocol;
pub mod search_service;
pub mod sync_service;
pub mod tally;
