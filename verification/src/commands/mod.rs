//! What the commands decide before they reach for the store or the network.

pub mod email;
pub mod provider;
