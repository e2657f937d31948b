//! Peer-to-peer messaging between agents: the data model of messages,
//! receipts, pins and files, and the decisions that the zome takes on them.

pub mod table;
pub mod types;
pub mod helpers;
pub mod queries;
pub mod zome;
pub mod system_message;
pub mod handlers;
pub mod laws;
