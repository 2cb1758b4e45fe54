//! Bulk triage of a remote mailbox: the verified engine behind scanning a
//! folder for senders and purging the messages of chosen senders.

pub mod aggregate;
pub mod bridge;
pub mod deleter;
pub mod error;
pub mod header;
pub mod partition;
pub mod provider;
pub mod scan;
pub mod state;
pub mod text;
