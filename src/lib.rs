//! A conversation store: threads and their time-ordered messages, with the
//! pure parts of the enrichment that summarises a thread and embeds its
//! messages.

pub mod database;
pub mod enrichment;
pub mod laws;
pub mod message;
mod outside;
pub mod thread;
