//! Memo persistence, search and access-control logic for a note service
//! that keeps its notes as points of a vector database.

pub mod time;
pub mod memo;
pub mod error;
pub mod payload;
pub mod search;
pub mod tags;
pub mod store;
pub mod auth;
