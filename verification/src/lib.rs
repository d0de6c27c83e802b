//! State and decision logic of a websocket chat server: users and their
//! connections, channels and their members, which channels each connection
//! is viewing, the checks each client command makes before it touches the
//! database, and the notifications each state change calls for.

pub mod collections;
pub mod user;
pub mod channel;
pub mod errors;
pub mod attachments;
pub mod server;
pub mod commands;
pub mod message;
pub mod tables;
pub mod config;
pub mod laws;
pub mod passwords;
pub mod user_table;
