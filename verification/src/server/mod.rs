//! The server side: request parsing, user and team stores, persistence
//! format, and command handling.
pub mod protocol;
pub mod ids;
pub mod users;
pub mod storage;
pub mod session;
pub mod shared;
pub mod handlers;
pub mod resources;
pub mod dispatch;
pub mod notifier;
pub mod transport;
pub mod network;
pub mod documents;
pub mod laws;
pub mod dump;
pub mod answers;
pub mod notices;
