//! Messaging service core: wire protocol, JSON persistence format, user and
//! team stores, and the command logic of the server and of the client.
pub mod collections;
pub mod text;
pub mod server;
pub mod client;
pub mod wire;
pub mod json;
pub mod json_reader;
pub mod json_writer;
pub mod json_laws;
pub mod cli;
