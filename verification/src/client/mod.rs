//! The client side: request building, response and info parsing, and the
//! command and response logic of the interactive shell.
pub mod protocol;
pub mod types;
pub mod commands;
pub mod responses;
pub mod info;
pub mod shell;
pub mod plans;
pub mod readback;
