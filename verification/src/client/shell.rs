//! The decisions of the interactive shell loop: what a line from the server
//! is, and what a typed line leads to.
use vstd::prelude::*;

use crate::text::{chars_of, str_eq};

verus! {

/// What a line from the server is.
#[derive(PartialEq, Eq, Structural, Clone, Copy)]
pub enum ServerLine {
    /// An info line (starts with `I`): printed, then handed to the info
    /// handler.
    Info,
    /// A response line (starts with `R`): printed, then handed to the
    /// response handler.
    Response,
    /// Anything else, which the shell ignores.
    Other,
}

/// The kind of a server line, by its first character.
pub open spec fn server_line_kind(line: Seq<char>) -> ServerLine {
    if line.len() > 0 && line[0] == 'I' {
        ServerLine::Info
    } else if line.len() > 0 && line[0] == 'R' {
        ServerLine::Response
    } else {
        ServerLine::Other
    }
}

/// Tells an info line from a response line.
pub fn classify_server_line(line: &str) -> (r: ServerLine)
    ensures
        r == server_line_kind(line@),
{
    let chars = chars_of(line);
    if chars.len() > 0 && chars[0] == 'I' {
        ServerLine::Info
    } else if chars.len() > 0 && chars[0] == 'R' {
        ServerLine::Response
    } else {
        ServerLine::Other
    }
}

/// What the shell does with a typed line.
#[derive(PartialEq, Eq, Structural, Clone, Copy)]
pub enum TypedAction {
    /// `exit` or `quit`: leave the shell.
    Quit,
    /// An empty line: nothing.
    Ignore,
    /// A line typed while an answer is awaited: kept for later, in order.
    Queue,
    /// Any other line: run it now.
    Run,
}

/// What a typed line leads to, `waiting` telling whether an answer from the
/// server is awaited.
pub open spec fn typed_action_spec(command: Seq<char>, waiting: bool) -> TypedAction {
    if command == "exit"@ || command == "quit"@ {
        TypedAction::Quit
    } else if command.len() == 0 {
        TypedAction::Ignore
    } else if waiting {
        TypedAction::Queue
    } else {
        TypedAction::Run
    }
}

/// Decides what a typed line leads to.
pub fn typed_action(command: &str, waiting: bool) -> (r: TypedAction)
    ensures
        r == typed_action_spec(command@, waiting),
{
    if str_eq(command, "exit") || str_eq(command, "quit") {
        TypedAction::Quit
    } else if chars_of(command).len() == 0 {
        TypedAction::Ignore
    } else if waiting {
        TypedAction::Queue
    } else {
        TypedAction::Run
    }
}

} // verus!
