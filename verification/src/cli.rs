//! Command-line arguments of the server and of the client.
use vstd::prelude::*;

use crate::text::{chars_of, parse_u16, parse_u16_spec, str_eq};

verus! {

/// What the command line asks for.
pub enum CliRequest {
    /// `--help`: print the usage and stop.
    Help,
    /// Malformed arguments: print the usage and fail.
    Usage,
    /// Run with this host (empty for the server), port text and port.
    Run { host: String, port_text: String, port: u16 },
}

/// The port a text names: a decimal `u16` other than zero.
pub open spec fn port_spec(s: Seq<char>) -> Option<u16> {
    match parse_u16_spec(s) {
        Some(p) => if p > 0 {
            Some(p)
        } else {
            None
        },
        None => None,
    }
}

/// The port a text names: a decimal `u16` other than zero.
pub fn parse_port(port_str: &str) -> (r: Option<u16>)
    ensures
        r == port_spec(port_str@),
{
    let c = chars_of(port_str);
    match parse_u16(c.as_slice()) {
        Some(p) => if p > 0 {
            Some(p)
        } else {
            None
        },
        None => None,
    }
}

/// What the server's command line `args` (program name first) asks for: a
/// single `--help`, or a single port.
pub fn server_request(args: &[String]) -> (r: CliRequest)
    ensures
        args@.len() == 2 && args@[1]@ == "--help"@ ==> r is Help,
        !(args@.len() == 2 && args@[1]@ == "--help"@) ==> match r {
            CliRequest::Run { host, port_text, port } => args@.len() == 2 && port_spec(args@[1]@)
                == Some(port) && port_text@ == args@[1]@ && host@.len() == 0,
            CliRequest::Usage => args@.len() != 2 || port_spec(args@[1]@) is None,
            CliRequest::Help => false,
        },
{
    if args.len() == 2 && str_eq(args[1].as_str(), "--help") {
        return CliRequest::Help;
    }
    if args.len() != 2 {
        return CliRequest::Usage;
    }
    match parse_port(args[1].as_str()) {
        Some(port) => CliRequest::Run { host: String::new(), port_text: args[1].clone(), port },
        None => CliRequest::Usage,
    }
}

/// What the client's command line `args` (program name first) asks for: a
/// single `--help`, or a non-empty host and a port.
pub fn client_request(args: &[String]) -> (r: CliRequest)
    ensures
        args@.len() == 2 && args@[1]@ == "--help"@ ==> r is Help,
        !(args@.len() == 2 && args@[1]@ == "--help"@) ==> match r {
            CliRequest::Run { host, port_text, port } => args@.len() == 3 && args@[1]@.len() > 0
                && port_spec(args@[2]@) == Some(port) && host@ == args@[1]@ && port_text@
                == args@[2]@,
            CliRequest::Usage => args@.len() != 3 || args@[1]@.len() == 0 || port_spec(
                args@[2]@,
            ) is None,
            CliRequest::Help => false,
        },
{
    if args.len() == 2 && str_eq(args[1].as_str(), "--help") {
        return CliRequest::Help;
    }
    if args.len() != 3 || args[1].as_str().is_empty() {
        return CliRequest::Usage;
    }
    match parse_port(args[2].as_str()) {
        Some(port) => CliRequest::Run {
            host: args[1].clone(),
            port_text: args[2].clone(),
            port,
        },
        None => CliRequest::Usage,
    }
}

} // verus!
