//! What the server loop needs to forward private messages.
use vstd::prelude::*;

use crate::server::handlers::{info_line, info_line_spec};
use crate::text::{starts_with, str_eq};

verus! {

/// A private message to forward to its recipient.
pub struct PrivateMessageDispatch {
    pub sender_uuid: String,
    pub receiver_uuid: String,
    pub message_body: String,
}

/// The answer to one request, and the private message it asks to forward.
pub struct ProcessResult {
    pub reply: String,
    pub private_message: Option<PrivateMessageDispatch>,
}

/// The private message to forward after a request: only for a successful
/// `SEND` from a logged-in user with a recipient and a body.
pub fn collect_private_message_dispatch(
    command_name: &str,
    reply: &str,
    sender_uuid: Option<&str>,
    args: &[String],
) -> (r: Option<PrivateMessageDispatch>)
    ensures
        r is Some <==> (command_name@ == "SEND"@ && 4 <= reply@.len() && reply@.subrange(0, 4)
            == "R200"@ && sender_uuid is Some && args@.len() >= 2),
        r matches Some(d) ==> {
            &&& d.sender_uuid@ == sender_uuid->0@
            &&& d.receiver_uuid@ == args@[0]@
            &&& d.message_body@ == args@[1]@
        },
{
    proof {
        reveal_strlit("R200");
    }
    if !str_eq(command_name, "SEND") || !starts_with(reply, "R200") {
        return None;
    }
    match sender_uuid {
        Some(sender) => if args.len() >= 2 {
            Some(
                PrivateMessageDispatch {
                    sender_uuid: sender.to_owned(),
                    receiver_uuid: args[0].clone(),
                    message_body: args[1].clone(),
                },
            )
        } else {
            None
        },
        None => None,
    }
}

/// The info line announcing a private message to its recipient.
pub fn build_private_message_info_payload(sender_uuid: &str, message_body: &str) -> (r: String)
    ensures
        r@ == info_line_spec("I100 NEW_MESSAGE "@, seq![sender_uuid@, message_body@]),
{
    let words = vec![sender_uuid.to_owned(), message_body.to_owned()];
    assert(crate::server::session::strings_view(words@) =~= seq![sender_uuid@, message_body@]);
    info_line("I100 NEW_MESSAGE ", &words)
}

} // verus!
