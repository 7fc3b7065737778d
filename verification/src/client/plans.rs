//! What the requests the shell sends carry, as the server reads them.
use vstd::prelude::*;

use crate::client::commands::{command_plan, level_of, ClientCommand, LevelView, PlanView};
use crate::client::protocol::request_spec;
use crate::client::responses::pending_session;
use crate::client::types::{ClientView, PendingView};
use crate::server::protocol::{request_accepted, request_tokens};
use crate::text::is_white_space;
use crate::wire::{all_non_empty, is_command_word, lemma_request_round_trip};

verus! {

/// A word of capital letters and underscores is a command word.
proof fn lemma_capital_word(w: Seq<char>)
    requires
        w.len() > 0,
        forall|i: int| 0 <= i < w.len() ==> ('A' <= #[trigger] w[i] <= 'Z') || w[i] == '_',
    ensures
        is_command_word(w),
{
    assert forall|i: int| 0 <= i < w.len() implies !is_white_space(#[trigger] w[i]) && w[i] != '"'
        && w[i] != '\\' by {
        assert(('A' <= w[i] <= 'Z') || w[i] == '_');
    }
}

/// A request `name` with `args`, read by the server, gives back the name and
/// `args`.
proof fn lemma_read_back(name: Seq<char>, args: Seq<Seq<char>>)
    requires
        name.len() > 0,
        forall|i: int| 0 <= i < name.len() ==> ('A' <= #[trigger] name[i] <= 'Z') || name[i] == '_',
        all_non_empty(args),
    ensures
        request_accepted(request_spec(name, args)),
        request_tokens(request_spec(name, args)) == seq![name] + args,
        request_tokens(request_spec(name, args)).drop_first() == args,
        request_tokens(request_spec(name, args))[0] == name,
{
    lemma_capital_word(name);
    lemma_request_round_trip(name, args);
    assert((seq![name] + args).drop_first() =~= args);
}

/// Every request a typed shell command sends carries, as the server reads it,
/// the typed arguments in the order they were typed: for `/send "u" "m"` the
/// recipient `u` first and the body `m` second; for `/use` the team, channel
/// and thread in that order; for `/create` the name (or title, or reply body)
/// first and the description (or body) second.
pub proof fn lemma_plan_carries_args(k: ClientCommand, c: ClientView, args: Seq<Seq<char>>)
    requires
        all_non_empty(args),
    ensures
        command_plan(k, c, args) matches PlanView::Request(r, _) ==> request_accepted(r)
            && request_tokens(r).drop_first() == args,
{
    let e: Seq<Seq<char>> = Seq::empty();
    match k {
        ClientCommand::Login => {
            reveal_strlit("LOGIN");
            if args.len() == 1 {
                assert(seq![args[0]] =~= args);
                lemma_read_back("LOGIN"@, args);
            }
        },
        ClientCommand::Logout => {
            reveal_strlit("LOGOUT");
            if args.len() == 0 {
                assert(seq![] =~= args);
                lemma_read_back("LOGOUT"@, args);
            }
        },
        ClientCommand::Users => {
            reveal_strlit("USERS");
            if args.len() == 0 {
                assert(seq![] =~= args);
                lemma_read_back("USERS"@, args);
            }
        },
        ClientCommand::User => {
            reveal_strlit("USER");
            if args.len() == 1 {
                assert(seq![args[0]] =~= args);
                lemma_read_back("USER"@, args);
            }
        },
        ClientCommand::Send => {
            reveal_strlit("SEND");
            if args.len() == 2 {
                assert(seq![args[0], args[1]] =~= args);
                lemma_read_back("SEND"@, args);
            }
        },
        ClientCommand::Messages => {
            reveal_strlit("MESSAGES");
            if args.len() == 1 {
                assert(seq![args[0]] =~= args);
                lemma_read_back("MESSAGES"@, args);
            }
        },
        ClientCommand::Use => {
            reveal_strlit("USE");
            lemma_read_back("USE"@, args);
        },
        ClientCommand::Create => {
            reveal_strlit("CREATE_TEAM");
            reveal_strlit("CREATE_CHAN");
            reveal_strlit("CREATE_THREAD");
            reveal_strlit("CREATE_REP");
            if args.len() == 2 {
                assert(seq![args[0], args[1]] =~= args);
                lemma_read_back("CREATE_TEAM"@, args);
                lemma_read_back("CREATE_CHAN"@, args);
                lemma_read_back("CREATE_THREAD"@, args);
            }
            if args.len() == 1 {
                assert(seq![args[0]] =~= args);
                lemma_read_back("CREATE_REP"@, args);
            }
        },
        ClientCommand::List => {
            reveal_strlit("LIST_TEAMS");
            reveal_strlit("LIST_CHANS");
            reveal_strlit("LIST_THREADS");
            reveal_strlit("LIST_REPS");
            if args.len() == 0 {
                assert(seq![] =~= args);
                lemma_read_back("LIST_TEAMS"@, args);
                lemma_read_back("LIST_CHANS"@, args);
                lemma_read_back("LIST_THREADS"@, args);
                lemma_read_back("LIST_REPS"@, args);
            }
        },
        ClientCommand::Info => {
            reveal_strlit("INFO_USER");
            reveal_strlit("INFO_TEAM");
            reveal_strlit("INFO_CHAN");
            reveal_strlit("INFO_THREAD");
            if args.len() == 0 {
                assert(seq![] =~= args);
                lemma_read_back("INFO_USER"@, args);
                lemma_read_back("INFO_TEAM"@, args);
                lemma_read_back("INFO_CHAN"@, args);
                lemma_read_back("INFO_THREAD"@, args);
            }
        },
        _ => {},
    }
}

/// `/send "u" "m"` waits for the answer about a message to `u` with body
/// `m`.
pub proof fn lemma_send_waits_for_it(c: ClientView, args: Seq<Seq<char>>)
    requires
        args.len() == 2,
    ensures
        command_plan(ClientCommand::Send, c, args) matches PlanView::Request(_, p)
            && p == (PendingView::Send { user_uuid: args[0], message_body: args[1] }),
{
}

/// The request `/use` leaves waiting, when the server accepts it, selects
/// the typed team, channel and thread: the next `/list`, `/info` and
/// `/create` then wait for the answer about what was typed, by as many
/// levels as were typed.
pub proof fn lemma_use_then_ask(c: ClientView, args: Seq<Seq<char>>, resp: Seq<char>, more: Seq<Seq<char>>)
    requires
        args.len() <= 3,
    ensures
        command_plan(ClientCommand::Use, c, args) matches PlanView::Request(_, p) && ({
            let next = pending_session(ClientView { pending: Some(p), ..c }, 200, resp);
            &&& next.team_uuid == (if args.len() >= 1 { Some(args[0]) } else { None })
            &&& next.channel_uuid == (if args.len() >= 2 { Some(args[1]) } else { None })
            &&& next.thread_uuid == (if args.len() >= 3 { Some(args[2]) } else { None })
            &&& command_plan(ClientCommand::List, next, Seq::empty()) matches PlanView::Request(_, q) && q == (
                if args.len() == 0 {
                    PendingView::ListTeams
                } else if args.len() == 1 {
                    PendingView::ListChannels { team_uuid: args[0] }
                } else if args.len() == 2 {
                    PendingView::ListThreads { team_uuid: args[0], channel_uuid: args[1] }
                } else {
                    PendingView::ListReplies { team_uuid: args[0], channel_uuid: args[1], thread_uuid: args[2] }
                })
            &&& command_plan(ClientCommand::Info, next, Seq::empty()) matches PlanView::Request(_, q) && q == (
                if args.len() == 0 {
                    PendingView::InfoUser
                } else if args.len() == 1 {
                    PendingView::InfoTeam { team_uuid: args[0] }
                } else if args.len() == 2 {
                    PendingView::InfoChannel { team_uuid: args[0], channel_uuid: args[1] }
                } else {
                    PendingView::InfoThread { team_uuid: args[0], channel_uuid: args[1], thread_uuid: args[2] }
                })
            &&& (more.len() == (if args.len() == 3 { 1int } else { 2int }) ==> (command_plan(ClientCommand::Create, next, more) matches PlanView::Request(_, q) && q == (
                if args.len() == 0 {
                    PendingView::CreateTeam
                } else if args.len() == 1 {
                    PendingView::CreateChannel { team_uuid: args[0] }
                } else if args.len() == 2 {
                    PendingView::CreateThread { team_uuid: args[0], channel_uuid: args[1] }
                } else {
                    PendingView::CreateReply { team_uuid: args[0], channel_uuid: args[1], thread_uuid: args[2] }
                })))
        }),
{
}

/// `/login "n"`, `/user "u"` and `/messages "u"` wait for the answer about
/// the typed name or user.
pub proof fn lemma_named_requests_wait_for_it(c: ClientView, args: Seq<Seq<char>>)
    requires
        args.len() == 1,
    ensures
        command_plan(ClientCommand::Login, c, args) matches PlanView::Request(_, p)
            && p == (PendingView::Login { user_name: args[0] }),
        command_plan(ClientCommand::User, c, args) matches PlanView::Request(_, p)
            && p == (PendingView::User { user_uuid: args[0] }),
        command_plan(ClientCommand::Messages, c, args) matches PlanView::Request(_, p)
            && p == (PendingView::Messages { user_uuid: args[0] }),
{
}

} // verus!
