//! The server command table and the dispatch of request lines to the
//! handlers.
use vstd::prelude::*;

use crate::server::handlers::{
    handle_login, handle_logout, handle_messages, handle_send, handle_subscribe,
    handle_subscribed, handle_unsubscribe, handle_use, handle_user, handle_users, login_spec,
    logout_cmd_spec, messages_spec, reply_only, send_spec, step_of, subscribe_cmd_spec,
    subscribed_spec, unsubscribe_cmd_spec, use_spec, users_spec, Step,
};
use crate::server::protocol::{
    parse_request_line, quoted, request_accepted, request_tokens, response, response_spec,
    uppercase_of,
};
use crate::server::ids::uuid_for;
use crate::server::resources::{
    create_spec, creation_seed, creation_sequence_spec, handle_create, handle_info, handle_list,
    info_spec, list_spec,
};
use crate::server::shared::context_of;
use crate::server::session::{strings_view, CommandOutcome, Persist, SessionState, SessionView};
use crate::server::shared::{bad_request, bad_request_view, validate_arg_count};
use crate::server::storage::{first_match, is_first_match, lemma_first_match, ServerStorage, StorageView};
use crate::server::users::{UserStore, UserStoreView};
use crate::text::{push_str, quoted_spec, string_of, str_eq};

verus! {

/// What a command does.
#[derive(PartialEq, Eq, Structural, Clone, Copy)]
pub enum CommandKind {
    Help,
    Login,
    Logout,
    Users,
    User,
    Send,
    Messages,
    Subscribe,
    Subscribed,
    Unsubscribe,
    Use,
    Create,
    List,
    Info,
}

/// Metadata of a single server command.
pub struct CommandDefinition {
    /// Command name, as sent by clients.
    pub name: String,
    /// Usage string shown in help output.
    pub usage: String,
    /// Short description of the command.
    pub description: String,
    /// What the command does.
    pub kind: CommandKind,
}

impl View for CommandDefinition {
    type V = (Seq<char>, Seq<char>, Seq<char>, CommandKind);

    open spec fn view(&self) -> (Seq<char>, Seq<char>, Seq<char>, CommandKind) {
        (self.name@, self.usage@, self.description@, self.kind)
    }
}

/// The command table, sorted by name.
pub open spec fn registry_spec() -> Seq<(Seq<char>, Seq<char>, Seq<char>, CommandKind)> {
    seq![
        ("CREATE"@, "CREATE"@, "based on context, create a sub resource"@, CommandKind::Create),
        ("CREATE_CHAN"@, "CREATE_CHAN [\"channel_name\"] [\"channel_description\"]"@, "create a channel in team context"@, CommandKind::Create),
        ("CREATE_REP"@, "CREATE_REP [\"reply_body\"]"@, "create a reply in thread context"@, CommandKind::Create),
        ("CREATE_TEAM"@, "CREATE_TEAM [\"team_name\"] [\"team_description\"]"@, "create a team in root context"@, CommandKind::Create),
        ("CREATE_THREAD"@, "CREATE_THREAD [\"thread_title\"] [\"thread_body\"]"@, "create a thread in channel context"@, CommandKind::Create),
        ("HELP"@, "HELP"@, "show help"@, CommandKind::Help),
        ("INFO"@, "INFO"@, "based on context, display resource details"@, CommandKind::Info),
        ("INFO_CHAN"@, "INFO_CHAN"@, "show selected channel details"@, CommandKind::Info),
        ("INFO_TEAM"@, "INFO_TEAM"@, "show selected team details"@, CommandKind::Info),
        ("INFO_THREAD"@, "INFO_THREAD"@, "show selected thread details"@, CommandKind::Info),
        ("INFO_USER"@, "INFO_USER"@, "show current user details"@, CommandKind::Info),
        ("LIST"@, "LIST"@, "based on context, list sub resources"@, CommandKind::List),
        ("LIST_CHANS"@, "LIST_CHANS"@, "list channels from team context"@, CommandKind::List),
        ("LIST_REPS"@, "LIST_REPS"@, "list replies from thread context"@, CommandKind::List),
        ("LIST_TEAMS"@, "LIST_TEAMS"@, "list teams from root context"@, CommandKind::List),
        ("LIST_THREADS"@, "LIST_THREADS"@, "list threads from channel context"@, CommandKind::List),
        ("LOGIN"@, "LOGIN [\"user_name\"]"@, "set the user_name used by client"@, CommandKind::Login),
        ("LOGOUT"@, "LOGOUT"@, "disconnect the client from the server"@, CommandKind::Logout),
        ("MESSAGES"@, "MESSAGES [\"user_uuid\"]"@, "list all messages exchanged with the specified user"@, CommandKind::Messages),
        ("SEND"@, "SEND [\"user_uuid\"] [\"message_body\"]"@, "send a message to specific user"@, CommandKind::Send),
        ("SUBSCRIBE"@, "SUBSCRIBE [\"team_uuid\"]"@, "subscribe to team events and sub resources"@, CommandKind::Subscribe),
        ("SUBSCRIBED"@, "SUBSCRIBED ?[\"team_uuid\"]"@, "list all subscribed teams or users subscribed to a team"@, CommandKind::Subscribed),
        ("UNSUBSCRIBE"@, "UNSUBSCRIBE [\"team_uuid\"]"@, "unsubscribe from a team"@, CommandKind::Unsubscribe),
        ("USE"@, "USE ?[\"team_uuid\"] ?[\"channel_uuid\"] ?[\"thread_uuid\"]"@, "set current command context"@, CommandKind::Use),
        ("USER"@, "USER [\"user_uuid\"]"@, "get details about the requested user"@, CommandKind::User),
        ("USERS"@, "USERS"@, "list all users that exist on the domain"@, CommandKind::Users),
    ]
}

/// A command definition.
fn definition(name: &str, usage: &str, description: &str, kind: CommandKind) -> (r: CommandDefinition)
    ensures
        r@ == (name@, usage@, description@, kind),
{
    CommandDefinition {
        name: name.to_owned(),
        usage: usage.to_owned(),
        description: description.to_owned(),
        kind,
    }
}

/// Build the server command registry, sorted by command name.
pub fn command_registry() -> (r: Vec<CommandDefinition>)
    ensures
        r@.map_values(|d: CommandDefinition| d@) == registry_spec(),
{
    let mut v: Vec<CommandDefinition> = Vec::new();
    v.push(definition("CREATE", "CREATE", "based on context, create a sub resource", CommandKind::Create));
    v.push(definition("CREATE_CHAN", "CREATE_CHAN [\"channel_name\"] [\"channel_description\"]", "create a channel in team context", CommandKind::Create));
    v.push(definition("CREATE_REP", "CREATE_REP [\"reply_body\"]", "create a reply in thread context", CommandKind::Create));
    v.push(definition("CREATE_TEAM", "CREATE_TEAM [\"team_name\"] [\"team_description\"]", "create a team in root context", CommandKind::Create));
    v.push(definition("CREATE_THREAD", "CREATE_THREAD [\"thread_title\"] [\"thread_body\"]", "create a thread in channel context", CommandKind::Create));
    v.push(definition("HELP", "HELP", "show help", CommandKind::Help));
    v.push(definition("INFO", "INFO", "based on context, display resource details", CommandKind::Info));
    v.push(definition("INFO_CHAN", "INFO_CHAN", "show selected channel details", CommandKind::Info));
    v.push(definition("INFO_TEAM", "INFO_TEAM", "show selected team details", CommandKind::Info));
    v.push(definition("INFO_THREAD", "INFO_THREAD", "show selected thread details", CommandKind::Info));
    v.push(definition("INFO_USER", "INFO_USER", "show current user details", CommandKind::Info));
    v.push(definition("LIST", "LIST", "based on context, list sub resources", CommandKind::List));
    v.push(definition("LIST_CHANS", "LIST_CHANS", "list channels from team context", CommandKind::List));
    v.push(definition("LIST_REPS", "LIST_REPS", "list replies from thread context", CommandKind::List));
    v.push(definition("LIST_TEAMS", "LIST_TEAMS", "list teams from root context", CommandKind::List));
    v.push(definition("LIST_THREADS", "LIST_THREADS", "list threads from channel context", CommandKind::List));
    v.push(definition("LOGIN", "LOGIN [\"user_name\"]", "set the user_name used by client", CommandKind::Login));
    v.push(definition("LOGOUT", "LOGOUT", "disconnect the client from the server", CommandKind::Logout));
    v.push(definition("MESSAGES", "MESSAGES [\"user_uuid\"]", "list all messages exchanged with the specified user", CommandKind::Messages));
    v.push(definition("SEND", "SEND [\"user_uuid\"] [\"message_body\"]", "send a message to specific user", CommandKind::Send));
    v.push(definition("SUBSCRIBE", "SUBSCRIBE [\"team_uuid\"]", "subscribe to team events and sub resources", CommandKind::Subscribe));
    v.push(definition("SUBSCRIBED", "SUBSCRIBED ?[\"team_uuid\"]", "list all subscribed teams or users subscribed to a team", CommandKind::Subscribed));
    v.push(definition("UNSUBSCRIBE", "UNSUBSCRIBE [\"team_uuid\"]", "unsubscribe from a team", CommandKind::Unsubscribe));
    v.push(definition("USE", "USE ?[\"team_uuid\"] ?[\"channel_uuid\"] ?[\"thread_uuid\"]", "set current command context", CommandKind::Use));
    v.push(definition("USER", "USER [\"user_uuid\"]", "get details about the requested user", CommandKind::User));
    v.push(definition("USERS", "USERS", "list all users that exist on the domain", CommandKind::Users));
    assert(v@.map_values(|d: CommandDefinition| d@) =~= registry_spec());
    v
}

/// One help line: `NAME USAGE : DESCRIPTION`.
pub open spec fn help_line(d: (Seq<char>, Seq<char>, Seq<char>, CommandKind)) -> Seq<char> {
    d.0 + " "@ + d.1 + " : "@ + d.2
}

/// The help lines joined by a backslash and an `n`.
pub open spec fn help_text(defs: Seq<(Seq<char>, Seq<char>, Seq<char>, CommandKind)>) -> Seq<char>
    decreases defs.len(),
{
    if defs.len() == 0 {
        Seq::empty()
    } else if defs.len() == 1 {
        help_line(defs[0])
    } else {
        help_text(defs.drop_last()) + "\\n"@ + help_line(defs.last())
    }
}

/// `HELP`: every command with its usage and description.
pub open spec fn help_spec(
    s: SessionView,
    u: UserStoreView,
    st: StorageView,
    args: Seq<Seq<char>>,
) -> Step {
    if args.len() != 0 {
        reply_only(s, u, st, bad_request_view())
    } else {
        reply_only(s, u, st, response_spec(200, Some(quoted_spec(help_text(registry_spec())))))
    }
}

/// Shows the command table.
pub fn handle_help(
    state: &mut SessionState,
    users: &mut UserStore,
    storage: &mut ServerStorage,
    args: &[String],
) -> (r: CommandOutcome)
    requires
        old(users).wf(),
    ensures
        final(users).wf(),
        step_of(*final(state), *final(users), *final(storage), r) == help_spec(
            old(state)@,
            old(users)@,
            old(storage)@,
            strings_view(args@),
        ),
{
    if validate_arg_count(args, 0, 0).is_err() {
        return CommandOutcome::response_only(bad_request());
    }
    let defs = command_registry();
    let ghost dv = defs@.map_values(|d: CommandDefinition| d@);
    let mut out: Vec<char> = Vec::new();
    let mut i: usize = 0;
    while i < defs.len()
        invariant
            i <= defs@.len(),
            dv == defs@.map_values(|d: CommandDefinition| d@),
            out@ == help_text(dv.subrange(0, i as int)),
        decreases defs@.len() - i,
    {
        assert(dv.subrange(0, i + 1).drop_last() =~= dv.subrange(0, i as int));
        if i > 0 {
            push_str(&mut out, "\\n");
        }
        let d = &defs[i];
        push_str(&mut out, d.name.as_str());
        push_str(&mut out, " ");
        push_str(&mut out, d.usage.as_str());
        push_str(&mut out, " : ");
        push_str(&mut out, d.description.as_str());
        i = i + 1;
        assert(out@ =~= help_text(dv.subrange(0, i as int)));
    }
    assert(dv.subrange(0, i as int) =~= dv);
    let body = string_of(out.as_slice());
    let q = quoted(body.as_str());
    CommandOutcome::response_only(response(200, Some(q.as_str())))
}

/// The kind of the command named `name`.
pub open spec fn kind_of(name: Seq<char>) -> Option<CommandKind> {
    match first_match(registry_spec().map_values(|d: (Seq<char>, Seq<char>, Seq<char>, CommandKind)| d.0), name) {
        Some(i) => Some(registry_spec()[i].3),
        None => None,
    }
}

/// Finds the command named `name`.
pub fn command_kind(name: &str) -> (r: Option<CommandKind>)
    ensures
        r == kind_of(name@),
{
    let defs = command_registry();
    let ghost keys = registry_spec().map_values(
        |d: (Seq<char>, Seq<char>, Seq<char>, CommandKind)| d.0,
    );
    proof {
        lemma_first_match(keys, name@);
    }
    let mut i: usize = 0;
    while i < defs.len()
        invariant
            i <= defs@.len(),
            defs@.map_values(|d: CommandDefinition| d@) == registry_spec(),
            keys == registry_spec().map_values(|d: (Seq<char>, Seq<char>, Seq<char>, CommandKind)| d.0),
            forall|j: int| 0 <= j < i ==> keys[j] != name@,
        decreases defs@.len() - i,
    {
        assert(defs@[i as int]@ == registry_spec()[i as int]);
        if str_eq(defs[i].name.as_str(), name) {
            assert(is_first_match(keys, name@, i as int));
            return Some(defs[i].kind);
        }
        i = i + 1;
    }
    None
}

/// The step of command `k` on the given arguments; `fresh` and `ts` are the
/// UUID and the time a command that needs them receives.
pub open spec fn command_spec(
    k: CommandKind,
    s: SessionView,
    u: UserStoreView,
    st: StorageView,
    args: Seq<Seq<char>>,
    fresh: Seq<char>,
    ts: i64,
) -> Step {
    match k {
        CommandKind::Help => help_spec(s, u, st, args),
        CommandKind::Login => login_spec(s, u, st, args, fresh),
        CommandKind::Logout => logout_cmd_spec(s, u, st, args),
        CommandKind::Users => users_spec(s, u, st, args),
        CommandKind::User => crate::server::handlers::user_spec(s, u, st, args),
        CommandKind::Send => send_spec(s, u, st, args, ts),
        CommandKind::Messages => messages_spec(s, u, st, args),
        CommandKind::Subscribe => subscribe_cmd_spec(s, u, st, args),
        CommandKind::Subscribed => subscribed_spec(s, u, st, args),
        CommandKind::Unsubscribe => unsubscribe_cmd_spec(s, u, st, args),
        CommandKind::Use => use_spec(s, u, st, args),
        CommandKind::Create => create_spec(s, u, st, args, fresh, ts),
        CommandKind::List => list_spec(s, u, st, args),
        CommandKind::Info => info_spec(s, u, st, args),
    }
}

/// The step of a request line: a malformed line is a bad request; without a
/// login only `LOGIN` and `USE` are allowed; an unknown command is not found;
/// otherwise the command runs on its arguments.
pub open spec fn dispatch_spec(
    s: SessionView,
    u: UserStoreView,
    st: StorageView,
    line: Seq<char>,
    fresh: Seq<char>,
    ts: i64,
) -> Step {
    if !request_accepted(line) {
        reply_only(s, u, st, bad_request_view())
    } else {
        let name = uppercase_of(request_tokens(line)[0]);
        let args = request_tokens(line).drop_first();
        if s.user_uuid is None && name != "LOGIN"@ && name != "USE"@ {
            reply_only(s, u, st, response_spec(401, Some("\"unauthorized\""@)))
        } else {
            match kind_of(name) {
                None => reply_only(s, u, st, response_spec(404, Some("\"not found\""@))),
                Some(k) => command_spec(k, s, u, st, args, fresh, ts),
            }
        }
    }
}

/// The identifier command `k` gives to a user or a resource it creates, the
/// clock reading being `nanos`: a login's is made from the name and the next
/// user sequence number, a creation's from its arguments and the number of
/// resources in its context; the other commands create nothing.
pub open spec fn fresh_id(
    k: CommandKind,
    s: SessionView,
    u: UserStoreView,
    st: StorageView,
    args: Seq<Seq<char>>,
    nanos: u128,
) -> Seq<char> {
    match k {
        CommandKind::Login => uuid_for(args[0], nanos, u.sequence.wrapping_add(1)),
        CommandKind::Create => uuid_for(
            creation_seed(args),
            nanos,
            creation_sequence_spec(context_of(s), st.teams),
        ),
        _ => Seq::empty(),
    }
}

/// The identifier the command of a request line gives to what it creates,
/// the clock reading being `nanos`.
pub open spec fn dispatch_fresh(
    s: SessionView,
    u: UserStoreView,
    st: StorageView,
    line: Seq<char>,
    nanos: u128,
) -> Seq<char> {
    if request_accepted(line) {
        match kind_of(uppercase_of(request_tokens(line)[0])) {
            Some(k) => fresh_id(k, s, u, st, request_tokens(line).drop_first(), nanos),
            None => Seq::empty(),
        }
    } else {
        Seq::empty()
    }
}

/// Runs command `kind`.
fn run_command(
    kind: CommandKind,
    state: &mut SessionState,
    users: &mut UserStore,
    storage: &mut ServerStorage,
    args: &[String],
) -> (r: CommandOutcome)
    requires
        old(users).wf(),
    ensures
        final(users).wf(),
        exists|nanos: u128, ts: i64|
            step_of(*final(state), *final(users), *final(storage), r) == #[trigger] command_spec(
                kind,
                old(state)@,
                old(users)@,
                old(storage)@,
                strings_view(args@),
                fresh_id(kind, old(state)@, old(users)@, old(storage)@, strings_view(args@), nanos),
                ts,
            ),
{
    let ghost e = fresh_id(kind, old(state)@, old(users)@, old(storage)@, strings_view(args@), 0);
    match kind {
        CommandKind::Help => {
            let r = handle_help(state, users, storage, args);
            assert(step_of(*state, *users, *storage, r) == command_spec(kind, old(state)@, old(users)@, old(storage)@, strings_view(args@), e, 0));
            r
        },
        CommandKind::Login => {
            let r = handle_login(state, users, storage, args);
            let ghost n = choose|n: u128| step_of(*state, *users, *storage, r) == login_spec(old(state)@, old(users)@, old(storage)@, strings_view(args@), #[trigger] uuid_for(strings_view(args@)[0], n, old(users)@.sequence.wrapping_add(1)));
            let ghost f = fresh_id(kind, old(state)@, old(users)@, old(storage)@, strings_view(args@), n);
            assert(step_of(*state, *users, *storage, r) == command_spec(kind, old(state)@, old(users)@, old(storage)@, strings_view(args@), f, 0));
            r
        },
        CommandKind::Logout => {
            let r = handle_logout(state, users, storage, args);
            assert(step_of(*state, *users, *storage, r) == command_spec(kind, old(state)@, old(users)@, old(storage)@, strings_view(args@), e, 0));
            r
        },
        CommandKind::Users => {
            let r = handle_users(state, users, storage, args);
            assert(step_of(*state, *users, *storage, r) == command_spec(kind, old(state)@, old(users)@, old(storage)@, strings_view(args@), e, 0));
            r
        },
        CommandKind::User => {
            let r = handle_user(state, users, storage, args);
            assert(step_of(*state, *users, *storage, r) == command_spec(kind, old(state)@, old(users)@, old(storage)@, strings_view(args@), e, 0));
            r
        },
        CommandKind::Send => {
            let r = handle_send(state, users, storage, args);
            let ghost t = choose|t: i64| step_of(*state, *users, *storage, r) == send_spec(old(state)@, old(users)@, old(storage)@, strings_view(args@), t);
            assert(step_of(*state, *users, *storage, r) == command_spec(kind, old(state)@, old(users)@, old(storage)@, strings_view(args@), e, t));
            r
        },
        CommandKind::Messages => {
            let r = handle_messages(state, users, storage, args);
            assert(step_of(*state, *users, *storage, r) == command_spec(kind, old(state)@, old(users)@, old(storage)@, strings_view(args@), e, 0));
            r
        },
        CommandKind::Subscribe => {
            let r = handle_subscribe(state, users, storage, args);
            assert(step_of(*state, *users, *storage, r) == command_spec(kind, old(state)@, old(users)@, old(storage)@, strings_view(args@), e, 0));
            r
        },
        CommandKind::Subscribed => {
            let r = handle_subscribed(state, users, storage, args);
            assert(step_of(*state, *users, *storage, r) == command_spec(kind, old(state)@, old(users)@, old(storage)@, strings_view(args@), e, 0));
            r
        },
        CommandKind::Unsubscribe => {
            let r = handle_unsubscribe(state, users, storage, args);
            assert(step_of(*state, *users, *storage, r) == command_spec(kind, old(state)@, old(users)@, old(storage)@, strings_view(args@), e, 0));
            r
        },
        CommandKind::Use => {
            let r = handle_use(state, users, storage, args);
            assert(step_of(*state, *users, *storage, r) == command_spec(kind, old(state)@, old(users)@, old(storage)@, strings_view(args@), e, 0));
            r
        },
        CommandKind::Create => {
            let r = handle_create(state, users, storage, args);
            let ghost (n, t) = choose|n: u128, t: i64| step_of(*state, *users, *storage, r) == #[trigger] create_spec(old(state)@, old(users)@, old(storage)@, strings_view(args@), uuid_for(creation_seed(strings_view(args@)), n, creation_sequence_spec(context_of(old(state)@), old(storage)@.teams)), t);
            let ghost f = fresh_id(kind, old(state)@, old(users)@, old(storage)@, strings_view(args@), n);
            assert(step_of(*state, *users, *storage, r) == command_spec(kind, old(state)@, old(users)@, old(storage)@, strings_view(args@), f, t));
            r
        },
        CommandKind::List => {
            let r = handle_list(state, users, storage, args);
            assert(step_of(*state, *users, *storage, r) == command_spec(kind, old(state)@, old(users)@, old(storage)@, strings_view(args@), e, 0));
            r
        },
        CommandKind::Info => {
            let r = handle_info(state, users, storage, args);
            assert(step_of(*state, *users, *storage, r) == command_spec(kind, old(state)@, old(users)@, old(storage)@, strings_view(args@), e, 0));
            r
        },
    }
}

/// Parse a request line and dispatch it to the matching server command.
pub fn dispatch_line(
    state: &mut SessionState,
    users: &mut UserStore,
    storage: &mut ServerStorage,
    line: &str,
) -> (r: CommandOutcome)
    requires
        old(users).wf(),
    ensures
        final(users).wf(),
        exists|nanos: u128, ts: i64|
            step_of(*final(state), *final(users), *final(storage), r) == #[trigger] dispatch_spec(
                old(state)@,
                old(users)@,
                old(storage)@,
                line@,
                dispatch_fresh(old(state)@, old(users)@, old(storage)@, line@, nanos),
                ts,
            ),
{
    let ghost e = dispatch_fresh(old(state)@, old(users)@, old(storage)@, line@, 0);
    let parsed = match parse_request_line(line) {
        Ok(p) => p,
        Err(_) => {
            let r = CommandOutcome::response_only(bad_request());
            assert(step_of(*state, *users, *storage, r) == dispatch_spec(old(state)@, old(users)@, old(storage)@, line@, e, 0));
            return r;
        },
    };
    if state.user_uuid.is_none() && !str_eq(parsed.name.as_str(), "LOGIN") && !str_eq(
        parsed.name.as_str(),
        "USE",
    ) {
        let r = CommandOutcome::response_only(response(401, Some("\"unauthorized\"")));
        assert(step_of(*state, *users, *storage, r) == dispatch_spec(old(state)@, old(users)@, old(storage)@, line@, e, 0));
        return r;
    }
    match command_kind(parsed.name.as_str()) {
        None => {
            let r = CommandOutcome::response_only(response(404, Some("\"not found\"")));
            assert(step_of(*state, *users, *storage, r) == dispatch_spec(old(state)@, old(users)@, old(storage)@, line@, e, 0));
            r
        },
        Some(kind) => {
            assert(strings_view(parsed.args@) =~= parsed.args.deep_view());
            let r = run_command(kind, state, users, storage, parsed.args.as_slice());
            let ghost (n, t) = choose|n: u128, t: i64| step_of(*state, *users, *storage, r) == #[trigger] command_spec(kind, old(state)@, old(users)@, old(storage)@, strings_view(parsed.args@), fresh_id(kind, old(state)@, old(users)@, old(storage)@, strings_view(parsed.args@), n), t);
            assert(step_of(*state, *users, *storage, r) == dispatch_spec(old(state)@, old(users)@, old(storage)@, line@, dispatch_fresh(old(state)@, old(users)@, old(storage)@, line@, n), t));
            r
        },
    }
}

/// The outcome once saving the file it asked for failed: when the command
/// needed the file saved, the client gets an internal error and nothing else
/// happens; otherwise the outcome stands.
pub fn outcome_after_failed_save(outcome: CommandOutcome) -> (r: CommandOutcome)
    ensures
        (outcome.persist == Persist::Teams || outcome.persist == Persist::Messages) ==> r@
            == crate::server::session::response_only_view(
            response_spec(500, Some("\"internal server error\""@)),
        ),
        !(outcome.persist == Persist::Teams || outcome.persist == Persist::Messages) ==> r@
            == outcome@,
{
    match outcome.persist {
        Persist::Teams | Persist::Messages => CommandOutcome::response_only(
            response(500, Some("\"internal server error\"")),
        ),
        _ => outcome,
    }
}

} // verus!
