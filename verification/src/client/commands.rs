//! Commands typed in the client shell: the command table, the tokenizer, and
//! what each command sends to the server and then waits for.
use vstd::prelude::*;

use crate::client::protocol::{
    build_create_channel_request, build_create_reply_request, build_create_team_request,
    build_create_thread_request, build_info_channel_request, build_info_team_request,
    build_info_thread_request, build_info_user_request, build_list_channels_request,
    build_list_replies_request, build_list_teams_request, build_list_threads_request,
    build_login_request, build_logout_request, build_messages_request, build_send_request,
    build_use_request, build_user_request, build_users_request, request_spec,
};
use crate::client::types::{
    opt_chars, ClientError, ClientErrorView, ClientView, PendingRequest, PendingView,
    SessionState,
};
use crate::server::storage::{first_match, is_first_match, lemma_first_match};
use crate::text::{
    chars_of, finish_tokens, is_white_space, is_whitespace, push_str, str_eq, string_of,
    tok_finish, tok_init, tok_run, tokenize_state,
};

verus! {

/// What a shell command does.
#[derive(PartialEq, Eq, Structural, Clone, Copy)]
pub enum ClientCommand {
    Help,
    Login,
    Logout,
    Users,
    User,
    Send,
    Messages,
    Subscribe,
    Subscribed,
    Unsubscribe,
    Use,
    Create,
    List,
    Info,
}

/// Metadata of a single client command.
pub struct CommandDefinition {
    /// Command name, as typed.
    pub name: String,
    /// Usage string shown in help output.
    pub usage: String,
    /// Short description of the command.
    pub description: String,
    /// What the command does.
    pub kind: ClientCommand,
}

impl View for CommandDefinition {
    type V = (Seq<char>, Seq<char>, Seq<char>, ClientCommand);

    open spec fn view(&self) -> (Seq<char>, Seq<char>, Seq<char>, ClientCommand) {
        (self.name@, self.usage@, self.description@, self.kind)
    }
}

/// The shell commands, sorted by name.
pub open spec fn client_registry_spec() -> Seq<(Seq<char>, Seq<char>, Seq<char>, ClientCommand)> {
    seq![
        ("/create"@, "/create"@, "based on context, create a sub resource"@, ClientCommand::Create),
        ("/help"@, "/help"@, "show help"@, ClientCommand::Help),
        ("/info"@, "/info"@, "based on context, display resource details"@, ClientCommand::Info),
        ("/list"@, "/list"@, "based on context, list sub resources"@, ClientCommand::List),
        ("/login"@, "/login [\"user_name\"]"@, "set the user_name used by client"@, ClientCommand::Login),
        ("/logout"@, "/logout"@, "disconnect the client from the server"@, ClientCommand::Logout),
        ("/messages"@, "/messages [\"user_uuid\"]"@, "list all messages exchanged with the specified user"@, ClientCommand::Messages),
        ("/send"@, "/send [\"user_uuid\"] [\"message_body\"]"@, "send a message to specific user"@, ClientCommand::Send),
        ("/subscribe"@, "/subscribe [\"team_uuid\"]"@, "subscribe to team events and sub resources"@, ClientCommand::Subscribe),
        ("/subscribed"@, "/subscribed ?[\"team_uuid\"]"@, "list all subscribed teams or users subscribed to a team"@, ClientCommand::Subscribed),
        ("/unsubscribe"@, "/unsubscribe [\"team_uuid\"]"@, "unsubscribe from a team"@, ClientCommand::Unsubscribe),
        ("/use"@, "/use ?[\"team_uuid\"] ?[\"channel_uuid\"] ?[\"thread_uuid\"]"@, "set current command context"@, ClientCommand::Use),
        ("/user"@, "/user [\"user_uuid\"]"@, "get details about the requested user"@, ClientCommand::User),
        ("/users"@, "/users"@, "get the list of all users that exist on the domain"@, ClientCommand::Users),
    ]
}

/// A command definition.
fn definition(name: &str, usage: &str, description: &str, kind: ClientCommand) -> (r:
    CommandDefinition)
    ensures
        r@ == (name@, usage@, description@, kind),
{
    CommandDefinition {
        name: name.to_owned(),
        usage: usage.to_owned(),
        description: description.to_owned(),
        kind,
    }
}

/// Build the client command registry, sorted by command name.
pub fn command_registry() -> (r: Vec<CommandDefinition>)
    ensures
        r@.map_values(|d: CommandDefinition| d@) == client_registry_spec(),
{
    let mut v: Vec<CommandDefinition> = Vec::new();
    v.push(definition("/create", "/create", "based on context, create a sub resource", ClientCommand::Create));
    v.push(definition("/help", "/help", "show help", ClientCommand::Help));
    v.push(definition("/info", "/info", "based on context, display resource details", ClientCommand::Info));
    v.push(definition("/list", "/list", "based on context, list sub resources", ClientCommand::List));
    v.push(definition("/login", "/login [\"user_name\"]", "set the user_name used by client", ClientCommand::Login));
    v.push(definition("/logout", "/logout", "disconnect the client from the server", ClientCommand::Logout));
    v.push(definition("/messages", "/messages [\"user_uuid\"]", "list all messages exchanged with the specified user", ClientCommand::Messages));
    v.push(definition("/send", "/send [\"user_uuid\"] [\"message_body\"]", "send a message to specific user", ClientCommand::Send));
    v.push(definition("/subscribe", "/subscribe [\"team_uuid\"]", "subscribe to team events and sub resources", ClientCommand::Subscribe));
    v.push(definition("/subscribed", "/subscribed ?[\"team_uuid\"]", "list all subscribed teams or users subscribed to a team", ClientCommand::Subscribed));
    v.push(definition("/unsubscribe", "/unsubscribe [\"team_uuid\"]", "unsubscribe from a team", ClientCommand::Unsubscribe));
    v.push(definition("/use", "/use ?[\"team_uuid\"] ?[\"channel_uuid\"] ?[\"thread_uuid\"]", "set current command context", ClientCommand::Use));
    v.push(definition("/user", "/user [\"user_uuid\"]", "get details about the requested user", ClientCommand::User));
    v.push(definition("/users", "/users", "get the list of all users that exist on the domain", ClientCommand::Users));
    assert(v@.map_values(|d: CommandDefinition| d@) =~= client_registry_spec());
    v
}

/// `s` padded with spaces on the right to 62 characters.
pub open spec fn pad62(s: Seq<char>) -> Seq<char> {
    if s.len() < 62 {
        s + Seq::new((62 - s.len()) as nat, |i: int| ' ')
    } else {
        s
    }
}

/// A help line: the usage padded to 62 characters, ` : `, the description.
pub open spec fn client_help_line(d: (Seq<char>, Seq<char>, Seq<char>, ClientCommand)) -> Seq<char> {
    pad62(d.1) + " : "@ + d.2
}

/// The lines `/help` prints, one per command, sorted by name.
pub fn help_lines() -> (r: Vec<String>)
    ensures
        r.deep_view() == client_registry_spec().map_values(
            |d: (Seq<char>, Seq<char>, Seq<char>, ClientCommand)| client_help_line(d),
        ),
{
    let defs = command_registry();
    let ghost dv = defs@.map_values(|d: CommandDefinition| d@);
    let mut out: Vec<String> = Vec::new();
    let mut i: usize = 0;
    while i < defs.len()
        invariant
            i <= defs@.len(),
            dv == defs@.map_values(|d: CommandDefinition| d@),
            out@.len() == i,
            forall|j: int| 0 <= j < i ==> (#[trigger] out@[j])@ == client_help_line(dv[j]),
        decreases defs@.len() - i,
    {
        let d = &defs[i];
        let mut line = chars_of(d.usage.as_str());
        let ghost usage = line@;
        while line.len() < 62
            invariant
                usage.len() <= line@.len() <= 62 || line@ == usage,
                line@.subrange(0, usage.len() as int) == usage,
                forall|k: int| usage.len() <= k < line@.len() ==> line@[k] == ' ',
            decreases 62 - line@.len(),
        {
            line.push(' ');
        }
        assert(line@ =~= pad62(usage));
        push_str(&mut line, " : ");
        push_str(&mut line, d.description.as_str());
        out.push(string_of(line.as_slice()));
        i = i + 1;
    }
    assert(out.deep_view() =~= client_registry_spec().map_values(
        |d: (Seq<char>, Seq<char>, Seq<char>, ClientCommand)| client_help_line(d),
    ));
    out
}

/// ASCII lower case of one character.
pub open spec fn ascii_lower_char(c: char) -> char {
    if 'A' <= c <= 'Z' {
        ((c as u32) + 32) as char
    } else {
        c
    }
}

/// ASCII lower case of a string.
pub open spec fn ascii_lower(s: Seq<char>) -> Seq<char> {
    s.map_values(|c: char| ascii_lower_char(c))
}

/// The string with `A`..`Z` turned into `a`..`z`.
pub fn to_ascii_lower(s: &str) -> (r: String)
    ensures
        r@ == ascii_lower(s@),
{
    let chars = chars_of(s);
    let mut out: Vec<char> = Vec::new();
    let mut i: usize = 0;
    while i < chars.len()
        invariant
            i <= chars@.len(),
            chars@ == s@,
            out@ == ascii_lower(chars@.subrange(0, i as int)),
        decreases chars@.len() - i,
    {
        let c = chars[i];
        let l = if 'A' <= c && c <= 'Z' {
            let b = (c as u32) + 32;
            proof {
                vstd::utf8::char_u32_cast(c, c as u32);
            }
            match char_of_ascii(b) {
                Some(x) => x,
                None => c,
            }
        } else {
            c
        };
        assert(l == ascii_lower_char(c));
        out.push(l);
        i = i + 1;
        assert(out@ =~= ascii_lower(chars@.subrange(0, i as int)));
    }
    assert(chars@.subrange(0, chars@.len() as int) =~= chars@);
    string_of(out.as_slice())
}

/// The character of an ASCII code.
fn char_of_ascii(b: u32) -> (r: Option<char>)
    ensures
        b < 128 ==> r == Some(b as char),
{
    if b < 128 {
        let x = b as u8;
        proof {
            vstd::utf8::char_u32_cast(x as char, x as u32);
        }
        Some(x as char)
    } else {
        None
    }
}

/// The kind of the shell command named `name`, whatever the case of its
/// letters.
pub open spec fn client_kind_of(name: Seq<char>) -> Option<ClientCommand> {
    match first_match(
        client_registry_spec().map_values(|d: (Seq<char>, Seq<char>, Seq<char>, ClientCommand)| d.0),
        ascii_lower(name),
    ) {
        Some(i) => Some(client_registry_spec()[i].3),
        None => None,
    }
}

/// Finds the shell command named `name`, whatever the case of its letters.
pub fn client_command_kind(name: &str) -> (r: Option<ClientCommand>)
    ensures
        r == client_kind_of(name@),
{
    let lower = to_ascii_lower(name);
    let key = lower.as_str();
    let defs = command_registry();
    let ghost keys = client_registry_spec().map_values(
        |d: (Seq<char>, Seq<char>, Seq<char>, ClientCommand)| d.0,
    );
    proof {
        lemma_first_match(keys, key@);
    }
    let mut i: usize = 0;
    while i < defs.len()
        invariant
            i <= defs@.len(),
            key@ == ascii_lower(name@),
            defs@.map_values(|d: CommandDefinition| d@) == client_registry_spec(),
            keys == client_registry_spec().map_values(
                |d: (Seq<char>, Seq<char>, Seq<char>, ClientCommand)| d.0,
            ),
            forall|j: int| 0 <= j < i ==> keys[j] != key@,
        decreases defs@.len() - i,
    {
        assert(defs@[i as int]@ == client_registry_spec()[i as int]);
        if str_eq(defs[i].name.as_str(), key) {
            assert(is_first_match(keys, key@, i as int));
            proof {
                lemma_first_match(keys, key@);
            }
            return Some(defs[i].kind);
        }
        i = i + 1;
    }
    None
}

/// The tokens of a typed command: whitespace separates words, double quotes
/// group them and are dropped; an open quote is closed by the end of the
/// line.
pub open spec fn command_tokens(line: Seq<char>) -> Seq<Seq<char>> {
    tok_finish(tok_run(tok_init(), line, false))
}

/// Splits a typed command into words.
pub fn tokenize_command(line: &str) -> (r: Vec<String>)
    ensures
        r.deep_view() == command_tokens(line@),
{
    let chars = chars_of(line);
    let (tokens, current, _in_quotes, _escaped) = tokenize_state(chars.as_slice(), false);
    let ghost st = tok_run(tok_init(), line@, false);
    assert(tok_finish((tokens.deep_view(), current@, false, false)) == tok_finish(st));
    finish_tokens(tokens, current.as_slice())
}

/// Where a reader of a typed command stands: in the command's name, between
/// words, inside a quoted argument, just after its closing quote, or past a
/// word that is not wrapped in quotes.
#[derive(PartialEq, Eq, Structural, Clone, Copy)]
pub enum QuoteState {
    Name,
    Between,
    Quoted,
    Closed,
    Bad,
}

/// The state after one more character.
pub open spec fn quote_step(st: QuoteState, ch: char) -> QuoteState {
    match st {
        QuoteState::Name => if ch == '"' {
            QuoteState::Bad
        } else if is_white_space(ch) {
            QuoteState::Between
        } else {
            QuoteState::Name
        },
        QuoteState::Between => if ch == '"' {
            QuoteState::Quoted
        } else if is_white_space(ch) {
            QuoteState::Between
        } else {
            QuoteState::Bad
        },
        QuoteState::Quoted => if ch == '"' {
            QuoteState::Closed
        } else {
            QuoteState::Quoted
        },
        QuoteState::Closed => if is_white_space(ch) {
            QuoteState::Between
        } else {
            QuoteState::Bad
        },
        QuoteState::Bad => QuoteState::Bad,
    }
}

/// The state after reading all of `s` from the start of a line.
pub open spec fn quote_run(s: Seq<char>) -> QuoteState
    decreases s.len(),
{
    if s.len() == 0 {
        QuoteState::Name
    } else {
        quote_step(quote_run(s.drop_last()), s.last())
    }
}

/// Every argument of the typed command is wrapped in a pair of double quotes:
/// no word after the name goes without them and no quote is left open.
pub open spec fn quotes_ok(line: Seq<char>) -> bool {
    let st = quote_run(line);
    st != QuoteState::Bad && st != QuoteState::Quoted
}

/// The error for an argument that is not wrapped in quotes, or a quote left
/// open.
pub open spec fn missing_quote_error() -> ClientErrorView {
    ClientErrorView::InvalidInput("missing quote"@)
}

/// Checks that every argument of a typed command is wrapped in quotes.
pub fn check_quotes(line: &str) -> (r: bool)
    ensures
        r == quotes_ok(line@),
{
    let chars = chars_of(line);
    let mut st = QuoteState::Name;
    let mut i: usize = 0;
    while i < chars.len()
        invariant
            i <= chars@.len(),
            chars@ == line@,
            st == quote_run(chars@.subrange(0, i as int)),
        decreases chars@.len() - i,
    {
        let ch = chars[i];
        let ws = is_whitespace(ch);
        st = match st {
            QuoteState::Name => if ch == '"' {
                QuoteState::Bad
            } else if ws {
                QuoteState::Between
            } else {
                QuoteState::Name
            },
            QuoteState::Between => if ch == '"' {
                QuoteState::Quoted
            } else if ws {
                QuoteState::Between
            } else {
                QuoteState::Bad
            },
            QuoteState::Quoted => if ch == '"' {
                QuoteState::Closed
            } else {
                QuoteState::Quoted
            },
            QuoteState::Closed => if ws {
                QuoteState::Between
            } else {
                QuoteState::Bad
            },
            QuoteState::Bad => QuoteState::Bad,
        };
        assert(chars@.subrange(0, i + 1).drop_last() =~= chars@.subrange(0, i as int));
        i = i + 1;
    }
    assert(chars@.subrange(0, chars@.len() as int) =~= chars@);
    match st {
        QuoteState::Bad => false,
        QuoteState::Quoted => false,
        _ => true,
    }
}

/// The error for a wrong number of arguments to `command`.
pub open spec fn arg_count_error(command: Seq<char>) -> ClientErrorView {
    ClientErrorView::InvalidInput("invalid argument count for "@ + command)
}

/// The error for a selection that is not a path from a team down.
pub open spec fn context_error() -> ClientErrorView {
    ClientErrorView::InvalidInput("invalid command context"@)
}

/// Checks that the number of arguments is between `min` and `max`.
pub fn check_arg_count(command: &str, args: &[String], min: usize, max: usize) -> (r: Result<
    (),
    ClientError,
>)
    ensures
        r is Ok <==> min <= args@.len() <= max,
        r matches Err(e) ==> e@ == arg_count_error(command@),
{
    if args.len() < min || args.len() > max {
        let mut m = chars_of("invalid argument count for ");
        push_str(&mut m, command);
        return Err(ClientError::InvalidInput(string_of(m.as_slice())));
    }
    Ok(())
}

/// The selection of the client: root, a team, a channel or a thread.
pub enum ContextLevel {
    Root,
    Team { team_uuid: String },
    Channel { team_uuid: String, channel_uuid: String },
    Thread { team_uuid: String, channel_uuid: String, thread_uuid: String },
}

/// The content of a selection; `Malformed` when a channel or thread is set
/// without its parents.
pub enum LevelView {
    Root,
    Team(Seq<char>),
    Channel(Seq<char>, Seq<char>),
    Thread(Seq<char>, Seq<char>, Seq<char>),
    Malformed,
}

/// The selection of a client session.
pub open spec fn level_of(c: ClientView) -> LevelView {
    match (c.team_uuid, c.channel_uuid, c.thread_uuid) {
        (None, None, None) => LevelView::Root,
        (Some(t), None, None) => LevelView::Team(t),
        (Some(t), Some(ch), None) => LevelView::Channel(t, ch),
        (Some(t), Some(ch), Some(th)) => LevelView::Thread(t, ch, th),
        _ => LevelView::Malformed,
    }
}

impl View for ContextLevel {
    type V = LevelView;

    open spec fn view(&self) -> LevelView {
        match self {
            ContextLevel::Root => LevelView::Root,
            ContextLevel::Team { team_uuid } => LevelView::Team(team_uuid@),
            ContextLevel::Channel { team_uuid, channel_uuid } => LevelView::Channel(
                team_uuid@,
                channel_uuid@,
            ),
            ContextLevel::Thread { team_uuid, channel_uuid, thread_uuid } => LevelView::Thread(
                team_uuid@,
                channel_uuid@,
                thread_uuid@,
            ),
        }
    }
}

/// The selection of the session.
pub fn current_context(state: &SessionState) -> (r: Result<ContextLevel, ClientError>)
    ensures
        match r {
            Ok(l) => level_of(state@) == l@,
            Err(e) => level_of(state@) == LevelView::Malformed && e@ == context_error(),
        },
{
    match (&state.context.team_uuid, &state.context.channel_uuid, &state.context.thread_uuid) {
        (None, None, None) => Ok(ContextLevel::Root),
        (Some(t), None, None) => Ok(ContextLevel::Team { team_uuid: t.clone() }),
        (Some(t), Some(c), None) => Ok(
            ContextLevel::Channel { team_uuid: t.clone(), channel_uuid: c.clone() },
        ),
        (Some(t), Some(c), Some(th)) => Ok(
            ContextLevel::Thread {
                team_uuid: t.clone(),
                channel_uuid: c.clone(),
                thread_uuid: th.clone(),
            },
        ),
        _ => Err(ClientError::InvalidInput("invalid command context".to_owned())),
    }
}

/// What a typed line leads to.
pub enum LinePlan {
    /// Not a shell command: the line is sent to the server as typed.
    NotCommand,
    /// A blank shell command: nothing happens.
    Empty,
    /// `/help`: these lines are printed.
    Help(Vec<String>),
    /// An unknown command, by name.
    Unknown(String),
    /// This request line is sent; the request then waits for its answer.
    Request { line: String, pending: PendingRequest },
    /// A valid command that sends nothing.
    Accepted,
    /// The command is refused with this error.
    Failed(ClientError),
}

/// The content of a line plan.
pub enum PlanView {
    NotCommand,
    Empty,
    Help(Seq<Seq<char>>),
    Unknown(Seq<char>),
    Request(Seq<char>, PendingView),
    Accepted,
    Failed(ClientErrorView),
}

impl View for LinePlan {
    type V = PlanView;

    open spec fn view(&self) -> PlanView {
        match self {
            LinePlan::NotCommand => PlanView::NotCommand,
            LinePlan::Empty => PlanView::Empty,
            LinePlan::Help(l) => PlanView::Help(l.deep_view()),
            LinePlan::Unknown(n) => PlanView::Unknown(n@),
            LinePlan::Request { line, pending } => PlanView::Request(line@, pending@),
            LinePlan::Accepted => PlanView::Accepted,
            LinePlan::Failed(e) => PlanView::Failed(e@),
        }
    }
}

/// The argument at `i`, if any.
pub open spec fn nth_arg(args: Seq<Seq<char>>, i: int) -> Option<Seq<char>> {
    if 0 <= i < args.len() {
        Some(args[i])
    } else {
        None
    }
}

/// A request plan that needs `min..=max` arguments.
pub open spec fn counted(
    command: Seq<char>,
    args: Seq<Seq<char>>,
    min: nat,
    max: nat,
    ok: PlanView,
) -> PlanView {
    if min <= args.len() <= max {
        ok
    } else {
        PlanView::Failed(arg_count_error(command))
    }
}

/// What shell command `k` with arguments `args` does in session `c`.
pub open spec fn command_plan(k: ClientCommand, c: ClientView, args: Seq<Seq<char>>) -> PlanView {
    match k {
        ClientCommand::Help => counted(
            "/help"@,
            args,
            0,
            0,
            PlanView::Help(
                client_registry_spec().map_values(
                    |d: (Seq<char>, Seq<char>, Seq<char>, ClientCommand)| client_help_line(d),
                ),
            ),
        ),
        ClientCommand::Login => counted(
            "/login"@,
            args,
            1,
            1,
            PlanView::Request(
                request_spec("LOGIN"@, seq![args[0]]),
                PendingView::Login { user_name: args[0] },
            ),
        ),
        ClientCommand::Logout => counted(
            "/logout"@,
            args,
            0,
            0,
            PlanView::Request(request_spec("LOGOUT"@, seq![]), PendingView::Logout),
        ),
        ClientCommand::Users => counted(
            "/users"@,
            args,
            0,
            0,
            PlanView::Request(request_spec("USERS"@, seq![]), PendingView::Users),
        ),
        ClientCommand::User => counted(
            "/user"@,
            args,
            1,
            1,
            PlanView::Request(
                request_spec("USER"@, seq![args[0]]),
                PendingView::User { user_uuid: args[0] },
            ),
        ),
        ClientCommand::Send => counted(
            "/send"@,
            args,
            2,
            2,
            PlanView::Request(
                request_spec("SEND"@, seq![args[0], args[1]]),
                PendingView::Send { user_uuid: args[0], message_body: args[1] },
            ),
        ),
        ClientCommand::Messages => counted(
            "/messages"@,
            args,
            1,
            1,
            PlanView::Request(
                request_spec("MESSAGES"@, seq![args[0]]),
                PendingView::Messages { user_uuid: args[0] },
            ),
        ),
        ClientCommand::Subscribe => counted("/subscribe"@, args, 1, 1, PlanView::Accepted),
        ClientCommand::Subscribed => counted("/subscribed"@, args, 0, 1, PlanView::Accepted),
        ClientCommand::Unsubscribe => counted("/unsubscribe"@, args, 1, 1, PlanView::Accepted),
        ClientCommand::Use => counted(
            "/use"@,
            args,
            0,
            3,
            PlanView::Request(
                request_spec("USE"@, args),
                PendingView::Use {
                    team_uuid: nth_arg(args, 0),
                    channel_uuid: nth_arg(args, 1),
                    thread_uuid: nth_arg(args, 2),
                },
            ),
        ),
        ClientCommand::Create => match level_of(c) {
            LevelView::Malformed => PlanView::Failed(context_error()),
            LevelView::Root => counted(
                "/create"@,
                args,
                2,
                2,
                PlanView::Request(
                    request_spec("CREATE_TEAM"@, seq![args[0], args[1]]),
                    PendingView::CreateTeam,
                ),
            ),
            LevelView::Team(t) => counted(
                "/create"@,
                args,
                2,
                2,
                PlanView::Request(
                    request_spec("CREATE_CHAN"@, seq![args[0], args[1]]),
                    PendingView::CreateChannel { team_uuid: t },
                ),
            ),
            LevelView::Channel(t, ch) => counted(
                "/create"@,
                args,
                2,
                2,
                PlanView::Request(
                    request_spec("CREATE_THREAD"@, seq![args[0], args[1]]),
                    PendingView::CreateThread { team_uuid: t, channel_uuid: ch },
                ),
            ),
            LevelView::Thread(t, ch, th) => counted(
                "/create"@,
                args,
                1,
                1,
                PlanView::Request(
                    request_spec("CREATE_REP"@, seq![args[0]]),
                    PendingView::CreateReply { team_uuid: t, channel_uuid: ch, thread_uuid: th },
                ),
            ),
        },
        ClientCommand::List => if args.len() != 0 {
            PlanView::Failed(arg_count_error("/list"@))
        } else {
            match level_of(c) {
                LevelView::Malformed => PlanView::Failed(context_error()),
                LevelView::Root => PlanView::Request(
                    request_spec("LIST_TEAMS"@, seq![]),
                    PendingView::ListTeams,
                ),
                LevelView::Team(t) => PlanView::Request(
                    request_spec("LIST_CHANS"@, seq![]),
                    PendingView::ListChannels { team_uuid: t },
                ),
                LevelView::Channel(t, ch) => PlanView::Request(
                    request_spec("LIST_THREADS"@, seq![]),
                    PendingView::ListThreads { team_uuid: t, channel_uuid: ch },
                ),
                LevelView::Thread(t, ch, th) => PlanView::Request(
                    request_spec("LIST_REPS"@, seq![]),
                    PendingView::ListReplies { team_uuid: t, channel_uuid: ch, thread_uuid: th },
                ),
            }
        },
        ClientCommand::Info => if args.len() != 0 {
            PlanView::Failed(arg_count_error("/info"@))
        } else {
            match level_of(c) {
                LevelView::Malformed => PlanView::Failed(context_error()),
                LevelView::Root => PlanView::Request(
                    request_spec("INFO_USER"@, seq![]),
                    PendingView::InfoUser,
                ),
                LevelView::Team(t) => PlanView::Request(
                    request_spec("INFO_TEAM"@, seq![]),
                    PendingView::InfoTeam { team_uuid: t },
                ),
                LevelView::Channel(t, ch) => PlanView::Request(
                    request_spec("INFO_CHAN"@, seq![]),
                    PendingView::InfoChannel { team_uuid: t, channel_uuid: ch },
                ),
                LevelView::Thread(t, ch, th) => PlanView::Request(
                    request_spec("INFO_THREAD"@, seq![]),
                    PendingView::InfoThread { team_uuid: t, channel_uuid: ch, thread_uuid: th },
                ),
            }
        },
    }
}

/// What a typed line does in session `c`: a line not starting with `/` goes
/// to the server as typed; otherwise its first word names a shell command.
pub open spec fn plan_spec(c: ClientView, line: Seq<char>) -> PlanView {
    if line.len() == 0 || line[0] != '/' {
        PlanView::NotCommand
    } else if command_tokens(line).len() == 0 {
        PlanView::Empty
    } else {
        let tokens = command_tokens(line);
        match client_kind_of(tokens[0]) {
            None => PlanView::Unknown(tokens[0]),
            Some(k) => if !quotes_ok(line) {
                PlanView::Failed(missing_quote_error())
            } else {
                command_plan(k, c, tokens.drop_first())
            },
        }
    }
}

/// A request plan.
fn request(line: String, pending: PendingRequest) -> (r: LinePlan)
    ensures
        r@ == PlanView::Request(line@, pending@),
{
    LinePlan::Request { line, pending }
}

/// A copy of the argument at `i`, if any.
fn arg_copy(args: &[String], i: usize) -> (r: Option<String>)
    ensures
        opt_chars(r) == nth_arg(args.deep_view(), i as int),
{
    if i < args.len() {
        Some(args[i].clone())
    } else {
        None
    }
}

/// What shell command `kind` does with arguments `args`.
fn plan_command(kind: ClientCommand, state: &SessionState, args: &[String]) -> (r: LinePlan)
    ensures
        r@ == command_plan(kind, state@, args.deep_view()),
{
    match kind {
        ClientCommand::Help => match check_arg_count("/help", args, 0, 0) {
            Err(e) => LinePlan::Failed(e),
            Ok(()) => LinePlan::Help(help_lines()),
        },
        ClientCommand::Login => match check_arg_count("/login", args, 1, 1) {
            Err(e) => LinePlan::Failed(e),
            Ok(()) => request(
                build_login_request(args[0].as_str()),
                PendingRequest::Login { user_name: args[0].clone() },
            ),
        },
        ClientCommand::Logout => match check_arg_count("/logout", args, 0, 0) {
            Err(e) => LinePlan::Failed(e),
            Ok(()) => request(build_logout_request(), PendingRequest::Logout),
        },
        ClientCommand::Users => match check_arg_count("/users", args, 0, 0) {
            Err(e) => LinePlan::Failed(e),
            Ok(()) => request(build_users_request(), PendingRequest::Users),
        },
        ClientCommand::User => match check_arg_count("/user", args, 1, 1) {
            Err(e) => LinePlan::Failed(e),
            Ok(()) => request(
                build_user_request(args[0].as_str()),
                PendingRequest::User { user_uuid: args[0].clone() },
            ),
        },
        ClientCommand::Send => match check_arg_count("/send", args, 2, 2) {
            Err(e) => LinePlan::Failed(e),
            Ok(()) => request(
                build_send_request(args[0].as_str(), args[1].as_str()),
                PendingRequest::Send { user_uuid: args[0].clone(), message_body: args[1].clone() },
            ),
        },
        ClientCommand::Messages => match check_arg_count("/messages", args, 1, 1) {
            Err(e) => LinePlan::Failed(e),
            Ok(()) => request(
                build_messages_request(args[0].as_str()),
                PendingRequest::Messages { user_uuid: args[0].clone() },
            ),
        },
        ClientCommand::Subscribe => match check_arg_count("/subscribe", args, 1, 1) {
            Err(e) => LinePlan::Failed(e),
            Ok(()) => LinePlan::Accepted,
        },
        ClientCommand::Subscribed => match check_arg_count("/subscribed", args, 0, 1) {
            Err(e) => LinePlan::Failed(e),
            Ok(()) => LinePlan::Accepted,
        },
        ClientCommand::Unsubscribe => match check_arg_count("/unsubscribe", args, 1, 1) {
            Err(e) => LinePlan::Failed(e),
            Ok(()) => LinePlan::Accepted,
        },
        ClientCommand::Use => match check_arg_count("/use", args, 0, 3) {
            Err(e) => LinePlan::Failed(e),
            Ok(()) => request(
                build_use_request(args),
                PendingRequest::Use {
                    team_uuid: arg_copy(args, 0),
                    channel_uuid: arg_copy(args, 1),
                    thread_uuid: arg_copy(args, 2),
                },
            ),
        },
        ClientCommand::Create => match current_context(state) {
            Err(e) => LinePlan::Failed(e),
            Ok(ContextLevel::Root) => match check_arg_count("/create", args, 2, 2) {
                Err(e) => LinePlan::Failed(e),
                Ok(()) => request(
                    build_create_team_request(args[0].as_str(), args[1].as_str()),
                    PendingRequest::CreateTeam,
                ),
            },
            Ok(ContextLevel::Team { team_uuid }) => match check_arg_count("/create", args, 2, 2) {
                Err(e) => LinePlan::Failed(e),
                Ok(()) => request(
                    build_create_channel_request(args[0].as_str(), args[1].as_str()),
                    PendingRequest::CreateChannel { team_uuid },
                ),
            },
            Ok(ContextLevel::Channel { team_uuid, channel_uuid }) => match check_arg_count(
                "/create",
                args,
                2,
                2,
            ) {
                Err(e) => LinePlan::Failed(e),
                Ok(()) => request(
                    build_create_thread_request(args[0].as_str(), args[1].as_str()),
                    PendingRequest::CreateThread { team_uuid, channel_uuid },
                ),
            },
            Ok(ContextLevel::Thread { team_uuid, channel_uuid, thread_uuid }) => match check_arg_count(
                "/create",
                args,
                1,
                1,
            ) {
                Err(e) => LinePlan::Failed(e),
                Ok(()) => request(
                    build_create_reply_request(args[0].as_str()),
                    PendingRequest::CreateReply { team_uuid, channel_uuid, thread_uuid },
                ),
            },
        },
        ClientCommand::List => match check_arg_count("/list", args, 0, 0) {
            Err(e) => LinePlan::Failed(e),
            Ok(()) => match current_context(state) {
                Err(e) => LinePlan::Failed(e),
                Ok(ContextLevel::Root) => request(build_list_teams_request(), PendingRequest::ListTeams),
                Ok(ContextLevel::Team { team_uuid }) => request(
                    build_list_channels_request(),
                    PendingRequest::ListChannels { team_uuid },
                ),
                Ok(ContextLevel::Channel { team_uuid, channel_uuid }) => request(
                    build_list_threads_request(),
                    PendingRequest::ListThreads { team_uuid, channel_uuid },
                ),
                Ok(ContextLevel::Thread { team_uuid, channel_uuid, thread_uuid }) => request(
                    build_list_replies_request(),
                    PendingRequest::ListReplies { team_uuid, channel_uuid, thread_uuid },
                ),
            },
        },
        ClientCommand::Info => match check_arg_count("/info", args, 0, 0) {
            Err(e) => LinePlan::Failed(e),
            Ok(()) => match current_context(state) {
                Err(e) => LinePlan::Failed(e),
                Ok(ContextLevel::Root) => request(build_info_user_request(), PendingRequest::InfoUser),
                Ok(ContextLevel::Team { team_uuid }) => request(
                    build_info_team_request(),
                    PendingRequest::InfoTeam { team_uuid },
                ),
                Ok(ContextLevel::Channel { team_uuid, channel_uuid }) => request(
                    build_info_channel_request(),
                    PendingRequest::InfoChannel { team_uuid, channel_uuid },
                ),
                Ok(ContextLevel::Thread { team_uuid, channel_uuid, thread_uuid }) => request(
                    build_info_thread_request(),
                    PendingRequest::InfoThread { team_uuid, channel_uuid, thread_uuid },
                ),
            },
        },
    }
}

/// Parse one typed line and decide what it does: what to send and what then
/// waits for an answer, what to print, or why it is refused.
pub fn dispatch_line(state: &SessionState, line: &str) -> (r: LinePlan)
    ensures
        r@ == plan_spec(state@, line@),
{
    let chars = chars_of(line);
    if chars.len() == 0 || chars[0] != '/' {
        return LinePlan::NotCommand;
    }
    let tokens = tokenize_command(line);
    if tokens.len() == 0 {
        return LinePlan::Empty;
    }
    let ghost tv = tokens.deep_view();
    match client_command_kind(tokens[0].as_str()) {
        None => LinePlan::Unknown(tokens[0].clone()),
        Some(kind) => {
            if !check_quotes(line) {
                return LinePlan::Failed(ClientError::InvalidInput("missing quote".to_string()));
            }
            let args = crate::text::sub_strings(&tokens, 1);
            assert(args.deep_view() =~= tv.drop_first());
            plan_command(kind, state, args.as_slice())
        },
    }
}

} // verus!
