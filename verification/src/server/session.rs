//! Per-client session state and what a command hands back to the server
//! loop: the response, the info events for other clients, the events for the
//! server log, and which file to save.
use vstd::prelude::*;

verus! {

/// Team/channel/thread selection maintained for a session.
pub struct CommandContext {
    /// Active team UUID, if any.
    pub team_uuid: Option<String>,
    /// Active channel UUID, if any.
    pub channel_uuid: Option<String>,
    /// Active thread UUID, if any.
    pub thread_uuid: Option<String>,
}

/// Mutable server-side session state for a connected client.
pub struct SessionState {
    /// Logged-in user UUID, if any.
    pub user_uuid: Option<String>,
    /// Selected team/channel/thread context.
    pub context: CommandContext,
}

/// Asynchronous info message to deliver to a connected client.
pub struct InfoEvent {
    /// Target user UUID.
    pub recipient_user_uuid: String,
    /// Wire payload to send.
    pub payload: String,
}

/// The kinds of server events reported to the server log.
#[derive(PartialEq, Eq, Structural, Clone, Copy)]
pub enum EventKind {
    /// A team was created: team UUID, team name, creator UUID.
    TeamCreated,
    /// A channel was created: team UUID, channel UUID, channel name.
    ChannelCreated,
    /// A thread was created: channel UUID, thread UUID, author UUID, title, body.
    ThreadCreated,
    /// A reply was created: thread UUID, author UUID, body.
    ReplyCreated,
    /// A user subscribed: team UUID, user UUID.
    UserSubscribed,
    /// A user unsubscribed: team UUID, user UUID.
    UserUnsubscribed,
    /// A user was created: user UUID, user name.
    UserCreated,
    /// A user logged in: user UUID.
    UserLoggedIn,
    /// A user logged out: user UUID.
    UserLoggedOut,
    /// A private message was sent: sender UUID, recipient UUID, body.
    PrivateMessageSended,
}

/// A server event with its arguments, in the order the log takes them.
pub struct ServerEvent {
    pub kind: EventKind,
    pub args: Vec<String>,
}

/// Which file a command asks to be saved.
#[derive(PartialEq, Eq, Structural, Clone, Copy)]
pub enum Persist {
    /// Nothing changed on disk.
    Nothing,
    /// The users file; a failure is only reported.
    Users,
    /// The teams file; a failure turns the answer into an internal error.
    Teams,
    /// The messages file; a failure turns the answer into an internal error.
    Messages,
}

/// Outcome produced by a server command handler.
pub struct CommandOutcome {
    /// Response line sent back to the client.
    pub response: String,
    /// Deferred info events that should be broadcast afterward.
    pub info_events: Vec<InfoEvent>,
    /// Events for the server log, in order.
    pub events: Vec<ServerEvent>,
    /// The file to save before answering.
    pub persist: Persist,
}

/// The content of a session.
pub struct SessionView {
    pub user_uuid: Option<Seq<char>>,
    pub team_uuid: Option<Seq<char>>,
    pub channel_uuid: Option<Seq<char>>,
    pub thread_uuid: Option<Seq<char>>,
}

/// The content of an outcome.
pub struct OutcomeView {
    pub response: Seq<char>,
    /// `(recipient, payload)` pairs.
    pub info_events: Seq<(Seq<char>, Seq<char>)>,
    pub events: Seq<(EventKind, Seq<Seq<char>>)>,
    pub persist: Persist,
}

/// The characters of an optional string.
pub open spec fn opt_view(o: Option<String>) -> Option<Seq<char>> {
    match o {
        Some(s) => Some(s@),
        None => None,
    }
}

/// The characters of each string.
pub open spec fn strings_view(v: Seq<String>) -> Seq<Seq<char>> {
    v.map_values(|s: String| s@)
}

impl View for SessionState {
    type V = SessionView;

    open spec fn view(&self) -> SessionView {
        SessionView {
            user_uuid: opt_view(self.user_uuid),
            team_uuid: opt_view(self.context.team_uuid),
            channel_uuid: opt_view(self.context.channel_uuid),
            thread_uuid: opt_view(self.context.thread_uuid),
        }
    }
}

impl View for InfoEvent {
    type V = (Seq<char>, Seq<char>);

    open spec fn view(&self) -> (Seq<char>, Seq<char>) {
        (self.recipient_user_uuid@, self.payload@)
    }
}

impl View for ServerEvent {
    type V = (EventKind, Seq<Seq<char>>);

    open spec fn view(&self) -> (EventKind, Seq<Seq<char>>) {
        (self.kind, strings_view(self.args@))
    }
}

impl View for CommandOutcome {
    type V = OutcomeView;

    open spec fn view(&self) -> OutcomeView {
        OutcomeView {
            response: self.response@,
            info_events: self.info_events@.map_values(|e: InfoEvent| e@),
            events: self.events@.map_values(|e: ServerEvent| e@),
            persist: self.persist,
        }
    }
}

/// An outcome with only a response.
pub open spec fn response_only_view(response: Seq<char>) -> OutcomeView {
    OutcomeView {
        response,
        info_events: Seq::empty(),
        events: Seq::empty(),
        persist: Persist::Nothing,
    }
}

impl CommandOutcome {
    /// Create an outcome with only a direct response.
    pub fn response_only(response: String) -> (r: CommandOutcome)
        ensures
            r@ == response_only_view(response@),
    {
        let r = CommandOutcome {
            response,
            info_events: Vec::new(),
            events: Vec::new(),
            persist: Persist::Nothing,
        };
        assert(r@.info_events =~= Seq::<(Seq<char>, Seq<char>)>::empty());
        assert(r@.events =~= Seq::<(EventKind, Seq<Seq<char>>)>::empty());
        r
    }
}

impl Default for CommandContext {
    /// No team, channel or thread selected.
    fn default() -> (r: CommandContext)
        ensures
            r.team_uuid is None,
            r.channel_uuid is None,
            r.thread_uuid is None,
    {
        CommandContext { team_uuid: None, channel_uuid: None, thread_uuid: None }
    }
}

impl Default for SessionState {
    /// Nobody logged in and no context.
    fn default() -> (r: SessionState)
        ensures
            r@ == (SessionView {
                user_uuid: None,
                team_uuid: None,
                channel_uuid: None,
                thread_uuid: None,
            }),
    {
        SessionState { user_uuid: None, context: CommandContext::default() }
    }
}

/// A server event with the given arguments.
pub fn server_event(kind: EventKind, args: Vec<String>) -> (r: ServerEvent)
    ensures
        r@ == (kind, strings_view(args@)),
{
    ServerEvent { kind, args }
}

/// An event with one argument.
pub fn event1(kind: EventKind, a: String) -> (r: ServerEvent)
    ensures
        r@ == (kind, seq![a@]),
{
    let args = vec![a];
    assert(strings_view(args@) =~= seq![args@[0]@]);
    ServerEvent { kind, args }
}

/// An event with two arguments.
pub fn event2(kind: EventKind, a: String, b: String) -> (r: ServerEvent)
    ensures
        r@ == (kind, seq![a@, b@]),
{
    let args = vec![a, b];
    assert(strings_view(args@) =~= seq![args@[0]@, args@[1]@]);
    ServerEvent { kind, args }
}

/// An event with three arguments.
pub fn event3(kind: EventKind, a: String, b: String, c: String) -> (r: ServerEvent)
    ensures
        r@ == (kind, seq![a@, b@, c@]),
{
    let args = vec![a, b, c];
    assert(strings_view(args@) =~= seq![args@[0]@, args@[1]@, args@[2]@]);
    ServerEvent { kind, args }
}

/// An event with five arguments.
pub fn event5(kind: EventKind, a: String, b: String, c: String, d: String, e: String) -> (r:
    ServerEvent)
    ensures
        r@ == (kind, seq![a@, b@, c@, d@, e@]),
{
    let args = vec![a, b, c, d, e];
    assert(strings_view(args@) =~= seq![
        args@[0]@,
        args@[1]@,
        args@[2]@,
        args@[3]@,
        args@[4]@,
    ]);
    ServerEvent { kind, args }
}

/// Appends three words.
pub fn push_words3(words: &mut Vec<String>, a: String, b: String, c: String)
    ensures
        strings_view(final(words)@) == strings_view(old(words)@) + seq![a@, b@, c@],
{
    words.push(a);
    words.push(b);
    words.push(c);
    assert(strings_view(words@) =~= strings_view(old(words)@) + seq![a@, b@, c@]);
}

/// Appends five words.
pub fn push_words5(words: &mut Vec<String>, a: String, b: String, c: String, d: String, e: String)
    ensures
        strings_view(final(words)@) == strings_view(old(words)@) + seq![a@, b@, c@, d@, e@],
{
    words.push(a);
    words.push(b);
    words.push(c);
    words.push(d);
    words.push(e);
    assert(strings_view(words@) =~= strings_view(old(words)@) + seq![a@, b@, c@, d@, e@]);
}

/// An outcome with a response, info events, log events and a file to save.
pub fn outcome(
    response: String,
    info_events: Vec<InfoEvent>,
    events: Vec<ServerEvent>,
    persist: Persist,
) -> (r: CommandOutcome)
    ensures
        r@ == (OutcomeView {
            response: response@,
            info_events: info_events@.map_values(|e: InfoEvent| e@),
            events: events@.map_values(|e: ServerEvent| e@),
            persist,
        }),
{
    CommandOutcome { response, info_events, events, persist }
}

/// A vector holding one event.
pub fn one_event(e: ServerEvent) -> (r: Vec<ServerEvent>)
    ensures
        r@.map_values(|x: ServerEvent| x@) == seq![e@],
{
    let v = vec![e];
    assert(v@.map_values(|x: ServerEvent| x@) =~= seq![v@[0]@]);
    v
}

/// A vector holding one info event.
pub fn one_info(recipient_user_uuid: String, payload: String) -> (r: Vec<InfoEvent>)
    ensures
        r@.map_values(|x: InfoEvent| x@) == seq![(recipient_user_uuid@, payload@)],
{
    let v = vec![InfoEvent { recipient_user_uuid, payload }];
    assert(v@.map_values(|x: InfoEvent| x@) =~= seq![v@[0]@]);
    v
}

} // verus!
