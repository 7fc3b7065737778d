//! Client session state and the errors of the client logic.
use vstd::prelude::*;

verus! {

/// An error of the client logic, with the kind and message that the shell
/// reports.
pub enum ClientError {
    /// Data received from the server is malformed.
    InvalidData(String),
    /// A command typed by the user is malformed.
    InvalidInput(String),
}

/// The content of a client error.
pub enum ClientErrorView {
    InvalidData(Seq<char>),
    InvalidInput(Seq<char>),
}

impl View for ClientError {
    type V = ClientErrorView;

    open spec fn view(&self) -> ClientErrorView {
        match self {
            ClientError::InvalidData(m) => ClientErrorView::InvalidData(m@),
            ClientError::InvalidInput(m) => ClientErrorView::InvalidInput(m@),
        }
    }
}

/// Commands that are waiting for a server response.
#[allow(inconsistent_fields)]
pub enum PendingRequest {
    Login { user_name: String },
    Logout,
    Users,
    User { user_uuid: String },
    Send { user_uuid: String, message_body: String },
    Messages { user_uuid: String },
    Subscribe { team_uuid: String },
    Subscribed { team_uuid: Option<String> },
    Unsubscribe { team_uuid: String },
    Use { team_uuid: Option<String>, channel_uuid: Option<String>, thread_uuid: Option<String> },
    CreateTeam,
    CreateChannel { team_uuid: String },
    CreateThread { team_uuid: String, channel_uuid: String },
    CreateReply { team_uuid: String, channel_uuid: String, thread_uuid: String },
    ListTeams,
    ListChannels { team_uuid: String },
    ListThreads { team_uuid: String, channel_uuid: String },
    ListReplies { team_uuid: String, channel_uuid: String, thread_uuid: String },
    InfoUser,
    InfoTeam { team_uuid: String },
    InfoChannel { team_uuid: String, channel_uuid: String },
    InfoThread { team_uuid: String, channel_uuid: String, thread_uuid: String },
}

/// The content of a pending request.
#[allow(inconsistent_fields)]
pub enum PendingView {
    Login { user_name: Seq<char> },
    Logout,
    Users,
    User { user_uuid: Seq<char> },
    Send { user_uuid: Seq<char>, message_body: Seq<char> },
    Messages { user_uuid: Seq<char> },
    Subscribe { team_uuid: Seq<char> },
    Subscribed { team_uuid: Option<Seq<char>> },
    Unsubscribe { team_uuid: Seq<char> },
    Use {
        team_uuid: Option<Seq<char>>,
        channel_uuid: Option<Seq<char>>,
        thread_uuid: Option<Seq<char>>,
    },
    CreateTeam,
    CreateChannel { team_uuid: Seq<char> },
    CreateThread { team_uuid: Seq<char>, channel_uuid: Seq<char> },
    CreateReply { team_uuid: Seq<char>, channel_uuid: Seq<char>, thread_uuid: Seq<char> },
    ListTeams,
    ListChannels { team_uuid: Seq<char> },
    ListThreads { team_uuid: Seq<char>, channel_uuid: Seq<char> },
    ListReplies { team_uuid: Seq<char>, channel_uuid: Seq<char>, thread_uuid: Seq<char> },
    InfoUser,
    InfoTeam { team_uuid: Seq<char> },
    InfoChannel { team_uuid: Seq<char>, channel_uuid: Seq<char> },
    InfoThread { team_uuid: Seq<char>, channel_uuid: Seq<char>, thread_uuid: Seq<char> },
}

/// The characters of an optional string.
pub open spec fn opt_chars(o: Option<String>) -> Option<Seq<char>> {
    match o {
        Some(s) => Some(s@),
        None => None,
    }
}

impl View for PendingRequest {
    type V = PendingView;

    open spec fn view(&self) -> PendingView {
        match self {
            PendingRequest::Login { user_name } => PendingView::Login { user_name: user_name@ },
            PendingRequest::Logout => PendingView::Logout,
            PendingRequest::Users => PendingView::Users,
            PendingRequest::User { user_uuid } => PendingView::User { user_uuid: user_uuid@ },
            PendingRequest::Send { user_uuid, message_body } => PendingView::Send {
                user_uuid: user_uuid@,
                message_body: message_body@,
            },
            PendingRequest::Messages { user_uuid } => PendingView::Messages {
                user_uuid: user_uuid@,
            },
            PendingRequest::Subscribe { team_uuid } => PendingView::Subscribe {
                team_uuid: team_uuid@,
            },
            PendingRequest::Subscribed { team_uuid } => PendingView::Subscribed {
                team_uuid: opt_chars(*team_uuid),
            },
            PendingRequest::Unsubscribe { team_uuid } => PendingView::Unsubscribe {
                team_uuid: team_uuid@,
            },
            PendingRequest::Use { team_uuid, channel_uuid, thread_uuid } => PendingView::Use {
                team_uuid: opt_chars(*team_uuid),
                channel_uuid: opt_chars(*channel_uuid),
                thread_uuid: opt_chars(*thread_uuid),
            },
            PendingRequest::CreateTeam => PendingView::CreateTeam,
            PendingRequest::CreateChannel { team_uuid } => PendingView::CreateChannel {
                team_uuid: team_uuid@,
            },
            PendingRequest::CreateThread { team_uuid, channel_uuid } => PendingView::CreateThread {
                team_uuid: team_uuid@,
                channel_uuid: channel_uuid@,
            },
            PendingRequest::CreateReply { team_uuid, channel_uuid, thread_uuid } =>
                PendingView::CreateReply {
                team_uuid: team_uuid@,
                channel_uuid: channel_uuid@,
                thread_uuid: thread_uuid@,
            },
            PendingRequest::ListTeams => PendingView::ListTeams,
            PendingRequest::ListChannels { team_uuid } => PendingView::ListChannels {
                team_uuid: team_uuid@,
            },
            PendingRequest::ListThreads { team_uuid, channel_uuid } => PendingView::ListThreads {
                team_uuid: team_uuid@,
                channel_uuid: channel_uuid@,
            },
            PendingRequest::ListReplies { team_uuid, channel_uuid, thread_uuid } =>
                PendingView::ListReplies {
                team_uuid: team_uuid@,
                channel_uuid: channel_uuid@,
                thread_uuid: thread_uuid@,
            },
            PendingRequest::InfoUser => PendingView::InfoUser,
            PendingRequest::InfoTeam { team_uuid } => PendingView::InfoTeam {
                team_uuid: team_uuid@,
            },
            PendingRequest::InfoChannel { team_uuid, channel_uuid } => PendingView::InfoChannel {
                team_uuid: team_uuid@,
                channel_uuid: channel_uuid@,
            },
            PendingRequest::InfoThread { team_uuid, channel_uuid, thread_uuid } =>
                PendingView::InfoThread {
                team_uuid: team_uuid@,
                channel_uuid: channel_uuid@,
                thread_uuid: thread_uuid@,
            },
        }
    }
}

/// The current command path selected by `USE`.
pub struct CommandContext {
    /// Active team UUID, if any.
    pub team_uuid: Option<String>,
    /// Active channel UUID, if any.
    pub channel_uuid: Option<String>,
    /// Active thread UUID, if any.
    pub thread_uuid: Option<String>,
}

/// Mutable client session state shared across command handlers.
pub struct SessionState {
    /// Logged-in user name, if known.
    pub user_name: Option<String>,
    /// Logged-in user UUID, if known.
    pub user_uuid: Option<String>,
    /// Selected team/channel/thread context.
    pub context: CommandContext,
    /// Request that is awaiting a response.
    pub pending_request: Option<PendingRequest>,
}

/// The content of a client session.
pub struct ClientView {
    pub user_name: Option<Seq<char>>,
    pub user_uuid: Option<Seq<char>>,
    pub team_uuid: Option<Seq<char>>,
    pub channel_uuid: Option<Seq<char>>,
    pub thread_uuid: Option<Seq<char>>,
    pub pending: Option<PendingView>,
}

impl View for SessionState {
    type V = ClientView;

    open spec fn view(&self) -> ClientView {
        ClientView {
            user_name: opt_chars(self.user_name),
            user_uuid: opt_chars(self.user_uuid),
            team_uuid: opt_chars(self.context.team_uuid),
            channel_uuid: opt_chars(self.context.channel_uuid),
            thread_uuid: opt_chars(self.context.thread_uuid),
            pending: match self.pending_request {
                Some(p) => Some(p@),
                None => None,
            },
        }
    }
}

impl Default for CommandContext {
    /// No selection.
    fn default() -> (r: CommandContext)
        ensures
            r.team_uuid is None,
            r.channel_uuid is None,
            r.thread_uuid is None,
    {
        CommandContext { team_uuid: None, channel_uuid: None, thread_uuid: None }
    }
}

impl Default for SessionState {
    /// Not logged in, no selection, nothing pending.
    fn default() -> (r: SessionState)
        ensures
            r@ == (ClientView {
                user_name: None,
                user_uuid: None,
                team_uuid: None,
                channel_uuid: None,
                thread_uuid: None,
                pending: None,
            }),
    {
        SessionState {
            user_name: None,
            user_uuid: None,
            context: CommandContext::default(),
            pending_request: None,
        }
    }
}

} // verus!
