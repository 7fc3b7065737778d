//! Helpers shared by the server command handlers: the answers every handler
//! may give, argument checks, the resource selected by the session, and the
//! formatting of resources in answers.
use vstd::prelude::*;

use crate::server::protocol::{quoted, response, response_spec};
use crate::server::session::{strings_view, SessionState, SessionView};
use crate::server::storage::{
    channel_at, team_at, thread_at, ChannelEntry, ChannelRecord, ReplyEntry, ReplyRecord,
    ServerStorage, StorageView, TeamEntry, TeamRecord, ThreadEntry, ThreadRecord,
};
use crate::server::users::{online_in, UserStore, UserStoreView};
use crate::text::{int_text, push_i64, push_quoted, push_str, quoted_spec, string_of};
use crate::wire::join_quoted;

verus! {

/// Longest team or channel name, in characters.
pub const MAX_NAME_LENGTH: usize = 32;

/// Longest team or channel description, in characters.
pub const MAX_DESCRIPTION_LENGTH: usize = 255;

/// Longest thread or reply body, in characters.
pub const MAX_BODY_LENGTH: usize = 512;

/// The answer to a malformed request.
pub open spec fn bad_request_view() -> Seq<char> {
    response_spec(501, Some("\"bad request\""@))
}

/// The answer to a request that needs a logged-in user.
pub open spec fn unauthorized_view() -> Seq<char> {
    response_spec(401, Some("\"unauthorized\""@))
}

/// The answer naming a resource that does not exist.
pub open spec fn not_found_view(x: Seq<char>) -> Seq<char> {
    response_spec(404, Some(quoted_spec(x)))
}

/// A successful answer whose body is the given words, quoted.
pub open spec fn words_response(words: Seq<Seq<char>>) -> Seq<char> {
    response_spec(200, Some(join_quoted(words)))
}

/// The word for an online flag.
pub open spec fn flag_view(b: bool) -> Seq<char> {
    if b {
        "1"@
    } else {
        "0"@
    }
}

/// The words describing a team.
pub open spec fn team_words(t: TeamRecord) -> Seq<Seq<char>> {
    seq!["TEAM"@, t.uuid, t.name, t.description]
}

/// The words describing a channel.
pub open spec fn channel_words(c: ChannelRecord) -> Seq<Seq<char>> {
    seq!["CHANNEL"@, c.uuid, c.name, c.description]
}

/// The words describing a thread.
pub open spec fn thread_words(t: ThreadRecord) -> Seq<Seq<char>> {
    seq!["THREAD"@, t.uuid, t.user_uuid, int_text(t.timestamp as int), t.title, t.body]
}

/// The words describing a reply of thread `th`.
pub open spec fn reply_words(th: Seq<char>, r: ReplyRecord) -> Seq<Seq<char>> {
    seq!["REPLY"@, th, r.user_uuid, int_text(r.timestamp as int), r.body]
}

/// The words describing a user.
pub open spec fn user_words(uuid: Seq<char>, name: Seq<char>, online: bool) -> Seq<Seq<char>> {
    seq!["USER"@, uuid, name, flag_view(online)]
}

/// Build the standard bad-request response line.
pub fn bad_request() -> (r: String)
    ensures
        r@ == bad_request_view(),
{
    response(501, Some("\"bad request\""))
}

/// Build the standard unauthorized response line.
pub fn unauthorized() -> (r: String)
    ensures
        r@ == unauthorized_view(),
{
    response(401, Some("\"unauthorized\""))
}

/// Build a standard unknown-user response line.
pub fn unknown_user(user_uuid: &str) -> (r: String)
    ensures
        r@ == not_found_view(user_uuid@),
{
    not_found(user_uuid)
}

/// The response naming a resource that does not exist.
pub fn not_found(target: &str) -> (r: String)
    ensures
        r@ == not_found_view(target@),
{
    let q = quoted(target);
    response(404, Some(q.as_str()))
}

/// Validate that the argument count falls within the accepted range.
pub fn validate_arg_count(args: &[String], min: usize, max: usize) -> (r: Result<(), String>)
    ensures
        r is Ok <==> min <= args@.len() <= max,
        r matches Err(e) ==> e@ == bad_request_view(),
{
    if args.len() < min || args.len() > max {
        return Err(bad_request());
    }
    Ok(())
}

/// Check whether a string fits within a maximum character length.
pub fn validate_max_len(value: &str, max: usize) -> (r: bool)
    ensures
        r == (value@.len() <= max),
{
    let v = crate::text::chars_of(value);
    v.len() <= max
}

/// Whether some argument is empty.
pub fn any_empty(args: &[String]) -> (r: bool)
    ensures
        r == exists|i: int| 0 <= i < args@.len() && (#[trigger] args@[i])@.len() == 0,
{
    let mut i: usize = 0;
    while i < args.len()
        invariant
            i <= args@.len(),
            forall|j: int| 0 <= j < i ==> (#[trigger] args@[j])@.len() != 0,
        decreases args@.len() - i,
    {
        if args[i].as_str().is_empty() {
            return true;
        }
        i = i + 1;
    }
    false
}

/// The quoted words joined by single spaces.
pub fn join_words(words: &Vec<String>) -> (r: String)
    ensures
        r@ == join_quoted(strings_view(words@)),
{
    let mut out: Vec<char> = Vec::new();
    let mut i: usize = 0;
    while i < words.len()
        invariant
            i <= words@.len(),
            out@ == join_quoted(strings_view(words@.subrange(0, i as int))),
        decreases words@.len() - i,
    {
        let ghost prev = strings_view(words@.subrange(0, i as int));
        let ghost next = strings_view(words@.subrange(0, i + 1));
        assert(next.drop_last() =~= prev);
        if i > 0 {
            out.push(' ');
        }
        push_quoted(&mut out, words[i].as_str());
        i = i + 1;
        assert(out@ =~= join_quoted(next));
    }
    assert(words@.subrange(0, i as int) =~= words@);
    string_of(out.as_slice())
}

/// A successful response whose body is the given words, quoted.
pub fn words_reply(words: &Vec<String>) -> (r: String)
    ensures
        r@ == words_response(strings_view(words@)),
{
    let body = join_words(words);
    response(200, Some(body.as_str()))
}

/// The decimal text of a timestamp.
pub fn timestamp_text(t: i64) -> (r: String)
    ensures
        r@ == int_text(t as int),
{
    crate::text::i64_to_string(t)
}

/// The word for an online flag.
pub fn flag_word(b: bool) -> (r: String)
    ensures
        r@ == flag_view(b),
{
    if b {
        "1".to_owned()
    } else {
        "0".to_owned()
    }
}

/// Format a team entry as a response body.
pub fn team_response(team: &TeamEntry) -> (r: String)
    ensures
        r@ == join_quoted(team_words(team@)),
{
    let words = vec![
        "TEAM".to_owned(),
        team.uuid.clone(),
        team.name.clone(),
        team.description.clone(),
    ];
    assert(strings_view(words@) =~= team_words(team@));
    join_words(&words)
}

/// Format a channel entry as a response body.
pub fn channel_response(channel: &ChannelEntry) -> (r: String)
    ensures
        r@ == join_quoted(channel_words(channel@)),
{
    let words = vec![
        "CHANNEL".to_owned(),
        channel.uuid.clone(),
        channel.name.clone(),
        channel.description.clone(),
    ];
    assert(strings_view(words@) =~= channel_words(channel@));
    join_words(&words)
}

/// Format a thread entry as a response body.
pub fn thread_response(thread: &ThreadEntry) -> (r: String)
    ensures
        r@ == join_quoted(thread_words(thread@)),
{
    let words = vec![
        "THREAD".to_owned(),
        thread.uuid.clone(),
        thread.user_uuid.clone(),
        timestamp_text(thread.timestamp),
        thread.title.clone(),
        thread.body.clone(),
    ];
    assert(strings_view(words@) =~= thread_words(thread@));
    join_words(&words)
}

/// Format a reply entry as a response body.
pub fn reply_response(thread_uuid: &str, reply: &ReplyEntry) -> (r: String)
    ensures
        r@ == join_quoted(reply_words(thread_uuid@, reply@)),
{
    let words = vec![
        "REPLY".to_owned(),
        thread_uuid.to_owned(),
        reply.user_uuid.clone(),
        timestamp_text(reply.timestamp),
        reply.body.clone(),
    ];
    assert(strings_view(words@) =~= reply_words(thread_uuid@, reply@));
    join_words(&words)
}

/// The current resource scope selected by the session context.
pub enum ResourceContext {
    /// No team, channel, or thread is selected.
    Root,
    /// A team is selected.
    Team { team_uuid: String },
    /// A team and channel are selected.
    Channel { team_uuid: String, channel_uuid: String },
    /// A team, channel, and thread are selected.
    Thread { team_uuid: String, channel_uuid: String, thread_uuid: String },
}

/// The scope a session's selection stands for.
pub enum ContextView {
    Root,
    Team(Seq<char>),
    Channel(Seq<char>, Seq<char>),
    Thread(Seq<char>, Seq<char>, Seq<char>),
    /// A channel or thread selected without its parents.
    Malformed,
}

/// The scope selected by a session.
pub open spec fn context_of(s: SessionView) -> ContextView {
    match (s.team_uuid, s.channel_uuid, s.thread_uuid) {
        (None, None, None) => ContextView::Root,
        (Some(t), None, None) => ContextView::Team(t),
        (Some(t), Some(c), None) => ContextView::Channel(t, c),
        (Some(t), Some(c), Some(th)) => ContextView::Thread(t, c, th),
        _ => ContextView::Malformed,
    }
}

impl View for ResourceContext {
    type V = ContextView;

    open spec fn view(&self) -> ContextView {
        match self {
            ResourceContext::Root => ContextView::Root,
            ResourceContext::Team { team_uuid } => ContextView::Team(team_uuid@),
            ResourceContext::Channel { team_uuid, channel_uuid } => ContextView::Channel(
                team_uuid@,
                channel_uuid@,
            ),
            ResourceContext::Thread { team_uuid, channel_uuid, thread_uuid } => ContextView::Thread(
                team_uuid@,
                channel_uuid@,
                thread_uuid@,
            ),
        }
    }
}

/// Convert the session context into a concrete resource scope.
pub fn current_context(state: &SessionState) -> (r: Result<ResourceContext, ()>)
    ensures
        match r {
            Ok(c) => context_of(state@) == c@,
            Err(()) => context_of(state@) == ContextView::Malformed,
        },
{
    match (&state.context.team_uuid, &state.context.channel_uuid, &state.context.thread_uuid) {
        (None, None, None) => Ok(ResourceContext::Root),
        (Some(team_uuid), None, None) => Ok(ResourceContext::Team { team_uuid: team_uuid.clone() }),
        (Some(team_uuid), Some(channel_uuid), None) => Ok(
            ResourceContext::Channel {
                team_uuid: team_uuid.clone(),
                channel_uuid: channel_uuid.clone(),
            },
        ),
        (Some(team_uuid), Some(channel_uuid), Some(thread_uuid)) => Ok(
            ResourceContext::Thread {
                team_uuid: team_uuid.clone(),
                channel_uuid: channel_uuid.clone(),
                thread_uuid: thread_uuid.clone(),
            },
        ),
        _ => Err(()),
    }
}

/// The UUID, name and online state of the logged-in user, if known.
pub open spec fn current_user_spec(s: SessionView, u: UserStoreView) -> Option<
    (Seq<char>, Seq<char>, bool),
> {
    match s.user_uuid {
        Some(id) => if u.by_uuid.contains_key(id) {
            Some((id, u.by_uuid[id], online_in(u, id)))
        } else {
            None
        },
        None => None,
    }
}

/// Fetch the current user details from the session and user store.
pub fn current_user_details(state: &SessionState, users: &UserStore) -> (r: Option<
    (String, String, bool),
>)
    requires
        users.wf(),
    ensures
        match r {
            Some(d) => current_user_spec(state@, users@) == Some((d.0@, d.1@, d.2)),
            None => current_user_spec(state@, users@) is None,
        },
{
    match &state.user_uuid {
        Some(user_uuid) => match users.user_details(user_uuid.as_str()) {
            Some((user_name, is_online)) => Some((user_uuid.clone(), user_name, is_online)),
            None => None,
        },
        None => None,
    }
}

/// The argument at `i`, if there is one.
pub open spec fn arg_at(args: Seq<Seq<char>>, i: int) -> Option<Seq<char>> {
    if 0 <= i < args.len() {
        Some(args[i])
    } else {
        None
    }
}

/// The session after `USE` with the given arguments.
pub open spec fn set_context_spec(s: SessionView, args: Seq<Seq<char>>) -> SessionView {
    SessionView {
        team_uuid: arg_at(args, 0),
        channel_uuid: arg_at(args, 1),
        thread_uuid: arg_at(args, 2),
        ..s
    }
}

/// A copy of the argument at `i`, if there is one.
fn cloned_arg(args: &[String], i: usize) -> (r: Option<String>)
    ensures
        match r {
            Some(a) => arg_at(strings_view(args@), i as int) == Some(a@),
            None => arg_at(strings_view(args@), i as int) is None,
        },
{
    if i < args.len() {
        Some(args[i].clone())
    } else {
        None
    }
}

/// Update the session context from parsed arguments.
pub fn set_context(state: &mut SessionState, args: &[String])
    ensures
        final(state)@ == set_context_spec(old(state)@, strings_view(args@)),
{
    state.context.team_uuid = cloned_arg(args, 0);
    state.context.channel_uuid = cloned_arg(args, 1);
    state.context.thread_uuid = cloned_arg(args, 2);
}

/// Why `USE` with these arguments is refused: `Some` of an empty text when an
/// argument is empty, `Some` of the quoted missing UUID when a resource does
/// not exist, `None` when the selection is valid.
pub open spec fn use_refusal(teams: Seq<TeamRecord>, args: Seq<Seq<char>>) -> Option<Seq<char>> {
    if exists|i: int| 0 <= i < args.len() && (#[trigger] args[i]).len() == 0 {
        Some(Seq::empty())
    } else if args.len() >= 1 && team_at(teams, args[0]) is None {
        Some(quoted_spec(args[0]))
    } else if args.len() >= 2 && channel_at(teams, args[0], args[1]) is None {
        Some(quoted_spec(args[1]))
    } else if args.len() >= 3 && thread_at(teams, args[0], args[1], args[2]) is None {
        Some(quoted_spec(args[2]))
    } else {
        None
    }
}

/// Validate the requested `USE` context against storage.
pub fn validate_use_context(storage: &ServerStorage, args: &[String]) -> (r: Result<(), String>)
    requires
        args@.len() <= 3,
    ensures
        match r {
            Ok(()) => use_refusal(storage@.teams, strings_view(args@)) is None,
            Err(e) => use_refusal(storage@.teams, strings_view(args@)) == Some(e@),
        },
{
    let ghost a = strings_view(args@);
    if any_empty(args) {
        proof {
            let i = choose|i: int| 0 <= i < args@.len() && (#[trigger] args@[i])@.len() == 0;
            assert(a[i].len() == 0);
        }
        return Err(String::new());
    }
    assert(!exists|i: int| 0 <= i < a.len() && (#[trigger] a[i]).len() == 0) by {
        assert forall|i: int| 0 <= i < a.len() implies (#[trigger] a[i]).len() != 0 by {
            assert(args@[i]@.len() != 0);
        }
    }
    if args.len() >= 1 && storage.team(args[0].as_str()).is_none() {
        return Err(quoted(args[0].as_str()));
    }
    if args.len() >= 2 && storage.channel(args[0].as_str(), args[1].as_str()).is_none() {
        return Err(quoted(args[1].as_str()));
    }
    if args.len() >= 3 && storage.thread(args[0].as_str(), args[1].as_str(), args[2].as_str()).is_none() {
        return Err(quoted(args[2].as_str()));
    }
    Ok(())
}

} // verus!
