//! The server commands on teams, channels, threads and replies: create, list
//! and info, each acting on the resource the session selected.
use vstd::prelude::*;

use crate::collections::{lemma_sorted_listing, sorted_listing};
use crate::server::handlers::{info_line, info_line_spec, reply_only, step_of, Step};
use crate::server::ids::{make_uuid_v4_like, now_unix_timestamp, uuid_for};
use crate::server::protocol::{response, response_spec};
use crate::server::session::{
    event3, event5, one_event, outcome, push_words3, push_words5, strings_view, CommandOutcome,
    EventKind, InfoEvent, OutcomeView, Persist, SessionState, SessionView,
};
use crate::server::shared::{
    any_empty, bad_request, bad_request_view, channel_response, channel_words, context_of,
    current_context, current_user_details, current_user_spec, flag_word, not_found,
    not_found_view, reply_response, reply_words, team_response, team_words, thread_response,
    thread_words, timestamp_text, unauthorized, unauthorized_view, user_words, validate_arg_count,
    validate_max_len, words_reply, words_response, ContextView, ResourceContext,
    MAX_BODY_LENGTH, MAX_DESCRIPTION_LENGTH, MAX_NAME_LENGTH,
};
use crate::server::storage::{
    add_channel_spec, add_reply_spec, add_thread_spec, channel_at, channel_position,
    channel_with_thread, team_at, team_position, thread_at, thread_position, thread_with_reply,
    ChannelEntry, ChannelRecord, ReplyEntry, ReplyRecord, ServerStorage, StorageView, TeamEntry,
    TeamRecord, ThreadEntry, ThreadRecord,
};
use crate::server::users::{members, UserStore, UserStoreView};
use crate::text::{int_text, str_eq};

verus! {

/// Whether a name and a text argument are given, non-empty and within the
/// limits.
pub open spec fn fields_ok(args: Seq<Seq<char>>, name_max: nat, text_max: nat) -> bool {
    &&& args.len() == 2
    &&& args[0].len() > 0
    &&& args[1].len() > 0
    &&& args[0].len() <= name_max
    &&& args[1].len() <= text_max
}

/// One info event with `payload` for each of `ids`.
pub open spec fn notify_all(ids: Seq<Seq<char>>, payload: Seq<char>) -> Seq<(Seq<char>, Seq<char>)> {
    ids.map_values(|id: Seq<char>| (id, payload))
}

/// The subscribers of team `t`, sorted.
pub open spec fn subscribers_of(u: UserStoreView, t: Seq<char>) -> Seq<Seq<char>> {
    sorted_listing(members(u.team_subscribers, t))
}

/// The answer to a creation whose name is already taken.
pub open spec fn conflict_view() -> Seq<char> {
    response_spec(409, Some("\"already exist\""@))
}

/// Builds the answer to a creation whose name is already taken.
pub fn conflict() -> (r: String)
    ensures
        r@ == conflict_view(),
{
    response(409, Some("\"already exist\""))
}

/// Whether one of the teams has this name.
pub open spec fn team_name_taken(teams: Seq<TeamRecord>, name: Seq<char>) -> bool {
    exists|i: int| 0 <= i < teams.len() && #[trigger] teams[i].name == name
}

/// Whether one of the channels has this name.
pub open spec fn channel_name_taken(channels: Seq<ChannelRecord>, name: Seq<char>) -> bool {
    exists|i: int| 0 <= i < channels.len() && #[trigger] channels[i].name == name
}

/// Whether one of the threads has this title.
pub open spec fn thread_title_taken(threads: Seq<ThreadRecord>, title: Seq<char>) -> bool {
    exists|i: int| 0 <= i < threads.len() && #[trigger] threads[i].title == title
}

/// Whether one of the teams has this name.
fn any_team_named(teams: &Vec<TeamEntry>, name: &str) -> (r: bool)
    ensures
        r == team_name_taken(teams@.map_values(|t: TeamEntry| t@), name@),
{
    let ghost v = teams@.map_values(|t: TeamEntry| t@);
    let mut i: usize = 0;
    while i < teams.len()
        invariant
            i <= teams@.len(),
            v == teams@.map_values(|t: TeamEntry| t@),
            forall|k: int| 0 <= k < i ==> (#[trigger] v[k]).name != name@,
        decreases teams@.len() - i,
    {
        if str_eq(teams[i].name.as_str(), name) {
            assert(v[i as int].name == name@);
            return true;
        }
        i = i + 1;
    }
    false
}

/// Whether one of the channels has this name.
fn any_channel_named(channels: &Vec<ChannelEntry>, name: &str) -> (r: bool)
    ensures
        r == channel_name_taken(channels@.map_values(|c: ChannelEntry| c@), name@),
{
    let ghost v = channels@.map_values(|c: ChannelEntry| c@);
    let mut i: usize = 0;
    while i < channels.len()
        invariant
            i <= channels@.len(),
            v == channels@.map_values(|c: ChannelEntry| c@),
            forall|k: int| 0 <= k < i ==> (#[trigger] v[k]).name != name@,
        decreases channels@.len() - i,
    {
        if str_eq(channels[i].name.as_str(), name) {
            assert(v[i as int].name == name@);
            return true;
        }
        i = i + 1;
    }
    false
}

/// Whether one of the threads has this title.
fn any_thread_titled(threads: &Vec<ThreadEntry>, title: &str) -> (r: bool)
    ensures
        r == thread_title_taken(threads@.map_values(|t: ThreadEntry| t@), title@),
{
    let ghost v = threads@.map_values(|t: ThreadEntry| t@);
    let mut i: usize = 0;
    while i < threads.len()
        invariant
            i <= threads@.len(),
            v == threads@.map_values(|t: ThreadEntry| t@),
            forall|k: int| 0 <= k < i ==> (#[trigger] v[k]).title != title@,
        decreases threads@.len() - i,
    {
        if str_eq(threads[i].title.as_str(), title) {
            assert(v[i as int].title == title@);
            return true;
        }
        i = i + 1;
    }
    false
}

/// `CREATE` with fresh UUID `fresh` at time `ts`: creates a team, channel,
/// thread or reply in the selected resource, saves the teams, and tells the
/// team's subscribers. A team, channel or thread whose name (title for a
/// thread) is already taken among its siblings is refused with `409`.
pub open spec fn create_spec(
    s: SessionView,
    u: UserStoreView,
    st: StorageView,
    args: Seq<Seq<char>>,
    fresh: Seq<char>,
    ts: i64,
) -> Step {
    match s.user_uuid {
        None => reply_only(s, u, st, unauthorized_view()),
        Some(me) => match context_of(s) {
            ContextView::Malformed => reply_only(s, u, st, bad_request_view()),
            ContextView::Root => if !fields_ok(args, MAX_NAME_LENGTH as nat, MAX_DESCRIPTION_LENGTH as nat) {
                reply_only(s, u, st, bad_request_view())
            } else if team_name_taken(st.teams, args[0]) {
                reply_only(s, u, st, conflict_view())
            } else {
                let team = TeamRecord {
                    uuid: fresh,
                    name: args[0],
                    description: args[1],
                    channels: Seq::empty(),
                };
                Step {
                    session: s,
                    users: u,
                    storage: StorageView { teams: st.teams.push(team), ..st },
                    outcome: OutcomeView {
                        response: words_response(team_words(team)),
                        info_events: Seq::empty(),
                        events: seq![(EventKind::TeamCreated, seq![fresh, args[0], me])],
                        persist: Persist::Teams,
                    },
                }
            },
            ContextView::Team(t) => if !fields_ok(args, MAX_NAME_LENGTH as nat, MAX_DESCRIPTION_LENGTH as nat) {
                reply_only(s, u, st, bad_request_view())
            } else if team_at(st.teams, t) is None {
                reply_only(s, u, st, not_found_view(t))
            } else if channel_name_taken(team_at(st.teams, t)->0.channels, args[0]) {
                reply_only(s, u, st, conflict_view())
            } else {
                let ch = ChannelRecord {
                    uuid: fresh,
                    name: args[0],
                    description: args[1],
                    threads: Seq::empty(),
                };
                Step {
                    session: s,
                    users: u,
                    storage: StorageView { teams: add_channel_spec(st.teams, t, ch), ..st },
                    outcome: OutcomeView {
                        response: words_response(channel_words(ch)),
                        info_events: notify_all(
                            subscribers_of(u, t),
                            info_line_spec("I100 NEW_CHANNEL "@, seq![t, fresh, args[0], args[1]]),
                        ),
                        events: seq![(EventKind::ChannelCreated, seq![t, fresh, args[0]])],
                        persist: Persist::Teams,
                    },
                }
            },
            ContextView::Channel(t, c) => if !fields_ok(args, MAX_NAME_LENGTH as nat, MAX_BODY_LENGTH as nat) {
                reply_only(s, u, st, bad_request_view())
            } else if channel_at(st.teams, t, c) is None {
                reply_only(s, u, st, not_found_view(c))
            } else if thread_title_taken(channel_at(st.teams, t, c)->0.threads, args[0]) {
                reply_only(s, u, st, conflict_view())
            } else {
                let th = ThreadRecord {
                    uuid: fresh,
                    user_uuid: me,
                    timestamp: ts,
                    title: args[0],
                    body: args[1],
                    replies: Seq::empty(),
                };
                Step {
                    session: s,
                    users: u,
                    storage: StorageView { teams: add_thread_spec(st.teams, t, c, th), ..st },
                    outcome: OutcomeView {
                        response: words_response(thread_words(th)),
                        info_events: notify_all(
                            subscribers_of(u, t),
                            info_line_spec(
                                "I100 NEW_THREAD "@,
                                seq![t, c, fresh, me, int_text(ts as int), args[0], args[1]],
                            ),
                        ),
                        events: seq![
                            (EventKind::ThreadCreated, seq![c, fresh, me, args[0], args[1]]),
                        ],
                        persist: Persist::Teams,
                    },
                }
            },
            ContextView::Thread(t, c, th) => if args.len() != 1 || args[0].len() == 0
                || args[0].len() > MAX_BODY_LENGTH as nat {
                reply_only(s, u, st, bad_request_view())
            } else if thread_at(st.teams, t, c, th) is None {
                reply_only(s, u, st, not_found_view(th))
            } else {
                let r = ReplyRecord { user_uuid: me, timestamp: ts, body: args[0] };
                Step {
                    session: s,
                    users: u,
                    storage: StorageView { teams: add_reply_spec(st.teams, t, c, th, r), ..st },
                    outcome: OutcomeView {
                        response: words_response(reply_words(th, r)),
                        info_events: notify_all(
                            subscribers_of(u, t),
                            info_line_spec("I100 NEW_REPLY "@, seq![t, th, me, args[0]]),
                        ),
                        events: seq![(EventKind::ReplyCreated, seq![th, me, args[0]])],
                        persist: Persist::Teams,
                    },
                }
            },
        },
    }
}

/// One info event with `payload` for each of `ids`.
pub(crate) fn notify_each(ids: &Vec<String>, payload: &String) -> (r: Vec<InfoEvent>)
    ensures
        r@.map_values(|e: InfoEvent| e@) == notify_all(ids.deep_view(), payload@),
{
    let mut out: Vec<InfoEvent> = Vec::new();
    let mut i: usize = 0;
    while i < ids.len()
        invariant
            i <= ids@.len(),
            out@.len() == i,
            out@.map_values(|e: InfoEvent| e@) == notify_all(
                ids.deep_view().subrange(0, i as int),
                payload@,
            ),
        decreases ids@.len() - i,
    {
        let ghost prev = out@;
        let id = ids[i].clone();
        assert(ids.deep_view()[i as int] == id@);
        out.push(InfoEvent { recipient_user_uuid: id, payload: payload.clone() });
        assert(ids.deep_view().subrange(0, i + 1) =~= ids.deep_view().subrange(0, i as int).push(
            ids.deep_view()[i as int],
        ));
        i = i + 1;
        assert forall|j: int| 0 <= j < i implies (#[trigger] out@[j])@ == (
            ids.deep_view()[j],
            payload@,
        ) by {
            if j < i - 1 {
                assert(out@[j] == prev[j]);
                assert(prev.map_values(|e: InfoEvent| e@)[j] == notify_all(
                    ids.deep_view().subrange(0, i - 1),
                    payload@,
                )[j]);
            }
        }
        assert(out@.map_values(|e: InfoEvent| e@) =~= notify_all(
            ids.deep_view().subrange(0, i as int),
            payload@,
        ));
    }
    assert(ids.deep_view().subrange(0, i as int) =~= ids.deep_view());
    out
}

/// Creates a resource in the selected context, using `fresh` as the new
/// resource's UUID and `timestamp` as its time.
pub fn create_at(
    state: &mut SessionState,
    users: &mut UserStore,
    storage: &mut ServerStorage,
    args: &[String],
    fresh: &str,
    timestamp: i64,
) -> (r: CommandOutcome)
    requires
        old(users).wf(),
    ensures
        final(users).wf(),
        step_of(*final(state), *final(users), *final(storage), r) == create_spec(
            old(state)@,
            old(users)@,
            old(storage)@,
            strings_view(args@),
            fresh@,
            timestamp,
        ),
{
    let ghost a = strings_view(args@);
    let user_uuid = match &state.user_uuid {
        Some(u) => u.clone(),
        None => {
            return CommandOutcome::response_only(unauthorized());
        },
    };
    let context = match current_context(state) {
        Ok(c) => c,
        Err(()) => {
            return CommandOutcome::response_only(bad_request());
        },
    };
    match context {
        ResourceContext::Root => {
            if validate_arg_count(args, 2, 2).is_err() || any_empty(args) || !validate_max_len(
                args[0].as_str(),
                MAX_NAME_LENGTH,
            ) || !validate_max_len(args[1].as_str(), MAX_DESCRIPTION_LENGTH) {
                proof {
                    if args@.len() == 2 && a[0].len() > 0 && a[1].len() > 0 {
                        assert(!(exists|i: int|
                            0 <= i < args@.len() && (#[trigger] args@[i])@.len() == 0));
                    }
                }
                return CommandOutcome::response_only(bad_request());
            }
            if any_team_named(&storage.team_tree().teams, args[0].as_str()) {
                return CommandOutcome::response_only(conflict());
            }
            let team = TeamEntry {
                uuid: fresh.to_owned(),
                name: args[0].clone(),
                description: args[1].clone(),
                channels: Vec::new(),
            };
            assert(team@.channels =~= Seq::<ChannelRecord>::empty());
            let mut tree = storage.team_tree().clone();
            tree.teams.push(team.clone());
            assert(tree@ =~= old(storage)@.teams.push(team@));
            storage.replace_team_tree(tree);
            let body = team_response(&team);
            let r = outcome(
                response(200, Some(body.as_str())),
                Vec::new(),
                one_event(event3(EventKind::TeamCreated, team.uuid, team.name, user_uuid)),
                Persist::Teams,
            );
            proof {
                let spec = create_spec(
                    old(state)@,
                    old(users)@,
                    old(storage)@,
                    a,
                    fresh@,
                    timestamp,
                );
                assert(r@.info_events =~= spec.outcome.info_events);
                assert(step_of(*state, *users, *storage, r) == spec);
            }
            r
        },
        ResourceContext::Team { team_uuid } => {
            if validate_arg_count(args, 2, 2).is_err() || any_empty(args) || !validate_max_len(
                args[0].as_str(),
                MAX_NAME_LENGTH,
            ) || !validate_max_len(args[1].as_str(), MAX_DESCRIPTION_LENGTH) {
                proof {
                    if args@.len() == 2 && a[0].len() > 0 && a[1].len() > 0 {
                        assert(!(exists|i: int|
                            0 <= i < args@.len() && (#[trigger] args@[i])@.len() == 0));
                    }
                }
                return CommandOutcome::response_only(bad_request());
            }
            let mut tree = storage.team_tree().clone();
            let i = match team_position(&tree, team_uuid.as_str()) {
                Some(i) => i,
                None => {
                    return CommandOutcome::response_only(not_found(team_uuid.as_str()));
                },
            };
            proof {
                assert(team_at(old(storage)@.teams, team_uuid@) == Some(tree@[i as int]));
                assert(tree@[i as int] == tree.teams@[i as int]@);
            }
            if any_channel_named(&tree.teams[i].channels, args[0].as_str()) {
                return CommandOutcome::response_only(conflict());
            }
            let channel = ChannelEntry {
                uuid: fresh.to_owned(),
                name: args[0].clone(),
                description: args[1].clone(),
                threads: Vec::new(),
            };
            assert(channel@.threads =~= Seq::<ThreadRecord>::empty());
            tree.push_channel(i, channel.clone());
            storage.replace_team_tree(tree);
            let ids = users.subscribed_user_ids(team_uuid.as_str());
            proof {
                lemma_sorted_listing(ids.deep_view());
            }
            let payload_words = vec![
                team_uuid.clone(),
                channel.uuid.clone(),
                channel.name.clone(),
                channel.description.clone(),
            ];
            let payload = info_line("I100 NEW_CHANNEL ", &payload_words);
            let body = channel_response(&channel);
            let r = outcome(
                response(200, Some(body.as_str())),
                notify_each(&ids, &payload),
                one_event(event3(EventKind::ChannelCreated, team_uuid, channel.uuid, channel.name)),
                Persist::Teams,
            );
            proof {
                let spec = create_spec(
                    old(state)@,
                    old(users)@,
                    old(storage)@,
                    a,
                    fresh@,
                    timestamp,
                );
                assert(strings_view(payload_words@) =~= seq![
                    context_of(old(state)@)->Team_0,
                    fresh@,
                    a[0],
                    a[1],
                ]);
                assert(step_of(*state, *users, *storage, r) == spec);
            }
            r
        },
        ResourceContext::Channel { team_uuid, channel_uuid } => {
            if validate_arg_count(args, 2, 2).is_err() || any_empty(args) || !validate_max_len(
                args[0].as_str(),
                MAX_NAME_LENGTH,
            ) || !validate_max_len(args[1].as_str(), MAX_BODY_LENGTH) {
                proof {
                    if args@.len() == 2 && a[0].len() > 0 && a[1].len() > 0 {
                        assert(!(exists|i: int|
                            0 <= i < args@.len() && (#[trigger] args@[i])@.len() == 0));
                    }
                }
                return CommandOutcome::response_only(bad_request());
            }
            let mut tree = storage.team_tree().clone();
            let (i, j) = match channel_position(&tree, team_uuid.as_str(), channel_uuid.as_str()) {
                Some(p) => p,
                None => {
                    return CommandOutcome::response_only(not_found(channel_uuid.as_str()));
                },
            };
            proof {
                assert(team_at(old(storage)@.teams, team_uuid@) == Some(tree@[i as int]));
                assert(tree@[i as int] == tree.teams@[i as int]@);
                assert(tree.teams@[i as int]@.channels[j as int] == tree.teams@[i as int].channels@[j as int]@);
                assert(channel_at(old(storage)@.teams, team_uuid@, channel_uuid@) == Some(
                    tree.teams@[i as int].channels@[j as int]@,
                ));
            }
            if any_thread_titled(&tree.teams[i].channels[j].threads, args[0].as_str()) {
                return CommandOutcome::response_only(conflict());
            }
            let thread = ThreadEntry {
                uuid: fresh.to_owned(),
                user_uuid: user_uuid.clone(),
                timestamp,
                title: args[0].clone(),
                body: args[1].clone(),
                replies: Vec::new(),
            };
            assert(thread@.replies =~= Seq::<ReplyRecord>::empty());
            tree.push_thread(i, j, thread.clone());
            storage.replace_team_tree(tree);
            let ids = users.subscribed_user_ids(team_uuid.as_str());
            proof {
                lemma_sorted_listing(ids.deep_view());
            }
            let mut payload_words: Vec<String> = vec![team_uuid.clone(), channel_uuid.clone()];
            push_words5(
                &mut payload_words,
                thread.uuid.clone(),
                user_uuid.clone(),
                timestamp_text(timestamp),
                thread.title.clone(),
                thread.body.clone(),
            );
            let payload = info_line("I100 NEW_THREAD ", &payload_words);
            let body = thread_response(&thread);
            let r = outcome(
                response(200, Some(body.as_str())),
                notify_each(&ids, &payload),
                one_event(
                    event5(
                        EventKind::ThreadCreated,
                        channel_uuid,
                        thread.uuid,
                        user_uuid,
                        thread.title,
                        thread.body,
                    ),
                ),
                Persist::Teams,
            );
            proof {
                let spec = create_spec(
                    old(state)@,
                    old(users)@,
                    old(storage)@,
                    a,
                    fresh@,
                    timestamp,
                );
                assert(strings_view(payload_words@) =~= seq![
                    context_of(old(state)@)->Channel_0,
                    context_of(old(state)@)->Channel_1,
                    fresh@,
                    old(state)@.user_uuid.unwrap(),
                    int_text(timestamp as int),
                    a[0],
                    a[1],
                ]);
                assert(step_of(*state, *users, *storage, r) == spec);
            }
            r
        },
        ResourceContext::Thread { team_uuid, channel_uuid, thread_uuid } => {
            if validate_arg_count(args, 1, 1).is_err() || args[0].as_str().is_empty()
                || !validate_max_len(args[0].as_str(), MAX_BODY_LENGTH) {
                return CommandOutcome::response_only(bad_request());
            }
            let mut tree = storage.team_tree().clone();
            let (i, j, k) = match thread_position(
                &tree,
                team_uuid.as_str(),
                channel_uuid.as_str(),
                thread_uuid.as_str(),
            ) {
                Some(p) => p,
                None => {
                    return CommandOutcome::response_only(not_found(thread_uuid.as_str()));
                },
            };
            let reply = ReplyEntry {
                user_uuid: user_uuid.clone(),
                timestamp,
                body: args[0].clone(),
            };
            tree.push_reply(i, j, k, reply.clone());
            storage.replace_team_tree(tree);
            let ids = users.subscribed_user_ids(team_uuid.as_str());
            proof {
                lemma_sorted_listing(ids.deep_view());
            }
            let payload_words = vec![
                team_uuid.clone(),
                thread_uuid.clone(),
                user_uuid.clone(),
                reply.body.clone(),
            ];
            let payload = info_line("I100 NEW_REPLY ", &payload_words);
            let body = reply_response(thread_uuid.as_str(), &reply);
            let r = outcome(
                response(200, Some(body.as_str())),
                notify_each(&ids, &payload),
                one_event(event3(EventKind::ReplyCreated, thread_uuid, user_uuid, reply.body)),
                Persist::Teams,
            );
            proof {
                let spec = create_spec(
                    old(state)@,
                    old(users)@,
                    old(storage)@,
                    a,
                    fresh@,
                    timestamp,
                );
                assert(strings_view(payload_words@) =~= seq![
                    context_of(old(state)@)->Thread_0,
                    context_of(old(state)@)->Thread_2,
                    old(state)@.user_uuid.unwrap(),
                    a[0],
                ]);
                assert(step_of(*state, *users, *storage, r) == spec);
            }
            r
        },
    }
}

/// One more than a count, wrapping to zero past the largest `u64`.
pub open spec fn next_sequence(n: int) -> u64 {
    if n >= u64::MAX {
        0
    } else {
        (n + 1) as u64
    }
}

/// The sequence number that seeds the UUID of a resource created in the
/// selected context: one more than the number of its future siblings (the
/// teams, the channels of the team, the threads of the channel), and one
/// when the selected team or channel is unknown, a thread is selected or the
/// selection is malformed.
pub open spec fn creation_sequence_spec(c: ContextView, teams: Seq<TeamRecord>) -> u64 {
    match c {
        ContextView::Root => next_sequence(teams.len() as int),
        ContextView::Team(t) => match team_at(teams, t) {
            Some(team) => next_sequence(team.channels.len() as int),
            None => 1,
        },
        ContextView::Channel(t, ch) => match channel_at(teams, t, ch) {
            Some(channel) => next_sequence(channel.threads.len() as int),
            None => 1,
        },
        _ => 1,
    }
}

/// The sequence number that seeds the UUID of a resource created in the
/// selected context.
fn creation_sequence(state: &SessionState, storage: &ServerStorage) -> (r: u64)
    ensures
        r == creation_sequence_spec(context_of(state@), storage@.teams),
{
    match current_context(state) {
        Ok(ResourceContext::Root) => (storage.team_tree().teams.len() as u64).wrapping_add(1),
        Ok(ResourceContext::Team { team_uuid }) => match storage.team(team_uuid.as_str()) {
            Some(team) => (team.channels.len() as u64).wrapping_add(1),
            None => 1,
        },
        Ok(ResourceContext::Channel { team_uuid, channel_uuid }) => match storage.channel(
            team_uuid.as_str(),
            channel_uuid.as_str(),
        ) {
            Some(channel) => (channel.threads.len() as u64).wrapping_add(1),
            None => 1,
        },
        _ => 1,
    }
}

/// Create a team, channel, thread, or reply in the current context, with a
/// new UUID and the current time.
pub fn handle_create(
    state: &mut SessionState,
    users: &mut UserStore,
    storage: &mut ServerStorage,
    args: &[String],
) -> (r: CommandOutcome)
    requires
        old(users).wf(),
    ensures
        final(users).wf(),
        exists|nanos: u128, ts: i64|
            step_of(*final(state), *final(users), *final(storage), r) == #[trigger] create_spec(
                old(state)@,
                old(users)@,
                old(storage)@,
                strings_view(args@),
                uuid_for(
                    creation_seed(strings_view(args@)),
                    nanos,
                    creation_sequence_spec(context_of(old(state)@), old(storage)@.teams),
                ),
                ts,
            ),
{
    let seed = if args.len() > 0 {
        args[0].as_str()
    } else {
        ""
    };
    proof {
        reveal_strlit("");
    }
    assert(seed@ == creation_seed(strings_view(args@)));
    let sequence = creation_sequence(state, storage);
    let fresh = make_uuid_v4_like(seed, sequence);
    let timestamp = now_unix_timestamp();
    create_at(state, users, storage, args, fresh.as_str(), timestamp)
}

/// The text that seeds the UUID of a created resource: its first argument,
/// or nothing.
pub open spec fn creation_seed(args: Seq<Seq<char>>) -> Seq<char> {
    if args.len() > 0 {
        args[0]
    } else {
        Seq::empty()
    }
}

/// The words of listed teams.
pub open spec fn team_rows(teams: Seq<TeamRecord>) -> Seq<Seq<char>>
    decreases teams.len(),
{
    if teams.len() == 0 {
        Seq::empty()
    } else {
        let t = teams.last();
        team_rows(teams.drop_last()) + seq![t.uuid, t.name, t.description]
    }
}

/// The words of listed channels.
pub open spec fn channel_rows(chs: Seq<ChannelRecord>) -> Seq<Seq<char>>
    decreases chs.len(),
{
    if chs.len() == 0 {
        Seq::empty()
    } else {
        let c = chs.last();
        channel_rows(chs.drop_last()) + seq![c.uuid, c.name, c.description]
    }
}

/// The words of listed threads.
pub open spec fn thread_rows(ths: Seq<ThreadRecord>) -> Seq<Seq<char>>
    decreases ths.len(),
{
    if ths.len() == 0 {
        Seq::empty()
    } else {
        let t = ths.last();
        thread_rows(ths.drop_last()) + seq![
            t.uuid,
            t.user_uuid,
            int_text(t.timestamp as int),
            t.title,
            t.body,
        ]
    }
}

/// The words of listed replies.
pub open spec fn reply_rows(rs: Seq<ReplyRecord>) -> Seq<Seq<char>>
    decreases rs.len(),
{
    if rs.len() == 0 {
        Seq::empty()
    } else {
        let r = rs.last();
        reply_rows(rs.drop_last()) + seq![r.user_uuid, int_text(r.timestamp as int), r.body]
    }
}

/// `LIST`: the teams, channels, threads or replies under the selection.
pub open spec fn list_spec(
    s: SessionView,
    u: UserStoreView,
    st: StorageView,
    args: Seq<Seq<char>>,
) -> Step {
    if args.len() != 0 {
        reply_only(s, u, st, bad_request_view())
    } else if s.user_uuid is None {
        reply_only(s, u, st, unauthorized_view())
    } else {
        match context_of(s) {
            ContextView::Root => reply_only(
                s,
                u,
                st,
                words_response(seq!["TEAMS"@] + team_rows(st.teams)),
            ),
            ContextView::Team(t) => match team_at(st.teams, t) {
                None => reply_only(s, u, st, not_found_view(t)),
                Some(team) => reply_only(
                    s,
                    u,
                    st,
                    words_response(seq!["CHANNELS"@] + channel_rows(team.channels)),
                ),
            },
            ContextView::Channel(t, c) => match channel_at(st.teams, t, c) {
                None => reply_only(s, u, st, not_found_view(c)),
                Some(ch) => reply_only(
                    s,
                    u,
                    st,
                    words_response(seq!["THREADS"@] + thread_rows(ch.threads)),
                ),
            },
            ContextView::Thread(t, c, th) => match thread_at(st.teams, t, c, th) {
                None => reply_only(s, u, st, not_found_view(th)),
                Some(x) => reply_only(
                    s,
                    u,
                    st,
                    words_response(seq!["REPLIES"@] + reply_rows(x.replies)),
                ),
            },
            ContextView::Malformed => reply_only(s, u, st, bad_request_view()),
        }
    }
}

/// `INFO`: the logged-in user, or the selected resource.
pub open spec fn info_spec(
    s: SessionView,
    u: UserStoreView,
    st: StorageView,
    args: Seq<Seq<char>>,
) -> Step {
    if args.len() != 0 {
        reply_only(s, u, st, bad_request_view())
    } else if s.user_uuid is None {
        reply_only(s, u, st, unauthorized_view())
    } else {
        match context_of(s) {
            ContextView::Root => match current_user_spec(s, u) {
                None => reply_only(s, u, st, unauthorized_view()),
                Some(d) => reply_only(s, u, st, words_response(user_words(d.0, d.1, d.2))),
            },
            ContextView::Team(t) => match team_at(st.teams, t) {
                None => reply_only(s, u, st, not_found_view(t)),
                Some(team) => reply_only(s, u, st, words_response(team_words(team))),
            },
            ContextView::Channel(t, c) => match channel_at(st.teams, t, c) {
                None => reply_only(s, u, st, not_found_view(c)),
                Some(ch) => reply_only(s, u, st, words_response(channel_words(ch))),
            },
            ContextView::Thread(t, c, th) => match thread_at(st.teams, t, c, th) {
                None => reply_only(s, u, st, not_found_view(th)),
                Some(x) => reply_only(s, u, st, words_response(thread_words(x))),
            },
            ContextView::Malformed => reply_only(s, u, st, bad_request_view()),
        }
    }
}

/// List teams, channels, threads, or replies for the current context.
pub fn handle_list(
    state: &mut SessionState,
    users: &mut UserStore,
    storage: &mut ServerStorage,
    args: &[String],
) -> (r: CommandOutcome)
    requires
        old(users).wf(),
    ensures
        final(users).wf(),
        step_of(*final(state), *final(users), *final(storage), r) == list_spec(
            old(state)@,
            old(users)@,
            old(storage)@,
            strings_view(args@),
        ),
{
    if validate_arg_count(args, 0, 0).is_err() {
        return CommandOutcome::response_only(bad_request());
    }
    if state.user_uuid.is_none() {
        return CommandOutcome::response_only(unauthorized());
    }
    let chunks = match current_context(state) {
        Ok(ResourceContext::Root) => {
            let teams = &storage.team_tree().teams;
            let ghost tv = storage@.teams;
            let mut chunks: Vec<String> = vec!["TEAMS".to_owned()];
            let mut i: usize = 0;
            while i < teams.len()
                invariant
                    i <= teams@.len(),
                    tv == teams@.map_values(|t: TeamEntry| t@),
                    strings_view(chunks@) == seq!["TEAMS"@] + team_rows(tv.subrange(0, i as int)),
                decreases teams@.len() - i,
            {
                assert(tv.subrange(0, i + 1).drop_last() =~= tv.subrange(0, i as int));
                let t = &teams[i];
                push_words3(&mut chunks, t.uuid.clone(), t.name.clone(), t.description.clone());
                i = i + 1;
            }
            assert(tv.subrange(0, i as int) =~= tv);
            chunks
        },
        Ok(ResourceContext::Team { team_uuid }) => {
            let team = match storage.team(team_uuid.as_str()) {
                Some(t) => t,
                None => {
                    return CommandOutcome::response_only(not_found(team_uuid.as_str()));
                },
            };
            let ghost cv = team@.channels;
            let mut chunks: Vec<String> = vec!["CHANNELS".to_owned()];
            let mut i: usize = 0;
            while i < team.channels.len()
                invariant
                    i <= team.channels@.len(),
                    cv == team.channels@.map_values(|c: ChannelEntry| c@),
                    strings_view(chunks@) == seq!["CHANNELS"@] + channel_rows(
                        cv.subrange(0, i as int),
                    ),
                decreases team.channels@.len() - i,
            {
                assert(cv.subrange(0, i + 1).drop_last() =~= cv.subrange(0, i as int));
                let c = &team.channels[i];
                push_words3(&mut chunks, c.uuid.clone(), c.name.clone(), c.description.clone());
                i = i + 1;
            }
            assert(cv.subrange(0, i as int) =~= cv);
            chunks
        },
        Ok(ResourceContext::Channel { team_uuid, channel_uuid }) => {
            let channel = match storage.channel(team_uuid.as_str(), channel_uuid.as_str()) {
                Some(c) => c,
                None => {
                    return CommandOutcome::response_only(not_found(channel_uuid.as_str()));
                },
            };
            let ghost hv = channel@.threads;
            let mut chunks: Vec<String> = vec!["THREADS".to_owned()];
            let mut i: usize = 0;
            while i < channel.threads.len()
                invariant
                    i <= channel.threads@.len(),
                    hv == channel.threads@.map_values(|t: ThreadEntry| t@),
                    strings_view(chunks@) == seq!["THREADS"@] + thread_rows(
                        hv.subrange(0, i as int),
                    ),
                decreases channel.threads@.len() - i,
            {
                assert(hv.subrange(0, i + 1).drop_last() =~= hv.subrange(0, i as int));
                let t = &channel.threads[i];
                push_words5(
                    &mut chunks,
                    t.uuid.clone(),
                    t.user_uuid.clone(),
                    timestamp_text(t.timestamp),
                    t.title.clone(),
                    t.body.clone(),
                );
                i = i + 1;
            }
            assert(hv.subrange(0, i as int) =~= hv);
            chunks
        },
        Ok(ResourceContext::Thread { team_uuid, channel_uuid, thread_uuid }) => {
            let thread = match storage.thread(
                team_uuid.as_str(),
                channel_uuid.as_str(),
                thread_uuid.as_str(),
            ) {
                Some(t) => t,
                None => {
                    return CommandOutcome::response_only(not_found(thread_uuid.as_str()));
                },
            };
            let ghost rv = thread@.replies;
            let mut chunks: Vec<String> = vec!["REPLIES".to_owned()];
            let mut i: usize = 0;
            while i < thread.replies.len()
                invariant
                    i <= thread.replies@.len(),
                    rv == thread.replies@.map_values(|r: ReplyEntry| r@),
                    strings_view(chunks@) == seq!["REPLIES"@] + reply_rows(
                        rv.subrange(0, i as int),
                    ),
                decreases thread.replies@.len() - i,
            {
                assert(rv.subrange(0, i + 1).drop_last() =~= rv.subrange(0, i as int));
                let x = &thread.replies[i];
                push_words3(
                    &mut chunks,
                    x.user_uuid.clone(),
                    timestamp_text(x.timestamp),
                    x.body.clone(),
                );
                i = i + 1;
            }
            assert(rv.subrange(0, i as int) =~= rv);
            chunks
        },
        Err(()) => {
            return CommandOutcome::response_only(bad_request());
        },
    };
    CommandOutcome::response_only(words_reply(&chunks))
}

/// Show details for the current user or selected resource.
pub fn handle_info(
    state: &mut SessionState,
    users: &mut UserStore,
    storage: &mut ServerStorage,
    args: &[String],
) -> (r: CommandOutcome)
    requires
        old(users).wf(),
    ensures
        final(users).wf(),
        step_of(*final(state), *final(users), *final(storage), r) == info_spec(
            old(state)@,
            old(users)@,
            old(storage)@,
            strings_view(args@),
        ),
{
    if validate_arg_count(args, 0, 0).is_err() {
        return CommandOutcome::response_only(bad_request());
    }
    if state.user_uuid.is_none() {
        return CommandOutcome::response_only(unauthorized());
    }
    let body = match current_context(state) {
        Ok(ResourceContext::Root) => match current_user_details(state, users) {
            Some((user_uuid, user_name, is_online)) => {
                let words = vec!["USER".to_owned(), user_uuid, user_name, flag_word(is_online)];
                assert(strings_view(words@) =~= seq![
                    words@[0]@,
                    words@[1]@,
                    words@[2]@,
                    words@[3]@,
                ]);
                crate::server::shared::join_words(&words)
            },
            None => {
                return CommandOutcome::response_only(unauthorized());
            },
        },
        Ok(ResourceContext::Team { team_uuid }) => match storage.team(team_uuid.as_str()) {
            Some(team) => team_response(team),
            None => {
                return CommandOutcome::response_only(not_found(team_uuid.as_str()));
            },
        },
        Ok(ResourceContext::Channel { team_uuid, channel_uuid }) => match storage.channel(
            team_uuid.as_str(),
            channel_uuid.as_str(),
        ) {
            Some(channel) => channel_response(channel),
            None => {
                return CommandOutcome::response_only(not_found(channel_uuid.as_str()));
            },
        },
        Ok(ResourceContext::Thread { team_uuid, channel_uuid, thread_uuid }) => match storage.thread(
            team_uuid.as_str(),
            channel_uuid.as_str(),
            thread_uuid.as_str(),
        ) {
            Some(thread) => thread_response(thread),
            None => {
                return CommandOutcome::response_only(not_found(thread_uuid.as_str()));
            },
        },
        Err(()) => {
            return CommandOutcome::response_only(bad_request());
        },
    };
    CommandOutcome::response_only(response(200, Some(body.as_str())))
}

} // verus!
