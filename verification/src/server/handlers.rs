//! The server commands on users, sessions, private messages and
//! subscriptions. Each handler states its effect as a step: the session,
//! user store, storage and outcome after the command.
use vstd::prelude::*;

use crate::collections::{lemma_sorted_listing, sorted_listing};
use crate::server::ids::{now_unix_timestamp, uuid_for};
use crate::server::resources::{notify_all, notify_each};
use crate::server::protocol::{quoted, response, response_spec};
use crate::server::session::{
    event1, event2, event3, one_event, one_info, outcome, push_words3, response_only_view,
    strings_view, CommandOutcome, EventKind, InfoEvent, OutcomeView, Persist, ServerEvent,
    SessionState, SessionView,
};
use crate::server::shared::{
    bad_request, bad_request_view, flag_view, flag_word, not_found, not_found_view, set_context,
    set_context_spec, timestamp_text, unauthorized, unauthorized_view, unknown_user, use_refusal,
    validate_arg_count, validate_use_context, words_reply, words_response,
};
use crate::server::storage::{
    conversation_spec, team_at, upsert_spec, MessageEntry, MessageRecord, ServerStorage,
    StorageView, TeamRecord,
};
use crate::server::users::{
    lemma_listing_unique, listing_ok, login_step, logout_spec, members, online_ids, online_in,
    rows_view,
    subscribe_spec, unsubscribe_spec, users_listing, UserStore, UserStoreView,
};
use crate::text::{int_text, push_str, quoted_spec, string_of};
use crate::wire::join_quoted;

verus! {

/// What a command leaves behind: the session, the user store, the storage
/// and the outcome.
pub struct Step {
    pub session: SessionView,
    pub users: UserStoreView,
    pub storage: StorageView,
    pub outcome: OutcomeView,
}

/// A step that only answers.
pub open spec fn reply_only(
    s: SessionView,
    u: UserStoreView,
    st: StorageView,
    response: Seq<char>,
) -> Step {
    Step { session: s, users: u, storage: st, outcome: response_only_view(response) }
}

/// The step a handler took.
pub open spec fn step_of(
    state: SessionState,
    users: UserStore,
    storage: ServerStorage,
    outcome: CommandOutcome,
) -> Step {
    Step { session: state@, users: users@, storage: storage@, outcome: outcome@ }
}

/// An info line: its head, the quoted words and CRLF.
pub open spec fn info_line_spec(head: Seq<char>, words: Seq<Seq<char>>) -> Seq<char> {
    head + join_quoted(words) + seq!['\r', '\n']
}

/// Builds an info line: `head`, the quoted words joined by spaces, CRLF.
pub fn info_line(head: &str, words: &Vec<String>) -> (r: String)
    ensures
        r@ == info_line_spec(head@, strings_view(words@)),
{
    let body = crate::server::shared::join_words(words);
    let mut out: Vec<char> = Vec::new();
    push_str(&mut out, head);
    push_str(&mut out, body.as_str());
    out.push('\r');
    out.push('\n');
    assert(out@ =~= info_line_spec(head@, strings_view(words@)));
    string_of(out.as_slice())
}

/// The words of listed users: UUID, name and online flag of each.
pub open spec fn user_rows(rows: Seq<(Seq<char>, Seq<char>, bool)>) -> Seq<Seq<char>>
    decreases rows.len(),
{
    if rows.len() == 0 {
        Seq::empty()
    } else {
        let r = rows.last();
        user_rows(rows.drop_last()) + seq![r.0, r.1, flag_view(r.2)]
    }
}

/// The words of listed messages: sender, timestamp and body of each.
pub open spec fn message_rows(ms: Seq<MessageRecord>) -> Seq<Seq<char>>
    decreases ms.len(),
{
    if ms.len() == 0 {
        Seq::empty()
    } else {
        let m = ms.last();
        message_rows(ms.drop_last()) + seq![m.sender_uuid, int_text(m.timestamp as int), m.body]
    }
}

/// The words of the listed subscribers that are known users.
pub open spec fn subscriber_rows(u: UserStoreView, ids: Seq<Seq<char>>) -> Seq<Seq<char>>
    decreases ids.len(),
{
    if ids.len() == 0 {
        Seq::empty()
    } else {
        let id = ids.last();
        let prev = subscriber_rows(u, ids.drop_last());
        if u.by_uuid.contains_key(id) {
            prev + seq![id, u.by_uuid[id], flag_view(online_in(u, id))]
        } else {
            prev
        }
    }
}

/// The words of the listed subscribed teams that exist.
pub open spec fn subscribed_team_rows(teams: Seq<TeamRecord>, ids: Seq<Seq<char>>) -> Seq<
    Seq<char>,
>
    decreases ids.len(),
{
    if ids.len() == 0 {
        Seq::empty()
    } else {
        let prev = subscribed_team_rows(teams, ids.drop_last());
        match team_at(teams, ids.last()) {
            Some(t) => prev + seq![t.uuid, t.name, t.description],
            None => prev,
        }
    }
}

/// The announcement to every user online in `u` that user `id` named `name`
/// logged in or out (after `head`).
pub open spec fn presence_notices(
    u: UserStoreView,
    head: Seq<char>,
    id: Seq<char>,
    name: Seq<char>,
) -> Seq<(Seq<char>, Seq<char>)> {
    notify_all(online_ids(users_listing(u)), info_line_spec(head, seq![id, name]))
}

/// `LOGIN "name"`: logs the user in, registering an unknown name under
/// `fresh`; a new user is saved and announced; every user then online is
/// told of the login.
pub open spec fn login_spec(
    s: SessionView,
    u: UserStoreView,
    st: StorageView,
    args: Seq<Seq<char>>,
    fresh: Seq<char>,
) -> Step {
    if args.len() != 1 || args[0].len() == 0 {
        reply_only(s, u, st, bad_request_view())
    } else {
        let (u2, id, created) = login_step(u, args[0], fresh);
        Step {
            session: SessionView { user_uuid: Some(id), ..s },
            users: u2,
            storage: if created {
                StorageView { users: upsert_spec(st.users, args[0], id), ..st }
            } else {
                st
            },
            outcome: OutcomeView {
                response: response_spec(200, Some(quoted_spec(id))),
                info_events: presence_notices(u2, "I100 USER_LOGGED_IN "@, id, args[0]),
                events: if created {
                    seq![
                        (EventKind::UserCreated, seq![id, args[0]]),
                        (EventKind::UserLoggedIn, seq![id]),
                    ]
                } else {
                    seq![(EventKind::UserLoggedIn, seq![id])]
                },
                persist: if created {
                    Persist::Users
                } else {
                    Persist::Nothing
                },
            },
        }
    }
}

/// `LOGOUT`: ends the session's login, if any; every user still online is
/// told of the logout.
pub open spec fn logout_cmd_spec(
    s: SessionView,
    u: UserStoreView,
    st: StorageView,
    args: Seq<Seq<char>>,
) -> Step {
    if args.len() != 0 {
        reply_only(s, u, st, bad_request_view())
    } else {
        match s.user_uuid {
            Some(id) => Step {
                session: SessionView { user_uuid: None, ..s },
                users: logout_spec(u, id),
                storage: st,
                outcome: OutcomeView {
                    response: response_spec(200, None),
                    info_events: if u.by_uuid.contains_key(id) {
                        presence_notices(
                            logout_spec(u, id),
                            "I100 USER_LOGGED_OUT "@,
                            id,
                            u.by_uuid[id],
                        )
                    } else {
                        Seq::empty()
                    },
                    events: seq![(EventKind::UserLoggedOut, seq![id])],
                    persist: Persist::Nothing,
                },
            },
            None => reply_only(s, u, st, response_spec(200, None)),
        }
    }
}

/// `USERS`: every known user with its online flag.
pub open spec fn users_spec(
    s: SessionView,
    u: UserStoreView,
    st: StorageView,
    args: Seq<Seq<char>>,
) -> Step {
    if args.len() != 0 {
        reply_only(s, u, st, bad_request_view())
    } else {
        reply_only(s, u, st, words_response(seq!["USERS"@] + user_rows(users_listing(u))))
    }
}

/// `USER "uuid"`: one user's details.
pub open spec fn user_spec(
    s: SessionView,
    u: UserStoreView,
    st: StorageView,
    args: Seq<Seq<char>>,
) -> Step {
    if args.len() != 1 {
        reply_only(s, u, st, bad_request_view())
    } else if !u.by_uuid.contains_key(args[0]) {
        reply_only(s, u, st, not_found_view(args[0]))
    } else {
        reply_only(
            s,
            u,
            st,
            words_response(
                seq!["USER"@, args[0], u.by_uuid[args[0]], flag_view(online_in(u, args[0]))],
            ),
        )
    }
}

/// `SEND "uuid" "body"` at time `ts`: stores the message and tells the
/// recipient.
pub open spec fn send_spec(
    s: SessionView,
    u: UserStoreView,
    st: StorageView,
    args: Seq<Seq<char>>,
    ts: i64,
) -> Step {
    if args.len() != 2 || args[0].len() == 0 {
        reply_only(s, u, st, bad_request_view())
    } else {
        match s.user_uuid {
            None => reply_only(s, u, st, unauthorized_view()),
            Some(sender) => if !u.by_uuid.contains_key(args[0]) {
                reply_only(s, u, st, not_found_view(args[0]))
            } else {
                Step {
                    session: s,
                    users: u,
                    storage: StorageView {
                        messages: st.messages.push(
                            MessageRecord {
                                sender_uuid: sender,
                                recipient_uuid: args[0],
                                timestamp: ts,
                                body: args[1],
                            },
                        ),
                        ..st
                    },
                    outcome: OutcomeView {
                        response: response_spec(200, None),
                        info_events: seq![
                            (
                                args[0],
                                info_line_spec("I100 NEW_MESSAGE "@, seq![sender, args[1]]),
                            ),
                        ],
                        events: seq![
                            (EventKind::PrivateMessageSended, seq![sender, args[0], args[1]]),
                        ],
                        persist: Persist::Messages,
                    },
                }
            },
        }
    }
}

/// `MESSAGES "uuid"`: the conversation with that user.
pub open spec fn messages_spec(
    s: SessionView,
    u: UserStoreView,
    st: StorageView,
    args: Seq<Seq<char>>,
) -> Step {
    if args.len() != 1 {
        reply_only(s, u, st, bad_request_view())
    } else {
        match s.user_uuid {
            None => reply_only(s, u, st, unauthorized_view()),
            Some(me) => if !u.by_uuid.contains_key(args[0]) {
                reply_only(s, u, st, not_found_view(args[0]))
            } else {
                reply_only(
                    s,
                    u,
                    st,
                    words_response(
                        seq!["MESSAGES"@] + message_rows(
                            conversation_spec(st.messages, me, args[0]),
                        ),
                    ),
                )
            },
        }
    }
}

/// `SUBSCRIBE "team"`.
pub open spec fn subscribe_cmd_spec(
    s: SessionView,
    u: UserStoreView,
    st: StorageView,
    args: Seq<Seq<char>>,
) -> Step {
    if args.len() != 1 {
        reply_only(s, u, st, bad_request_view())
    } else {
        match s.user_uuid {
            None => reply_only(s, u, st, unauthorized_view()),
            Some(me) => if team_at(st.teams, args[0]) is None {
                reply_only(s, u, st, not_found_view(args[0]))
            } else {
                Step {
                    session: s,
                    users: subscribe_spec(u, me, args[0]),
                    storage: st,
                    outcome: OutcomeView {
                        response: words_response(seq!["SUBSCRIBED"@, me, args[0]]),
                        info_events: Seq::empty(),
                        events: seq![(EventKind::UserSubscribed, seq![args[0], me])],
                        persist: Persist::Nothing,
                    },
                }
            },
        }
    }
}

/// `UNSUBSCRIBE "team"`.
pub open spec fn unsubscribe_cmd_spec(
    s: SessionView,
    u: UserStoreView,
    st: StorageView,
    args: Seq<Seq<char>>,
) -> Step {
    if args.len() != 1 {
        reply_only(s, u, st, bad_request_view())
    } else {
        match s.user_uuid {
            None => reply_only(s, u, st, unauthorized_view()),
            Some(me) => if team_at(st.teams, args[0]) is None {
                reply_only(s, u, st, not_found_view(args[0]))
            } else {
                Step {
                    session: s,
                    users: unsubscribe_spec(u, me, args[0]),
                    storage: st,
                    outcome: OutcomeView {
                        response: words_response(seq!["UNSUBSCRIBED"@, me, args[0]]),
                        info_events: Seq::empty(),
                        events: seq![(EventKind::UserUnsubscribed, seq![args[0], me])],
                        persist: Persist::Nothing,
                    },
                }
            },
        }
    }
}

/// `SUBSCRIBED ?"team"`: the subscribers of a team, or the teams of the
/// user.
pub open spec fn subscribed_spec(
    s: SessionView,
    u: UserStoreView,
    st: StorageView,
    args: Seq<Seq<char>>,
) -> Step {
    if args.len() > 1 {
        reply_only(s, u, st, bad_request_view())
    } else {
        match s.user_uuid {
            None => reply_only(s, u, st, unauthorized_view()),
            Some(me) => if args.len() == 1 {
                if team_at(st.teams, args[0]) is None {
                    reply_only(s, u, st, not_found_view(args[0]))
                } else {
                    reply_only(
                        s,
                        u,
                        st,
                        words_response(
                            seq!["USERS"@] + subscriber_rows(
                                u,
                                sorted_listing(members(u.team_subscribers, args[0])),
                            ),
                        ),
                    )
                }
            } else {
                reply_only(
                    s,
                    u,
                    st,
                    words_response(
                        seq!["TEAMS"@] + subscribed_team_rows(
                            st.teams,
                            sorted_listing(members(u.user_subscriptions, me)),
                        ),
                    ),
                )
            },
        }
    }
}

/// `USE ?"team" ?"channel" ?"thread"`: selects a resource.
pub open spec fn use_spec(
    s: SessionView,
    u: UserStoreView,
    st: StorageView,
    args: Seq<Seq<char>>,
) -> Step {
    if args.len() > 3 {
        reply_only(s, u, st, bad_request_view())
    } else {
        match use_refusal(st.teams, args) {
            Some(t) => if t.len() == 0 {
                reply_only(s, u, st, bad_request_view())
            } else {
                reply_only(s, u, st, response_spec(404, Some(t)))
            },
            None => reply_only(set_context_spec(s, args), u, st, response_spec(200, None)),
        }
    }
}

/// Login of a user by name.
pub fn handle_login(
    state: &mut SessionState,
    users: &mut UserStore,
    storage: &mut ServerStorage,
    args: &[String],
) -> (r: CommandOutcome)
    requires
        old(users).wf(),
    ensures
        final(users).wf(),
        exists|nanos: u128|
            step_of(*final(state), *final(users), *final(storage), r) == login_spec(
                old(state)@,
                old(users)@,
                old(storage)@,
                strings_view(args@),
                #[trigger] uuid_for(strings_view(args@)[0], nanos, old(users)@.sequence.wrapping_add(1)),
            ),
{
    let ghost a = strings_view(args@);
    if validate_arg_count(args, 1, 1).is_err() || args[0].as_str().is_empty() {
        let r = CommandOutcome::response_only(bad_request());
        assert(step_of(*state, *users, *storage, r) == login_spec(
            old(state)@,
            old(users)@,
            old(storage)@,
            a,
            uuid_for(a[0], 0, old(users)@.sequence.wrapping_add(1)),
        ));
        return r;
    }
    let user_name = args[0].as_str();
    let (user_uuid, created) = users.login(user_name);
    let mut events: Vec<ServerEvent> = Vec::new();
    if created {
        events.push(event2(EventKind::UserCreated, user_uuid.clone(), user_name.to_owned()));
        storage.upsert_user(user_name, user_uuid.as_str());
    }
    let ghost before = events@;
    state.user_uuid = Some(user_uuid.clone());
    events.push(event1(EventKind::UserLoggedIn, user_uuid.clone()));
    let q = quoted(user_uuid.as_str());
    let persist = if created {
        Persist::Users
    } else {
        Persist::Nothing
    };
    let words = vec![user_uuid.clone(), user_name.to_owned()];
    let payload = info_line("I100 USER_LOGGED_IN ", &words);
    let online = users.online_user_ids();
    let infos = notify_each(&online, &payload);
    proof {
        assert(strings_view(words@) =~= seq![user_uuid@, a[0]]);
    }
    let r = outcome(response(200, Some(q.as_str())), infos, events, persist);
    let ghost nanos_w: u128 = if created {
        choose|nanos: u128| user_uuid@ == #[trigger] uuid_for(a[0], nanos, old(users)@.sequence.wrapping_add(1))
    } else {
        0
    };
    proof {
        let spec = login_spec(old(state)@, old(users)@, old(storage)@, a, user_uuid@);
        let fresh = uuid_for(a[0], nanos_w, old(users)@.sequence.wrapping_add(1));
        assert(login_spec(old(state)@, old(users)@, old(storage)@, a, fresh) == spec);
        assert(r@.info_events =~= spec.outcome.info_events);
        if created {
            assert(r@.events =~= seq![before[0]@, events@[1]@]);
        } else {
            assert(r@.events =~= seq![events@[0]@]);
        }
        assert(r@.events =~= spec.outcome.events);
        assert(step_of(*state, *users, *storage, r) == spec);
    }
    r
}

/// Ends the session's login.
pub fn handle_logout(
    state: &mut SessionState,
    users: &mut UserStore,
    storage: &mut ServerStorage,
    args: &[String],
) -> (r: CommandOutcome)
    requires
        old(users).wf(),
    ensures
        final(users).wf(),
        step_of(*final(state), *final(users), *final(storage), r) == logout_cmd_spec(
            old(state)@,
            old(users)@,
            old(storage)@,
            strings_view(args@),
        ),
{
    if validate_arg_count(args, 0, 0).is_err() {
        return CommandOutcome::response_only(bad_request());
    }
    match state.user_uuid.take() {
        Some(user_uuid) => {
            let details = users.user_details(user_uuid.as_str());
            users.logout(user_uuid.as_str());
            let infos = match details {
                Some((name, _)) => {
                    let words = vec![user_uuid.clone(), name];
                    let payload = info_line("I100 USER_LOGGED_OUT ", &words);
                    let online = users.online_user_ids();
                    proof {
                        assert(strings_view(words@) =~= seq![user_uuid@, old(users)@.by_uuid[user_uuid@]]);
                    }
                    notify_each(&online, &payload)
                },
                None => Vec::new(),
            };
            let r = outcome(
                response(200, None),
                infos,
                one_event(event1(EventKind::UserLoggedOut, user_uuid)),
                Persist::Nothing,
            );
            proof {
                let spec = logout_cmd_spec(
                    old(state)@,
                    old(users)@,
                    old(storage)@,
                    strings_view(args@),
                );
                assert(r@.info_events =~= spec.outcome.info_events);
                assert(r@.events =~= spec.outcome.events);
            }
            r
        },
        None => CommandOutcome::response_only(response(200, None)),
    }
}

/// Lists every user with its online flag.
pub fn handle_users(
    state: &mut SessionState,
    users: &mut UserStore,
    storage: &mut ServerStorage,
    args: &[String],
) -> (r: CommandOutcome)
    requires
        old(users).wf(),
    ensures
        final(users).wf(),
        step_of(*final(state), *final(users), *final(storage), r) == users_spec(
            old(state)@,
            old(users)@,
            old(storage)@,
            strings_view(args@),
        ),
{
    if validate_arg_count(args, 0, 0).is_err() {
        return CommandOutcome::response_only(bad_request());
    }
    let rows = users.list_users();
    proof {
        lemma_listing_unique(users@, rows_view(rows@));
    }
    let ghost rv = rows_view(rows@);
    let mut chunks: Vec<String> = vec!["USERS".to_owned()];
    let mut i: usize = 0;
    while i < rows.len()
        invariant
            i <= rows@.len(),
            rv == rows_view(rows@),
            strings_view(chunks@) == seq!["USERS"@] + user_rows(rv.subrange(0, i as int)),
        decreases rows@.len() - i,
    {
        assert(rv.subrange(0, i + 1).drop_last() =~= rv.subrange(0, i as int));
        push_words3(&mut chunks, rows[i].0.clone(), rows[i].1.clone(), flag_word(rows[i].2));
        i = i + 1;
        assert(strings_view(chunks@) =~= seq!["USERS"@] + user_rows(rv.subrange(0, i as int)));
    }
    assert(rv.subrange(0, i as int) =~= rv);
    CommandOutcome::response_only(words_reply(&chunks))
}

/// Shows one user's details.
pub fn handle_user(
    state: &mut SessionState,
    users: &mut UserStore,
    storage: &mut ServerStorage,
    args: &[String],
) -> (r: CommandOutcome)
    requires
        old(users).wf(),
    ensures
        final(users).wf(),
        step_of(*final(state), *final(users), *final(storage), r) == user_spec(
            old(state)@,
            old(users)@,
            old(storage)@,
            strings_view(args@),
        ),
{
    if validate_arg_count(args, 1, 1).is_err() {
        return CommandOutcome::response_only(bad_request());
    }
    let user_uuid = args[0].as_str();
    match users.user_details(user_uuid) {
        None => CommandOutcome::response_only(unknown_user(user_uuid)),
        Some((user_name, is_online)) => {
            let words = vec!["USER".to_owned(), user_uuid.to_owned(), user_name, flag_word(is_online)];
            assert(strings_view(words@) =~= seq![
                "USER"@,
                args@[0]@,
                users@.by_uuid[args@[0]@],
                flag_view(online_in(users@, args@[0]@)),
            ]);
            CommandOutcome::response_only(words_reply(&words))
        },
    }
}

/// Sends a private message at time `timestamp`.
pub fn send_at(
    state: &mut SessionState,
    users: &mut UserStore,
    storage: &mut ServerStorage,
    args: &[String],
    timestamp: i64,
) -> (r: CommandOutcome)
    requires
        old(users).wf(),
    ensures
        final(users).wf(),
        step_of(*final(state), *final(users), *final(storage), r) == send_spec(
            old(state)@,
            old(users)@,
            old(storage)@,
            strings_view(args@),
            timestamp,
        ),
{
    if validate_arg_count(args, 2, 2).is_err() || args[0].as_str().is_empty() {
        return CommandOutcome::response_only(bad_request());
    }
    let sender_uuid = match &state.user_uuid {
        Some(u) => u.clone(),
        None => {
            return CommandOutcome::response_only(unauthorized());
        },
    };
    let recipient_uuid = args[0].as_str();
    let message_body = args[1].as_str();
    if !users.exists_uuid(recipient_uuid) {
        return CommandOutcome::response_only(unknown_user(recipient_uuid));
    }
    storage.append_private_message(sender_uuid.as_str(), recipient_uuid, timestamp, message_body);
    let payload_words = vec![sender_uuid.clone(), message_body.to_owned()];
    let payload = info_line("I100 NEW_MESSAGE ", &payload_words);
    let event = event3(
        EventKind::PrivateMessageSended,
        sender_uuid,
        recipient_uuid.to_owned(),
        message_body.to_owned(),
    );
    let r = outcome(
        response(200, None),
        one_info(recipient_uuid.to_owned(), payload),
        one_event(event),
        Persist::Messages,
    );
    proof {
        let spec = send_spec(old(state)@, old(users)@, old(storage)@, strings_view(args@), timestamp);
        assert(strings_view(payload_words@) =~= seq![state@.user_uuid.unwrap(), args@[1]@]);
        assert(r@.info_events =~= spec.outcome.info_events);
        assert(r@.events =~= spec.outcome.events);
    }
    r
}

/// Sends a private message, stamped with the current time.
pub fn handle_send(
    state: &mut SessionState,
    users: &mut UserStore,
    storage: &mut ServerStorage,
    args: &[String],
) -> (r: CommandOutcome)
    requires
        old(users).wf(),
    ensures
        final(users).wf(),
        exists|ts: i64|
            step_of(*final(state), *final(users), *final(storage), r) == send_spec(
                old(state)@,
                old(users)@,
                old(storage)@,
                strings_view(args@),
                ts,
            ),
{
    let timestamp = now_unix_timestamp();
    send_at(state, users, storage, args, timestamp)
}

/// Lists the messages exchanged with a user.
pub fn handle_messages(
    state: &mut SessionState,
    users: &mut UserStore,
    storage: &mut ServerStorage,
    args: &[String],
) -> (r: CommandOutcome)
    requires
        old(users).wf(),
    ensures
        final(users).wf(),
        step_of(*final(state), *final(users), *final(storage), r) == messages_spec(
            old(state)@,
            old(users)@,
            old(storage)@,
            strings_view(args@),
        ),
{
    if validate_arg_count(args, 1, 1).is_err() {
        return CommandOutcome::response_only(bad_request());
    }
    let requester_uuid = match &state.user_uuid {
        Some(u) => u.as_str(),
        None => {
            return CommandOutcome::response_only(unauthorized());
        },
    };
    let other_user_uuid = args[0].as_str();
    if !users.exists_uuid(other_user_uuid) {
        return CommandOutcome::response_only(unknown_user(other_user_uuid));
    }
    let conversation = storage.conversation_messages(requester_uuid, other_user_uuid);
    let ghost cv = conversation@.map_values(|m: MessageEntry| m@);
    let mut chunks: Vec<String> = vec!["MESSAGES".to_owned()];
    let mut i: usize = 0;
    while i < conversation.len()
        invariant
            i <= conversation@.len(),
            cv == conversation@.map_values(|m: MessageEntry| m@),
            strings_view(chunks@) == seq!["MESSAGES"@] + message_rows(cv.subrange(0, i as int)),
        decreases conversation@.len() - i,
    {
        assert(cv.subrange(0, i + 1).drop_last() =~= cv.subrange(0, i as int));
        let m = &conversation[i];
        push_words3(&mut chunks, m.sender_uuid.clone(), timestamp_text(m.timestamp), m.body.clone());
        i = i + 1;
        assert(strings_view(chunks@) =~= seq!["MESSAGES"@] + message_rows(
            cv.subrange(0, i as int),
        ));
    }
    assert(cv.subrange(0, i as int) =~= cv);
    CommandOutcome::response_only(words_reply(&chunks))
}

/// Subscribes the logged-in user to a team.
pub fn handle_subscribe(
    state: &mut SessionState,
    users: &mut UserStore,
    storage: &mut ServerStorage,
    args: &[String],
) -> (r: CommandOutcome)
    requires
        old(users).wf(),
    ensures
        final(users).wf(),
        step_of(*final(state), *final(users), *final(storage), r) == subscribe_cmd_spec(
            old(state)@,
            old(users)@,
            old(storage)@,
            strings_view(args@),
        ),
{
    if validate_arg_count(args, 1, 1).is_err() {
        return CommandOutcome::response_only(bad_request());
    }
    let user_uuid = match &state.user_uuid {
        Some(u) => u.clone(),
        None => {
            return CommandOutcome::response_only(unauthorized());
        },
    };
    let team_uuid = args[0].as_str();
    if storage.team(team_uuid).is_none() {
        return CommandOutcome::response_only(not_found(team_uuid));
    }
    users.subscribe_to_team(user_uuid.as_str(), team_uuid);
    let words = vec!["SUBSCRIBED".to_owned(), user_uuid.clone(), team_uuid.to_owned()];
    let r = outcome(
        words_reply(&words),
        Vec::new(),
        one_event(event2(EventKind::UserSubscribed, team_uuid.to_owned(), user_uuid)),
        Persist::Nothing,
    );
    proof {
        let spec = subscribe_cmd_spec(old(state)@, old(users)@, old(storage)@, strings_view(args@));
        assert(strings_view(words@) =~= seq!["SUBSCRIBED"@, state@.user_uuid.unwrap(), args@[0]@]);
        assert(r@.info_events =~= spec.outcome.info_events);
        assert(r@.events =~= spec.outcome.events);
    }
    r
}

/// Unsubscribes the logged-in user from a team.
pub fn handle_unsubscribe(
    state: &mut SessionState,
    users: &mut UserStore,
    storage: &mut ServerStorage,
    args: &[String],
) -> (r: CommandOutcome)
    requires
        old(users).wf(),
    ensures
        final(users).wf(),
        step_of(*final(state), *final(users), *final(storage), r) == unsubscribe_cmd_spec(
            old(state)@,
            old(users)@,
            old(storage)@,
            strings_view(args@),
        ),
{
    if validate_arg_count(args, 1, 1).is_err() {
        return CommandOutcome::response_only(bad_request());
    }
    let user_uuid = match &state.user_uuid {
        Some(u) => u.clone(),
        None => {
            return CommandOutcome::response_only(unauthorized());
        },
    };
    let team_uuid = args[0].as_str();
    if storage.team(team_uuid).is_none() {
        return CommandOutcome::response_only(not_found(team_uuid));
    }
    users.unsubscribe_from_team(user_uuid.as_str(), team_uuid);
    let words = vec!["UNSUBSCRIBED".to_owned(), user_uuid.clone(), team_uuid.to_owned()];
    let r = outcome(
        words_reply(&words),
        Vec::new(),
        one_event(event2(EventKind::UserUnsubscribed, team_uuid.to_owned(), user_uuid)),
        Persist::Nothing,
    );
    proof {
        let spec = unsubscribe_cmd_spec(
            old(state)@,
            old(users)@,
            old(storage)@,
            strings_view(args@),
        );
        assert(strings_view(words@) =~= seq![
            "UNSUBSCRIBED"@,
            state@.user_uuid.unwrap(),
            args@[0]@,
        ]);
        assert(r@.info_events =~= spec.outcome.info_events);
        assert(r@.events =~= spec.outcome.events);
    }
    r
}

/// Lists the subscribers of a team, or the teams of the logged-in user.
pub fn handle_subscribed(
    state: &mut SessionState,
    users: &mut UserStore,
    storage: &mut ServerStorage,
    args: &[String],
) -> (r: CommandOutcome)
    requires
        old(users).wf(),
    ensures
        final(users).wf(),
        step_of(*final(state), *final(users), *final(storage), r) == subscribed_spec(
            old(state)@,
            old(users)@,
            old(storage)@,
            strings_view(args@),
        ),
{
    if validate_arg_count(args, 0, 1).is_err() {
        return CommandOutcome::response_only(bad_request());
    }
    let requester_uuid = match &state.user_uuid {
        Some(u) => u.as_str(),
        None => {
            return CommandOutcome::response_only(unauthorized());
        },
    };
    if args.len() == 1 {
        let team_uuid = args[0].as_str();
        if storage.team(team_uuid).is_none() {
            return CommandOutcome::response_only(not_found(team_uuid));
        }
        let ids = users.subscribed_user_ids(team_uuid);
        let ghost iv = ids.deep_view();
        proof {
            lemma_sorted_listing(iv);
        }
        let mut chunks: Vec<String> = vec!["USERS".to_owned()];
        let mut i: usize = 0;
        while i < ids.len()
            invariant
                users.wf(),
                i <= ids@.len(),
                iv == ids.deep_view(),
                strings_view(chunks@) == seq!["USERS"@] + subscriber_rows(
                    users@,
                    iv.subrange(0, i as int),
                ),
            decreases ids@.len() - i,
        {
            assert(iv.subrange(0, i + 1).drop_last() =~= iv.subrange(0, i as int));
            match users.user_details(ids[i].as_str()) {
                Some((user_name, is_online)) => {
                    push_words3(&mut chunks, ids[i].clone(), user_name, flag_word(is_online));
                },
                None => {},
            }
            i = i + 1;
            assert(strings_view(chunks@) =~= seq!["USERS"@] + subscriber_rows(
                users@,
                iv.subrange(0, i as int),
            ));
        }
        assert(iv.subrange(0, i as int) =~= iv);
        return CommandOutcome::response_only(words_reply(&chunks));
    }
    let ids = users.subscribed_team_ids(requester_uuid);
    let ghost iv = ids.deep_view();
    proof {
        lemma_sorted_listing(iv);
    }
    let mut chunks: Vec<String> = vec!["TEAMS".to_owned()];
    let mut i: usize = 0;
    while i < ids.len()
        invariant
            i <= ids@.len(),
            iv == ids.deep_view(),
            strings_view(chunks@) == seq!["TEAMS"@] + subscribed_team_rows(
                storage@.teams,
                iv.subrange(0, i as int),
            ),
        decreases ids@.len() - i,
    {
        assert(iv.subrange(0, i + 1).drop_last() =~= iv.subrange(0, i as int));
        match storage.team(ids[i].as_str()) {
            Some(team) => {
                push_words3(
                    &mut chunks,
                    team.uuid.clone(),
                    team.name.clone(),
                    team.description.clone(),
                );
            },
            None => {},
        }
        i = i + 1;
        assert(strings_view(chunks@) =~= seq!["TEAMS"@] + subscribed_team_rows(
            storage@.teams,
            iv.subrange(0, i as int),
        ));
    }
    assert(iv.subrange(0, i as int) =~= iv);
    CommandOutcome::response_only(words_reply(&chunks))
}

/// Selects a team, channel and thread for the session.
pub fn handle_use(
    state: &mut SessionState,
    users: &mut UserStore,
    storage: &mut ServerStorage,
    args: &[String],
) -> (r: CommandOutcome)
    requires
        old(users).wf(),
    ensures
        final(users).wf(),
        step_of(*final(state), *final(users), *final(storage), r) == use_spec(
            old(state)@,
            old(users)@,
            old(storage)@,
            strings_view(args@),
        ),
{
    if validate_arg_count(args, 0, 3).is_err() {
        return CommandOutcome::response_only(bad_request());
    }
    match validate_use_context(storage, args) {
        Err(target) => {
            if target.as_str().is_empty() {
                return CommandOutcome::response_only(bad_request());
            }
            CommandOutcome::response_only(response(404, Some(target.as_str())))
        },
        Ok(()) => {
            set_context(state, args);
            CommandOutcome::response_only(response(200, None))
        },
    }
}

} // verus!
