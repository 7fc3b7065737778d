//! Properties of the server commands taken together: what one command
//! leaves, the next one reads back.
use vstd::prelude::*;

use crate::server::dispatch::{dispatch_spec, kind_of, registry_spec, CommandKind};
use crate::server::storage::{is_first_match, lemma_first_match};
use crate::server::handlers::{messages_spec, reply_only, send_spec, use_spec};
use crate::server::protocol::{request_accepted, request_tokens, response_spec, uppercase_of};
use crate::server::resources::{create_spec, fields_ok, info_spec, list_spec, team_rows};
use crate::server::session::SessionView;
use crate::server::shared::{context_of, team_words, use_refusal, words_response, ContextView};
use crate::server::storage::{
    conversation_spec, lemma_conversation_append, lemma_conversation_symmetric, team_at,
    MessageRecord, StorageView, TeamRecord,
};
use crate::server::users::{
    listing_ok, lemma_listing_unique, lemma_online_ids, logout_spec, row_online,
    users_listing, UserStoreView,
};
use crate::server::handlers::{info_line_spec, login_spec, logout_cmd_spec};
use crate::server::handlers::message_rows;
use crate::text::int_text;

verus! {

/// Without a login, every well-formed request but `LOGIN` and `USE` is
/// answered `401 unauthorized` and changes nothing.
pub proof fn lemma_login_required(
    s: SessionView,
    u: UserStoreView,
    st: StorageView,
    line: Seq<char>,
    fresh: Seq<char>,
    ts: i64,
)
    requires
        s.user_uuid is None,
        request_accepted(line),
        uppercase_of(request_tokens(line)[0]) != "LOGIN"@,
        uppercase_of(request_tokens(line)[0]) != "USE"@,
    ensures
        dispatch_spec(s, u, st, line, fresh, ts) == reply_only(
            s,
            u,
            st,
            response_spec(401, Some("\"unauthorized\""@)),
        ),
{
}

/// A malformed request line is answered `501 bad request` and changes
/// nothing.
pub proof fn lemma_malformed_refused(
    s: SessionView,
    u: UserStoreView,
    st: StorageView,
    line: Seq<char>,
    fresh: Seq<char>,
    ts: i64,
)
    requires
        !request_accepted(line),
    ensures
        dispatch_spec(s, u, st, line, fresh, ts) == reply_only(
            s,
            u,
            st,
            crate::server::shared::bad_request_view(),
        ),
{
}

/// Creating a team under a name a team already has is refused with `409`
/// and changes nothing.
pub proof fn lemma_duplicate_team_refused(
    s: SessionView,
    u: UserStoreView,
    st: StorageView,
    args: Seq<Seq<char>>,
    fresh: Seq<char>,
    ts: i64,
)
    requires
        s.user_uuid is Some,
        context_of(s) == ContextView::Root,
        fields_ok(args, 32, 255),
        crate::server::resources::team_name_taken(st.teams, args[0]),
    ensures
        create_spec(s, u, st, args, fresh, ts) == reply_only(
            s,
            u,
            st,
            crate::server::resources::conflict_view(),
        ),
{
}

/// A team created at the root under a name no team has is listed last by
/// the next `LIST` there.
pub proof fn lemma_create_team_then_list(
    s: SessionView,
    u: UserStoreView,
    st: StorageView,
    args: Seq<Seq<char>>,
    fresh: Seq<char>,
    ts: i64,
)
    requires
        s.user_uuid is Some,
        context_of(s) == ContextView::Root,
        fields_ok(args, 32, 255),
        !crate::server::resources::team_name_taken(st.teams, args[0]),
    ensures
        ({
            let after = create_spec(s, u, st, args, fresh, ts);
            list_spec(after.session, after.users, after.storage, Seq::empty()).outcome.response
                == words_response(
                seq!["TEAMS"@] + team_rows(st.teams) + seq![fresh, args[0], args[1]],
            )
        }),
{
    let team = TeamRecord { uuid: fresh, name: args[0], description: args[1], channels: Seq::empty() };
    assert(st.teams.push(team).drop_last() =~= st.teams);
    assert(seq!["TEAMS"@] + team_rows(st.teams.push(team)) =~= seq!["TEAMS"@] + team_rows(st.teams)
        + seq![fresh, args[0], args[1]]);
}

/// A message sent is the last one the recipient then lists with the sender.
pub proof fn lemma_send_then_messages(
    s: SessionView,
    u: UserStoreView,
    st: StorageView,
    args: Seq<Seq<char>>,
    ts: i64,
    recipient_session: SessionView,
)
    requires
        s.user_uuid is Some,
        args.len() == 2,
        args[0].len() > 0,
        u.by_uuid.contains_key(args[0]),
        u.by_uuid.contains_key(s.user_uuid->0),
        recipient_session.user_uuid == Some(args[0]),
    ensures
        ({
            let sender = s.user_uuid->0;
            let after = send_spec(s, u, st, args, ts);
            messages_spec(recipient_session, after.users, after.storage, seq![sender]).outcome.response
                == words_response(
                seq!["MESSAGES"@] + message_rows(conversation_spec(st.messages, args[0], sender))
                    + seq![sender, int_text(ts as int), args[1]],
            )
        }),
{
    let sender = s.user_uuid->0;
    let x = MessageRecord { sender_uuid: sender, recipient_uuid: args[0], timestamp: ts, body: args[1] };
    lemma_conversation_append(st.messages, x);
    let c = conversation_spec(st.messages, args[0], sender);
    assert(c.push(x).drop_last() =~= c);
    assert(seq!["MESSAGES"@] + message_rows(c.push(x)) =~= seq!["MESSAGES"@] + message_rows(c)
        + seq![sender, int_text(ts as int), args[1]]);
}

/// Once `USE` of an existing team succeeds, `INFO` describes that team.
pub proof fn lemma_use_team_then_info(
    s: SessionView,
    u: UserStoreView,
    st: StorageView,
    t: Seq<char>,
)
    requires
        s.user_uuid is Some,
        t.len() > 0,
        team_at(st.teams, t) is Some,
    ensures
        ({
            let after = use_spec(s, u, st, seq![t]);
            &&& after.outcome.response == response_spec(200, None)
            &&& info_spec(after.session, after.users, after.storage, Seq::empty()).outcome.response
                == words_response(team_words(team_at(st.teams, t)->0))
        }),
{
    let args = seq![t];
    assert(!exists|i: int| 0 <= i < args.len() && (#[trigger] args[i]).len() == 0);
    assert(use_refusal(st.teams, args) is None);
}


/// `LOGIN` tells of the login exactly the users listed online after it, in
/// listing order, the user who logged in among them: for any listing of the
/// users after the login, the info lines go to its rows flagged online, each
/// carrying `I100 USER_LOGGED_IN "<uuid>" "<name>"`.
pub proof fn lemma_login_notifies_online(
    s: SessionView,
    u: UserStoreView,
    st: StorageView,
    args: Seq<Seq<char>>,
    fresh: Seq<char>,
    rows: Seq<(Seq<char>, Seq<char>, bool)>,
)
    requires
        args.len() == 1,
        args[0].len() > 0,
        listing_ok(login_spec(s, u, st, args, fresh).users, rows),
    ensures
        ({
            let step = login_spec(s, u, st, args, fresh);
            let id = step.session.user_uuid->0;
            let line = info_line_spec("I100 USER_LOGGED_IN "@, seq![id, args[0]]);
            step.outcome.info_events == rows.filter(
                |r: (Seq<char>, Seq<char>, bool)| row_online(r),
            ).map_values(|r: (Seq<char>, Seq<char>, bool)| (r.0, line))
        }),
{
    let step = login_spec(s, u, st, args, fresh);
    let id = step.session.user_uuid->0;
    let line = info_line_spec("I100 USER_LOGGED_IN "@, seq![id, args[0]]);
    lemma_listing_unique(step.users, rows);
    lemma_online_ids(rows);
    let f = rows.filter(|r: (Seq<char>, Seq<char>, bool)| row_online(r));
    assert(step.outcome.info_events =~= f.map_values(|r: (Seq<char>, Seq<char>, bool)| (r.0, line)));
}

/// `LOGOUT` of a known user tells of the logout exactly the users listed
/// online after it, in listing order: for any listing of the users after the
/// logout, the info lines go to its rows flagged online, each carrying
/// `I100 USER_LOGGED_OUT "<uuid>" "<name>"`.
pub proof fn lemma_logout_notifies_online(
    s: SessionView,
    u: UserStoreView,
    st: StorageView,
    id: Seq<char>,
    rows: Seq<(Seq<char>, Seq<char>, bool)>,
)
    requires
        s.user_uuid == Some(id),
        u.by_uuid.contains_key(id),
        listing_ok(logout_spec(u, id), rows),
    ensures
        ({
            let step = logout_cmd_spec(s, u, st, Seq::empty());
            let line = info_line_spec("I100 USER_LOGGED_OUT "@, seq![id, u.by_uuid[id]]);
            &&& step.session.user_uuid is None
            &&& step.outcome.response == response_spec(200, None)
            &&& step.outcome.info_events == rows.filter(
                |r: (Seq<char>, Seq<char>, bool)| row_online(r),
            ).map_values(|r: (Seq<char>, Seq<char>, bool)| (r.0, line))
        }),
{
    let step = logout_cmd_spec(s, u, st, Seq::empty());
    let line = info_line_spec("I100 USER_LOGGED_OUT "@, seq![id, u.by_uuid[id]]);
    lemma_listing_unique(logout_spec(u, id), rows);
    lemma_online_ids(rows);
    let f = rows.filter(|r: (Seq<char>, Seq<char>, bool)| row_online(r));
    assert(step.outcome.info_events =~= f.map_values(|r: (Seq<char>, Seq<char>, bool)| (r.0, line)));
}

/// The command words a client sends name their commands in the registry:
/// each `CREATE_*` word names `CREATE`, each `LIST_*` word `LIST`, each
/// `INFO_*` word `INFO`, and the other words the command of the same name.
#[verifier::rlimit(100)]
#[verifier::spinoff_prover]
pub proof fn lemma_command_words()
    ensures
        kind_of("CREATE_CHAN"@) == Some(CommandKind::Create),
        kind_of("CREATE_REP"@) == Some(CommandKind::Create),
        kind_of("CREATE_TEAM"@) == Some(CommandKind::Create),
        kind_of("CREATE_THREAD"@) == Some(CommandKind::Create),
        kind_of("INFO_CHAN"@) == Some(CommandKind::Info),
        kind_of("INFO_TEAM"@) == Some(CommandKind::Info),
        kind_of("INFO_THREAD"@) == Some(CommandKind::Info),
        kind_of("INFO_USER"@) == Some(CommandKind::Info),
        kind_of("LIST_CHANS"@) == Some(CommandKind::List),
        kind_of("LIST_REPS"@) == Some(CommandKind::List),
        kind_of("LIST_TEAMS"@) == Some(CommandKind::List),
        kind_of("LIST_THREADS"@) == Some(CommandKind::List),
        kind_of("LOGIN"@) == Some(CommandKind::Login),
        kind_of("LOGOUT"@) == Some(CommandKind::Logout),
        kind_of("MESSAGES"@) == Some(CommandKind::Messages),
        kind_of("SEND"@) == Some(CommandKind::Send),
        kind_of("USE"@) == Some(CommandKind::Use),
        kind_of("USER"@) == Some(CommandKind::User),
        kind_of("USERS"@) == Some(CommandKind::Users),
{
    let reg = registry_spec();
    let keys = reg.map_values(|d: (Seq<char>, Seq<char>, Seq<char>, CommandKind)| d.0);
    reveal_strlit("CREATE");
    reveal_strlit("CREATE_CHAN");
    reveal_strlit("CREATE_REP");
    reveal_strlit("CREATE_TEAM");
    reveal_strlit("CREATE_THREAD");
    reveal_strlit("HELP");
    reveal_strlit("INFO");
    reveal_strlit("INFO_CHAN");
    reveal_strlit("INFO_TEAM");
    reveal_strlit("INFO_THREAD");
    reveal_strlit("INFO_USER");
    reveal_strlit("LIST");
    reveal_strlit("LIST_CHANS");
    reveal_strlit("LIST_REPS");
    reveal_strlit("LIST_TEAMS");
    reveal_strlit("LIST_THREADS");
    reveal_strlit("LOGIN");
    reveal_strlit("LOGOUT");
    reveal_strlit("MESSAGES");
    reveal_strlit("SEND");
    reveal_strlit("SUBSCRIBE");
    reveal_strlit("SUBSCRIBED");
    reveal_strlit("UNSUBSCRIBE");
    reveal_strlit("USE");
    reveal_strlit("USER");
    reveal_strlit("USERS");
    assert forall|j: int| 0 <= j < 1 implies keys[j] != "CREATE_CHAN"@ by {
        let a = keys[j];
        let b = "CREATE_CHAN"@;
        assert(a == reg[j].0);
        if a.len() == b.len() && a[0] == b[0] {
            assert(a[5] != b[5] || a[7] != b[7]);
        }
    }
    assert(keys[1] == "CREATE_CHAN"@);
    lemma_first_match(keys, "CREATE_CHAN"@);
    assert(is_first_match(keys, "CREATE_CHAN"@, 1));
    assert forall|j: int| 0 <= j < 2 implies keys[j] != "CREATE_REP"@ by {
        let a = keys[j];
        let b = "CREATE_REP"@;
        assert(a == reg[j].0);
        if a.len() == b.len() && a[0] == b[0] {
            assert(a[5] != b[5] || a[7] != b[7]);
        }
    }
    assert(keys[2] == "CREATE_REP"@);
    lemma_first_match(keys, "CREATE_REP"@);
    assert(is_first_match(keys, "CREATE_REP"@, 2));
    assert forall|j: int| 0 <= j < 3 implies keys[j] != "CREATE_TEAM"@ by {
        let a = keys[j];
        let b = "CREATE_TEAM"@;
        assert(a == reg[j].0);
        if a.len() == b.len() && a[0] == b[0] {
            assert(a[5] != b[5] || a[7] != b[7]);
        }
    }
    assert(keys[3] == "CREATE_TEAM"@);
    lemma_first_match(keys, "CREATE_TEAM"@);
    assert(is_first_match(keys, "CREATE_TEAM"@, 3));
    assert forall|j: int| 0 <= j < 4 implies keys[j] != "CREATE_THREAD"@ by {
        let a = keys[j];
        let b = "CREATE_THREAD"@;
        assert(a == reg[j].0);
        if a.len() == b.len() && a[0] == b[0] {
            assert(a[5] != b[5] || a[7] != b[7]);
        }
    }
    assert(keys[4] == "CREATE_THREAD"@);
    lemma_first_match(keys, "CREATE_THREAD"@);
    assert(is_first_match(keys, "CREATE_THREAD"@, 4));
    assert forall|j: int| 0 <= j < 7 implies keys[j] != "INFO_CHAN"@ by {
        let a = keys[j];
        let b = "INFO_CHAN"@;
        assert(a == reg[j].0);
        if a.len() == b.len() && a[0] == b[0] {
            assert(a[5] != b[5] || a[7] != b[7]);
        }
    }
    assert(keys[7] == "INFO_CHAN"@);
    lemma_first_match(keys, "INFO_CHAN"@);
    assert(is_first_match(keys, "INFO_CHAN"@, 7));
    assert forall|j: int| 0 <= j < 8 implies keys[j] != "INFO_TEAM"@ by {
        let a = keys[j];
        let b = "INFO_TEAM"@;
        assert(a == reg[j].0);
        if a.len() == b.len() && a[0] == b[0] {
            assert(a[5] != b[5] || a[7] != b[7]);
        }
    }
    assert(keys[8] == "INFO_TEAM"@);
    lemma_first_match(keys, "INFO_TEAM"@);
    assert(is_first_match(keys, "INFO_TEAM"@, 8));
    assert forall|j: int| 0 <= j < 9 implies keys[j] != "INFO_THREAD"@ by {
        let a = keys[j];
        let b = "INFO_THREAD"@;
        assert(a == reg[j].0);
        if a.len() == b.len() && a[0] == b[0] {
            assert(a[5] != b[5] || a[7] != b[7]);
        }
    }
    assert(keys[9] == "INFO_THREAD"@);
    lemma_first_match(keys, "INFO_THREAD"@);
    assert(is_first_match(keys, "INFO_THREAD"@, 9));
    assert forall|j: int| 0 <= j < 10 implies keys[j] != "INFO_USER"@ by {
        let a = keys[j];
        let b = "INFO_USER"@;
        assert(a == reg[j].0);
        if a.len() == b.len() && a[0] == b[0] {
            assert(a[5] != b[5] || a[7] != b[7]);
        }
    }
    assert(keys[10] == "INFO_USER"@);
    lemma_first_match(keys, "INFO_USER"@);
    assert(is_first_match(keys, "INFO_USER"@, 10));
    assert forall|j: int| 0 <= j < 12 implies keys[j] != "LIST_CHANS"@ by {
        let a = keys[j];
        let b = "LIST_CHANS"@;
        assert(a == reg[j].0);
        if a.len() == b.len() && a[0] == b[0] {
            assert(a[5] != b[5] || a[7] != b[7]);
        }
    }
    assert(keys[12] == "LIST_CHANS"@);
    lemma_first_match(keys, "LIST_CHANS"@);
    assert(is_first_match(keys, "LIST_CHANS"@, 12));
    assert forall|j: int| 0 <= j < 13 implies keys[j] != "LIST_REPS"@ by {
        let a = keys[j];
        let b = "LIST_REPS"@;
        assert(a == reg[j].0);
        if a.len() == b.len() && a[0] == b[0] {
            assert(a[5] != b[5] || a[7] != b[7]);
        }
    }
    assert(keys[13] == "LIST_REPS"@);
    lemma_first_match(keys, "LIST_REPS"@);
    assert(is_first_match(keys, "LIST_REPS"@, 13));
    assert forall|j: int| 0 <= j < 14 implies keys[j] != "LIST_TEAMS"@ by {
        let a = keys[j];
        let b = "LIST_TEAMS"@;
        assert(a == reg[j].0);
        if a.len() == b.len() && a[0] == b[0] {
            assert(a[5] != b[5] || a[7] != b[7]);
        }
    }
    assert(keys[14] == "LIST_TEAMS"@);
    lemma_first_match(keys, "LIST_TEAMS"@);
    assert(is_first_match(keys, "LIST_TEAMS"@, 14));
    assert forall|j: int| 0 <= j < 15 implies keys[j] != "LIST_THREADS"@ by {
        let a = keys[j];
        let b = "LIST_THREADS"@;
        assert(a == reg[j].0);
        if a.len() == b.len() && a[0] == b[0] {
            assert(a[5] != b[5] || a[7] != b[7]);
        }
    }
    assert(keys[15] == "LIST_THREADS"@);
    lemma_first_match(keys, "LIST_THREADS"@);
    assert(is_first_match(keys, "LIST_THREADS"@, 15));
    assert forall|j: int| 0 <= j < 16 implies keys[j] != "LOGIN"@ by {
        let a = keys[j];
        let b = "LOGIN"@;
        assert(a == reg[j].0);
        if a.len() == b.len() && a[0] == b[0] {
            assert(a[5] != b[5] || a[7] != b[7]);
        }
    }
    assert(keys[16] == "LOGIN"@);
    lemma_first_match(keys, "LOGIN"@);
    assert(is_first_match(keys, "LOGIN"@, 16));
    assert forall|j: int| 0 <= j < 17 implies keys[j] != "LOGOUT"@ by {
        let a = keys[j];
        let b = "LOGOUT"@;
        assert(a == reg[j].0);
        if a.len() == b.len() && a[0] == b[0] {
            assert(a[5] != b[5] || a[7] != b[7]);
        }
    }
    assert(keys[17] == "LOGOUT"@);
    lemma_first_match(keys, "LOGOUT"@);
    assert(is_first_match(keys, "LOGOUT"@, 17));
    assert forall|j: int| 0 <= j < 18 implies keys[j] != "MESSAGES"@ by {
        let a = keys[j];
        let b = "MESSAGES"@;
        assert(a == reg[j].0);
        if a.len() == b.len() && a[0] == b[0] {
            assert(a[5] != b[5] || a[7] != b[7]);
        }
    }
    assert(keys[18] == "MESSAGES"@);
    lemma_first_match(keys, "MESSAGES"@);
    assert(is_first_match(keys, "MESSAGES"@, 18));
    assert forall|j: int| 0 <= j < 19 implies keys[j] != "SEND"@ by {
        let a = keys[j];
        let b = "SEND"@;
        assert(a == reg[j].0);
        if a.len() == b.len() && a[0] == b[0] {
            assert(a[5] != b[5] || a[7] != b[7]);
        }
    }
    assert(keys[19] == "SEND"@);
    lemma_first_match(keys, "SEND"@);
    assert(is_first_match(keys, "SEND"@, 19));
    assert forall|j: int| 0 <= j < 23 implies keys[j] != "USE"@ by {
        let a = keys[j];
        let b = "USE"@;
        assert(a == reg[j].0);
        if a.len() == b.len() && a[0] == b[0] {
            assert(a[5] != b[5] || a[7] != b[7]);
        }
    }
    assert(keys[23] == "USE"@);
    lemma_first_match(keys, "USE"@);
    assert(is_first_match(keys, "USE"@, 23));
    assert forall|j: int| 0 <= j < 24 implies keys[j] != "USER"@ by {
        let a = keys[j];
        let b = "USER"@;
        assert(a == reg[j].0);
        if a.len() == b.len() && a[0] == b[0] {
            assert(a[5] != b[5] || a[7] != b[7]);
        }
    }
    assert(keys[24] == "USER"@);
    lemma_first_match(keys, "USER"@);
    assert(is_first_match(keys, "USER"@, 24));
    assert forall|j: int| 0 <= j < 25 implies keys[j] != "USERS"@ by {
        let a = keys[j];
        let b = "USERS"@;
        assert(a == reg[j].0);
        if a.len() == b.len() && a[0] == b[0] {
            assert(a[5] != b[5] || a[7] != b[7]);
        }
    }
    assert(keys[25] == "USERS"@);
    lemma_first_match(keys, "USERS"@);
    assert(is_first_match(keys, "USERS"@, 25));
}

} // verus!
