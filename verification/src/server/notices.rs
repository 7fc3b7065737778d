//! What the notices of created resources tell the clients that receive them.
use vstd::prelude::*;

use crate::client::info::{
    info_event_spec, lemma_channel_notice, lemma_private_message_reaches_log, lemma_thread_notice,
    no_nul,
};
use crate::client::responses::has_nul;
use crate::server::answers::lemma_send_stores;
use crate::server::handlers::send_spec;
use crate::client::responses::ClientCall;
use crate::server::answers::{
    lemma_create_channel, lemma_create_thread, lemma_info_thread, lemma_list_team,
};
use crate::client::readback::{lemma_listing_answer_read, lemma_thread_answer_read, triple_calls};
use crate::client::responses::pending_events;
use crate::client::types::PendingView;
use crate::server::resources::{info_spec, list_spec};
use crate::server::shared::words_response;
use crate::server::storage::thread_at;
use crate::text::int_text;
use crate::server::resources::{
    channel_name_taken, create_spec, fields_ok, subscribers_of, thread_title_taken,
};
use crate::server::session::SessionView;
use crate::server::shared::{context_of, ContextView};
use crate::server::storage::{channel_at, team_at, StorageView};
use crate::server::users::UserStoreView;
use crate::wire::{all_non_empty, lemma_response_code_round_trip, lemma_response_round_trip};
use crate::server::handlers::login_spec;
use crate::client::responses::response_step;
use crate::client::types::ClientView;

verus! {

/// A channel created in team `t` with name `n` and description `d` is
/// reported by the client of each subscriber of the team as the creation of
/// a channel with the new uuid, `n` and `d`.
pub proof fn lemma_channel_creation_reaches_subscribers(
    s: SessionView,
    u: UserStoreView,
    st: StorageView,
    t: Seq<char>,
    args: Seq<Seq<char>>,
    fresh: Seq<char>,
    ts: i64,
)
    requires
        s.user_uuid is Some,
        context_of(s) == ContextView::Team(t),
        fields_ok(args, 32, 255),
        team_at(st.teams, t) is Some,
        !channel_name_taken(team_at(st.teams, t)->0.channels, args[0]),
        t.len() > 0,
        fresh.len() > 0,
        no_nul(seq![fresh, args[0], args[1]]),
    ensures
        ({
            let ev = create_spec(s, u, st, args, fresh, ts).outcome.info_events;
            &&& ev.len() == subscribers_of(u, t).len()
            &&& forall|i: int|
                0 <= i < ev.len() ==> (#[trigger] ev[i]).0 == subscribers_of(u, t)[i]
                    && info_event_spec(ev[i].1) == Some(
                    (ClientCall::EventChannelCreated, seq![fresh, args[0], args[1]], 0i64),
                )
        }),
{
    lemma_create_channel(s, u, st, t, args, fresh, ts);
    assert(all_non_empty(seq![t, fresh, args[0], args[1]])) by {
        assert(args[0].len() > 0 && args[1].len() > 0);
    }
    lemma_channel_notice(t, fresh, args[0], args[1]);
}

/// A thread created in channel `c` of team `t` with title `ti` and body `b`
/// is reported by the client of each subscriber of the team as a thread with
/// the new uuid, the author, the time of the request, `ti` and `b`.
pub proof fn lemma_thread_creation_reaches_subscribers(
    s: SessionView,
    u: UserStoreView,
    st: StorageView,
    t: Seq<char>,
    c: Seq<char>,
    args: Seq<Seq<char>>,
    fresh: Seq<char>,
    ts: i64,
)
    requires
        s.user_uuid is Some,
        context_of(s) == ContextView::Channel(t, c),
        fields_ok(args, 32, 512),
        channel_at(st.teams, t, c) is Some,
        !thread_title_taken(channel_at(st.teams, t, c)->0.threads, args[0]),
        t.len() > 0,
        c.len() > 0,
        fresh.len() > 0,
        (s.user_uuid->0).len() > 0,
        no_nul(seq![fresh, s.user_uuid->0, args[0], args[1]]),
    ensures
        ({
            let ev = create_spec(s, u, st, args, fresh, ts).outcome.info_events;
            &&& ev.len() == subscribers_of(u, t).len()
            &&& forall|i: int|
                0 <= i < ev.len() ==> (#[trigger] ev[i]).0 == subscribers_of(u, t)[i]
                    && info_event_spec(ev[i].1) == Some(
                    (
                        ClientCall::EventThreadCreated,
                        seq![fresh, s.user_uuid->0, args[0], args[1]],
                        ts,
                    ),
                )
        }),
{
    let me = s.user_uuid->0;
    lemma_create_thread(s, u, st, t, c, args, fresh, ts);
    assert(all_non_empty(seq![t, c, fresh, me, args[0], args[1]])) by {
        assert(args[0].len() > 0 && args[1].len() > 0);
    }
    lemma_thread_notice(t, c, fresh, me, ts, args[0], args[1]);
}


/// A message sent to a known user reaches that user's client alone, which
/// reports a private message from the sender with the body sent.
pub proof fn lemma_message_reaches_recipient(
    s: SessionView,
    u: UserStoreView,
    st: StorageView,
    args: Seq<Seq<char>>,
    ts: i64,
)
    requires
        s.user_uuid is Some,
        args.len() == 2,
        args[0].len() > 0,
        args[1].len() > 0,
        u.by_uuid.contains_key(args[0]),
        !has_nul(s.user_uuid->0),
        !has_nul(args[1]),
    ensures
        ({
            let ev = send_spec(s, u, st, args, ts).outcome.info_events;
            &&& ev.len() == 1
            &&& ev[0].0 == args[0]
            &&& info_event_spec(ev[0].1) == Some(
                (ClientCall::EventPrivateMessageReceived, seq![s.user_uuid->0, args[1]], 0i64),
            )
        }),
{
    lemma_send_stores(s, u, st, args, ts);
    lemma_private_message_reaches_log(s.user_uuid->0, args[1]);
}


/// The channels of a team, listed by the server in the team's context, are
/// reported by the client that asked one call per channel, in order, each
/// with the channel's uuid, name and description in that order.
pub proof fn lemma_channel_listing_reaches_client(
    s: SessionView,
    u: UserStoreView,
    st: StorageView,
    t: Seq<char>,
)
    requires
        s.user_uuid is Some,
        context_of(s) == ContextView::Team(t),
        team_at(st.teams, t) is Some,
        forall|i: int|
            0 <= i < team_at(st.teams, t)->0.channels.len() ==> {
                let ch = #[trigger] team_at(st.teams, t)->0.channels[i];
                &&& all_non_empty(seq![ch.uuid, ch.name, ch.description])
                &&& no_nul(seq![ch.uuid, ch.name, ch.description])
            },
    ensures
        ({
            let chs = team_at(st.teams, t)->0.channels;
            let calls = pending_events(
                Some(PendingView::ListChannels { team_uuid: t }),
                200,
                list_spec(s, u, st, Seq::empty()).outcome.response,
            );
            &&& calls.1 is Ok
            &&& calls.0.len() == chs.len()
            &&& forall|i: int|
                0 <= i < chs.len() ==> calls.0[i] == (
                    ClientCall::PrintChannel,
                    seq![(#[trigger] chs[i]).uuid, chs[i].name, chs[i].description],
                    0i64,
                )
        }),
{
    let chs = team_at(st.teams, t)->0.channels;
    lemma_list_team(s, u, st, t);
    let ws = choose|ws: Seq<Seq<char>>|
        {
            &&& list_spec(s, u, st, Seq::empty()).outcome.response == words_response(ws)
            &&& ws.len() == 1 + 3 * chs.len()
            &&& ws[0] == "CHANNELS"@
            &&& forall|i: int|
                0 <= i < chs.len() ==> ws[1 + 3 * i] == (#[trigger] chs[i]).uuid && ws[2 + 3 * i]
                    == chs[i].name && ws[3 + 3 * i] == chs[i].description
        };
    let vals = ws.drop_first();
    assert(ws =~= seq!["CHANNELS"@] + vals);
    assert forall|j: int| 0 <= j < vals.len() implies (#[trigger] vals[j]).len() > 0 && !crate::client::responses::has_nul(vals[j]) by {
        let i = j / 3;
        assert(0 <= i < chs.len());
        let ch = chs[i];
        assert(all_non_empty(seq![ch.uuid, ch.name, ch.description]));
        assert(no_nul(seq![ch.uuid, ch.name, ch.description]));
        assert(ws[1 + 3 * i] == ch.uuid);
        if j % 3 == 0 {
            assert(vals[j] == ch.uuid);
            assert(seq![ch.uuid, ch.name, ch.description][0] == ch.uuid);
        } else if j % 3 == 1 {
            assert(vals[j] == ch.name);
            assert(seq![ch.uuid, ch.name, ch.description][1] == ch.name);
        } else {
            assert(vals[j] == ch.description);
            assert(seq![ch.uuid, ch.name, ch.description][2] == ch.description);
        }
    }
    lemma_listing_answer_read(vals, t);
    let calls = triple_calls(ClientCall::PrintChannel, vals);
    assert forall|i: int| 0 <= i < chs.len() implies calls[i] == (
        ClientCall::PrintChannel,
        seq![(#[trigger] chs[i]).uuid, chs[i].name, chs[i].description],
        0i64,
    ) by {
        assert(ws[1 + 3 * i] == chs[i].uuid);
        assert(vals[3 * i] == ws[1 + 3 * i]);
        assert(vals[3 * i + 1] == ws[2 + 3 * i]);
        assert(vals[3 * i + 2] == ws[3 + 3 * i]);
    }
}

/// A thread described by the server in its context is reported by the
/// client that asked `INFO` as that thread: uuid, author, title and body in
/// that order, at its time.
pub proof fn lemma_thread_info_reaches_client(
    s: SessionView,
    u: UserStoreView,
    st: StorageView,
    t: Seq<char>,
    c: Seq<char>,
    th: Seq<char>,
)
    requires
        s.user_uuid is Some,
        context_of(s) == ContextView::Thread(t, c, th),
        thread_at(st.teams, t, c, th) is Some,
        ({
            let x = thread_at(st.teams, t, c, th)->0;
            all_non_empty(seq![x.uuid, x.user_uuid, x.title, x.body]) && no_nul(
                seq![x.uuid, x.user_uuid, x.title, x.body],
            )
        }),
    ensures
        ({
            let x = thread_at(st.teams, t, c, th)->0;
            pending_events(
                Some(PendingView::InfoThread { team_uuid: t, channel_uuid: c, thread_uuid: th }),
                200,
                info_spec(s, u, st, Seq::empty()).outcome.response,
            ) == (
                seq![(ClientCall::PrintThread, seq![x.uuid, x.user_uuid, x.title, x.body], x.timestamp)],
                Ok::<(), crate::client::types::ClientErrorView>(()),
            )
        }),
{
    let x = thread_at(st.teams, t, c, th)->0;
    lemma_info_thread(s, u, st, t, c, th);
    lemma_thread_answer_read(x.uuid, x.user_uuid, x.timestamp, x.title, x.body, t, c, th);
}

/// The server's answer to `LOGIN "n"`, the user's uuid, makes the client
/// that asked record the name `n` and that uuid as its own, and report
/// nothing.
pub proof fn lemma_login_answer_reaches_client(
    s: SessionView,
    u: UserStoreView,
    st: StorageView,
    name: Seq<char>,
    fresh: Seq<char>,
    c: ClientView,
)
    requires
        name.len() > 0,
        login_spec(s, u, st, seq![name], fresh).session.user_uuid->0.len() > 0,
    ensures
        ({
            let step = login_spec(s, u, st, seq![name], fresh);
            let id = step.session.user_uuid->0;
            response_step(
                ClientView { pending: Some(PendingView::Login { user_name: name }), ..c },
                step.outcome.response,
            ) == (
                ClientView { user_name: Some(name), user_uuid: Some(id), pending: None, ..c },
                (Seq::<(ClientCall, Seq<Seq<char>>, i64)>::empty(), Ok::<(), crate::client::types::ClientErrorView>(())),
            )
        }),
{
    let step = login_spec(s, u, st, seq![name], fresh);
    let id = step.session.user_uuid->0;
    assert(step.session.user_uuid == Some(id));
    let resp = step.outcome.response;
    assert(resp == words_response(seq![id]));
    lemma_response_code_round_trip(200, Some(crate::wire::join_quoted(seq![id])));
    assert(all_non_empty(seq![id]));
    lemma_response_round_trip(200, seq![id]);
}

} // verus!
