//! What the resource commands answer, stated word by word over the stored
//! records: which words `LIST` and `INFO` answer in each context, and what
//! `CREATE` stores and answers.
use vstd::prelude::*;

use crate::server::handlers::{
    info_line_spec, login_spec, message_rows, messages_spec, send_spec, subscribe_cmd_spec, subscribed_spec,
    subscriber_rows, subscribed_team_rows, unsubscribe_cmd_spec, use_spec, user_rows, user_spec,
    users_spec,
};
use crate::server::protocol::response_spec;
use crate::server::shared::use_refusal;
use crate::collections::sorted_listing;
use crate::server::resources::{
    channel_name_taken, channel_rows, create_spec, fields_ok, info_spec, list_spec, notify_all,
    reply_rows, subscribers_of, team_name_taken, team_rows, thread_rows, thread_title_taken,
};
use crate::server::session::{EventKind, SessionView};
use crate::server::shared::{context_of, words_response, ContextView};
use crate::server::storage::{
    is_first_match, add_channel_spec, add_reply_spec, add_thread_spec, first_match, lemma_first_match,
    channel_at, conversation_spec, team_at, thread_at, ChannelRecord, MessageRecord, ReplyRecord,
    StorageView, TeamRecord, ThreadRecord,
};
use crate::server::users::{
    lemma_listing_unique, listing_ok, members, online_in, UserStoreView,
};
use crate::text::int_text;

verus! {

/// The rows of listed teams: three words per team, uuid, name, description.
proof fn lemma_team_rows(teams: Seq<TeamRecord>)
    ensures
        team_rows(teams).len() == 3 * teams.len(),
        forall|i: int|
            0 <= i < teams.len() ==> team_rows(teams)[3 * i] == (#[trigger] teams[i]).uuid
                && team_rows(teams)[3 * i + 1] == teams[i].name && team_rows(teams)[3 * i + 2]
                == teams[i].description,
    decreases teams.len(),
{
    if teams.len() > 0 {
        let q = teams.drop_last();
        lemma_team_rows(q);
        assert forall|i: int| 0 <= i < teams.len() implies team_rows(teams)[3 * i] == (
        #[trigger] teams[i]).uuid && team_rows(teams)[3 * i + 1] == teams[i].name && team_rows(
            teams,
        )[3 * i + 2] == teams[i].description by {
            if i < q.len() {
                assert(teams[i] == q[i]);
            }
        }
    }
}

/// The rows of listed channels: three words per channel, uuid, name,
/// description.
proof fn lemma_channel_rows(chs: Seq<ChannelRecord>)
    ensures
        channel_rows(chs).len() == 3 * chs.len(),
        forall|i: int|
            0 <= i < chs.len() ==> channel_rows(chs)[3 * i] == (#[trigger] chs[i]).uuid
                && channel_rows(chs)[3 * i + 1] == chs[i].name && channel_rows(chs)[3 * i + 2]
                == chs[i].description,
    decreases chs.len(),
{
    if chs.len() > 0 {
        let q = chs.drop_last();
        lemma_channel_rows(q);
        assert forall|i: int| 0 <= i < chs.len() implies channel_rows(chs)[3 * i] == (
        #[trigger] chs[i]).uuid && channel_rows(chs)[3 * i + 1] == chs[i].name && channel_rows(
            chs,
        )[3 * i + 2] == chs[i].description by {
            if i < q.len() {
                assert(chs[i] == q[i]);
            }
        }
    }
}

/// The rows of listed threads: five words per thread, uuid, author,
/// timestamp, title, body.
proof fn lemma_thread_rows(ths: Seq<ThreadRecord>)
    ensures
        thread_rows(ths).len() == 5 * ths.len(),
        forall|i: int|
            0 <= i < ths.len() ==> thread_rows(ths)[5 * i] == (#[trigger] ths[i]).uuid
                && thread_rows(ths)[5 * i + 1] == ths[i].user_uuid && thread_rows(ths)[5 * i + 2]
                == int_text(ths[i].timestamp as int) && thread_rows(ths)[5 * i + 3] == ths[i].title
                && thread_rows(ths)[5 * i + 4] == ths[i].body,
    decreases ths.len(),
{
    if ths.len() > 0 {
        let q = ths.drop_last();
        lemma_thread_rows(q);
        assert forall|i: int| 0 <= i < ths.len() implies thread_rows(ths)[5 * i] == (
        #[trigger] ths[i]).uuid && thread_rows(ths)[5 * i + 1] == ths[i].user_uuid && thread_rows(
            ths,
        )[5 * i + 2] == int_text(ths[i].timestamp as int) && thread_rows(ths)[5 * i + 3]
            == ths[i].title && thread_rows(ths)[5 * i + 4] == ths[i].body by {
            if i < q.len() {
                assert(ths[i] == q[i]);
            }
        }
    }
}

/// The rows of listed replies: three words per reply, author, timestamp,
/// body.
proof fn lemma_reply_rows(rs: Seq<ReplyRecord>)
    ensures
        reply_rows(rs).len() == 3 * rs.len(),
        forall|i: int|
            0 <= i < rs.len() ==> reply_rows(rs)[3 * i] == (#[trigger] rs[i]).user_uuid
                && reply_rows(rs)[3 * i + 1] == int_text(rs[i].timestamp as int) && reply_rows(
                rs,
            )[3 * i + 2] == rs[i].body,
    decreases rs.len(),
{
    if rs.len() > 0 {
        let q = rs.drop_last();
        lemma_reply_rows(q);
        assert forall|i: int| 0 <= i < rs.len() implies reply_rows(rs)[3 * i] == (
        #[trigger] rs[i]).user_uuid && reply_rows(rs)[3 * i + 1] == int_text(
            rs[i].timestamp as int,
        ) && reply_rows(rs)[3 * i + 2] == rs[i].body by {
            if i < q.len() {
                assert(rs[i] == q[i]);
            }
        }
    }
}

/// `LIST` at the root answers `TEAMS` followed, for each team in order, by
/// its uuid, its name and its description.
pub proof fn lemma_list_root(s: SessionView, u: UserStoreView, st: StorageView)
    requires
        s.user_uuid is Some,
        context_of(s) == ContextView::Root,
    ensures
        exists|ws: Seq<Seq<char>>|
            {
                &&& list_spec(s, u, st, Seq::empty()).outcome.response == words_response(ws)
                &&& ws.len() == 1 + 3 * st.teams.len()
                &&& ws[0] == "TEAMS"@
                &&& forall|i: int|
                    0 <= i < st.teams.len() ==> ws[1 + 3 * i] == (#[trigger] st.teams[i]).uuid
                        && ws[2 + 3 * i] == st.teams[i].name && ws[3 + 3 * i]
                        == st.teams[i].description
            },
{
    lemma_team_rows(st.teams);
    let ws = seq!["TEAMS"@] + team_rows(st.teams);
    assert forall|i: int| 0 <= i < st.teams.len() implies ws[1 + 3 * i] == (
    #[trigger] st.teams[i]).uuid && ws[2 + 3 * i] == st.teams[i].name && ws[3 + 3 * i]
        == st.teams[i].description by {
        assert(ws[1 + 3 * i] == team_rows(st.teams)[3 * i]);
        assert(ws[2 + 3 * i] == team_rows(st.teams)[3 * i + 1]);
        assert(ws[3 + 3 * i] == team_rows(st.teams)[3 * i + 2]);
    }
    assert(list_spec(s, u, st, Seq::empty()).outcome.response == words_response(ws));
    assert(ws[0] == "TEAMS"@);
}

/// `LIST` in an existing team answers `CHANNELS` followed, for each channel
/// of the team in order, by its uuid, its name and its description.
pub proof fn lemma_list_team(s: SessionView, u: UserStoreView, st: StorageView, t: Seq<char>)
    requires
        s.user_uuid is Some,
        context_of(s) == ContextView::Team(t),
        team_at(st.teams, t) is Some,
    ensures
        ({
            let chs = team_at(st.teams, t)->0.channels;
            exists|ws: Seq<Seq<char>>|
                {
                    &&& list_spec(s, u, st, Seq::empty()).outcome.response == words_response(ws)
                    &&& ws.len() == 1 + 3 * chs.len()
                    &&& ws[0] == "CHANNELS"@
                    &&& forall|i: int|
                        0 <= i < chs.len() ==> ws[1 + 3 * i] == (#[trigger] chs[i]).uuid && ws[2 + 3
                            * i] == chs[i].name && ws[3 + 3 * i] == chs[i].description
                }
        }),
{
    let chs = team_at(st.teams, t)->0.channels;
    lemma_channel_rows(chs);
    let ws = seq!["CHANNELS"@] + channel_rows(chs);
    assert forall|i: int| 0 <= i < chs.len() implies ws[1 + 3 * i] == (#[trigger] chs[i]).uuid
        && ws[2 + 3 * i] == chs[i].name && ws[3 + 3 * i] == chs[i].description by {
        assert(ws[1 + 3 * i] == channel_rows(chs)[3 * i]);
        assert(ws[2 + 3 * i] == channel_rows(chs)[3 * i + 1]);
        assert(ws[3 + 3 * i] == channel_rows(chs)[3 * i + 2]);
    }
}

/// `LIST` in an existing channel answers `THREADS` followed, for each thread
/// of the channel in order, by its uuid, its author, its timestamp, its
/// title and its body.
pub proof fn lemma_list_channel(
    s: SessionView,
    u: UserStoreView,
    st: StorageView,
    t: Seq<char>,
    c: Seq<char>,
)
    requires
        s.user_uuid is Some,
        context_of(s) == ContextView::Channel(t, c),
        channel_at(st.teams, t, c) is Some,
    ensures
        ({
            let ths = channel_at(st.teams, t, c)->0.threads;
            exists|ws: Seq<Seq<char>>|
                {
                    &&& list_spec(s, u, st, Seq::empty()).outcome.response == words_response(ws)
                    &&& ws.len() == 1 + 5 * ths.len()
                    &&& ws[0] == "THREADS"@
                    &&& forall|i: int|
                        0 <= i < ths.len() ==> ws[1 + 5 * i] == (#[trigger] ths[i]).uuid && ws[2 + 5
                            * i] == ths[i].user_uuid && ws[3 + 5 * i] == int_text(
                            ths[i].timestamp as int,
                        ) && ws[4 + 5 * i] == ths[i].title && ws[5 + 5 * i] == ths[i].body
                }
        }),
{
    let ths = channel_at(st.teams, t, c)->0.threads;
    lemma_thread_rows(ths);
    let ws = seq!["THREADS"@] + thread_rows(ths);
    assert forall|i: int| 0 <= i < ths.len() implies ws[1 + 5 * i] == (#[trigger] ths[i]).uuid
        && ws[2 + 5 * i] == ths[i].user_uuid && ws[3 + 5 * i] == int_text(ths[i].timestamp as int)
        && ws[4 + 5 * i] == ths[i].title && ws[5 + 5 * i] == ths[i].body by {
        assert(ws[1 + 5 * i] == thread_rows(ths)[5 * i]);
        assert(ws[2 + 5 * i] == thread_rows(ths)[5 * i + 1]);
        assert(ws[3 + 5 * i] == thread_rows(ths)[5 * i + 2]);
        assert(ws[4 + 5 * i] == thread_rows(ths)[5 * i + 3]);
        assert(ws[5 + 5 * i] == thread_rows(ths)[5 * i + 4]);
    }
}

/// `LIST` in an existing thread answers `REPLIES` followed, for each reply
/// of the thread in order, by its author, its timestamp and its body.
pub proof fn lemma_list_thread(
    s: SessionView,
    u: UserStoreView,
    st: StorageView,
    t: Seq<char>,
    c: Seq<char>,
    th: Seq<char>,
)
    requires
        s.user_uuid is Some,
        context_of(s) == ContextView::Thread(t, c, th),
        thread_at(st.teams, t, c, th) is Some,
    ensures
        ({
            let rs = thread_at(st.teams, t, c, th)->0.replies;
            exists|ws: Seq<Seq<char>>|
                {
                    &&& list_spec(s, u, st, Seq::empty()).outcome.response == words_response(ws)
                    &&& ws.len() == 1 + 3 * rs.len()
                    &&& ws[0] == "REPLIES"@
                    &&& forall|i: int|
                        0 <= i < rs.len() ==> ws[1 + 3 * i] == (#[trigger] rs[i]).user_uuid && ws[2
                            + 3 * i] == int_text(rs[i].timestamp as int) && ws[3 + 3 * i]
                            == rs[i].body
                }
        }),
{
    let rs = thread_at(st.teams, t, c, th)->0.replies;
    lemma_reply_rows(rs);
    let ws = seq!["REPLIES"@] + reply_rows(rs);
    assert forall|i: int| 0 <= i < rs.len() implies ws[1 + 3 * i] == (#[trigger] rs[i]).user_uuid
        && ws[2 + 3 * i] == int_text(rs[i].timestamp as int) && ws[3 + 3 * i] == rs[i].body by {
        assert(ws[1 + 3 * i] == reply_rows(rs)[3 * i]);
        assert(ws[2 + 3 * i] == reply_rows(rs)[3 * i + 1]);
        assert(ws[3 + 3 * i] == reply_rows(rs)[3 * i + 2]);
    }
}


/// `INFO` at the root answers `USER`, the logged-in user's uuid, its name
/// and `1` or `0` for whether it is online.
pub proof fn lemma_info_root(s: SessionView, u: UserStoreView, st: StorageView, me: Seq<char>)
    requires
        s.user_uuid == Some(me),
        context_of(s) == ContextView::Root,
        u.by_uuid.contains_key(me),
    ensures
        info_spec(s, u, st, Seq::empty()).outcome.response == words_response(
            seq!["USER"@, me, u.by_uuid[me], if online_in(u, me) { "1"@ } else { "0"@ }],
        ),
{
}

/// `INFO` in an existing team answers `TEAM`, the team's uuid, its name and
/// its description.
pub proof fn lemma_info_team(s: SessionView, u: UserStoreView, st: StorageView, t: Seq<char>)
    requires
        s.user_uuid is Some,
        context_of(s) == ContextView::Team(t),
        team_at(st.teams, t) is Some,
    ensures
        ({
            let x = team_at(st.teams, t)->0;
            info_spec(s, u, st, Seq::empty()).outcome.response == words_response(
                seq!["TEAM"@, x.uuid, x.name, x.description],
            )
        }),
{
}

/// `INFO` in an existing channel answers `CHANNEL`, the channel's uuid, its
/// name and its description.
pub proof fn lemma_info_channel(
    s: SessionView,
    u: UserStoreView,
    st: StorageView,
    t: Seq<char>,
    c: Seq<char>,
)
    requires
        s.user_uuid is Some,
        context_of(s) == ContextView::Channel(t, c),
        channel_at(st.teams, t, c) is Some,
    ensures
        ({
            let x = channel_at(st.teams, t, c)->0;
            info_spec(s, u, st, Seq::empty()).outcome.response == words_response(
                seq!["CHANNEL"@, x.uuid, x.name, x.description],
            )
        }),
{
}

/// `INFO` in an existing thread answers `THREAD`, the thread's uuid, its
/// author, its timestamp, its title and its body.
pub proof fn lemma_info_thread(
    s: SessionView,
    u: UserStoreView,
    st: StorageView,
    t: Seq<char>,
    c: Seq<char>,
    th: Seq<char>,
)
    requires
        s.user_uuid is Some,
        context_of(s) == ContextView::Thread(t, c, th),
        thread_at(st.teams, t, c, th) is Some,
    ensures
        ({
            let x = thread_at(st.teams, t, c, th)->0;
            info_spec(s, u, st, Seq::empty()).outcome.response == words_response(
                seq!["THREAD"@, x.uuid, x.user_uuid, int_text(x.timestamp as int), x.title, x.body],
            )
        }),
{
}


/// The uuids of teams are kept by replacing a team with one of the same
/// uuid.
proof fn lemma_team_keys(teams: Seq<TeamRecord>, i: int, x: TeamRecord)
    requires
        0 <= i < teams.len(),
        x.uuid == teams[i].uuid,
    ensures
        teams.update(i, x).map_values(|y: TeamRecord| y.uuid) == teams.map_values(
            |y: TeamRecord| y.uuid,
        ),
{
    assert(teams.update(i, x).map_values(|y: TeamRecord| y.uuid) =~= teams.map_values(
        |y: TeamRecord| y.uuid,
    ));
}

/// The uuids of channels are kept by replacing a channel with one of the
/// same uuid.
proof fn lemma_channel_keys(chs: Seq<ChannelRecord>, i: int, x: ChannelRecord)
    requires
        0 <= i < chs.len(),
        x.uuid == chs[i].uuid,
    ensures
        chs.update(i, x).map_values(|y: ChannelRecord| y.uuid) == chs.map_values(
            |y: ChannelRecord| y.uuid,
        ),
{
    assert(chs.update(i, x).map_values(|y: ChannelRecord| y.uuid) =~= chs.map_values(
        |y: ChannelRecord| y.uuid,
    ));
}

/// The uuids of threads are kept by replacing a thread with one of the same
/// uuid.
proof fn lemma_thread_keys(ths: Seq<ThreadRecord>, i: int, x: ThreadRecord)
    requires
        0 <= i < ths.len(),
        x.uuid == ths[i].uuid,
    ensures
        ths.update(i, x).map_values(|y: ThreadRecord| y.uuid) == ths.map_values(
            |y: ThreadRecord| y.uuid,
        ),
{
    assert(ths.update(i, x).map_values(|y: ThreadRecord| y.uuid) =~= ths.map_values(
        |y: ThreadRecord| y.uuid,
    ));
}

/// Adding a channel to team `t` leaves the team found under `t` with that
/// channel appended to its channels, and the rest of the team as it was.
proof fn lemma_add_channel_found(teams: Seq<TeamRecord>, t: Seq<char>, ch: ChannelRecord)
    requires
        team_at(teams, t) is Some,
    ensures
        team_at(add_channel_spec(teams, t, ch), t) == Some(
            TeamRecord { channels: team_at(teams, t)->0.channels.push(ch), ..team_at(teams, t)->0 },
        ),
{
    let keys = teams.map_values(|y: TeamRecord| y.uuid);
    lemma_first_match(keys, t);
    let i = first_match(keys, t)->0;
    lemma_team_keys(teams, i, TeamRecord { channels: teams[i].channels.push(ch), ..teams[i] });
}

/// Adding a thread to channel `c` of team `t` leaves the channel found there
/// with that thread appended to its threads, and the rest as it was.
proof fn lemma_add_thread_found(teams: Seq<TeamRecord>, t: Seq<char>, c: Seq<char>, th: ThreadRecord)
    requires
        channel_at(teams, t, c) is Some,
    ensures
        channel_at(add_thread_spec(teams, t, c, th), t, c) == Some(
            ChannelRecord {
                threads: channel_at(teams, t, c)->0.threads.push(th),
                ..channel_at(teams, t, c)->0
            },
        ),
{
    let keys = teams.map_values(|y: TeamRecord| y.uuid);
    lemma_first_match(keys, t);
    let i = first_match(keys, t)->0;
    let ckeys = teams[i].channels.map_values(|y: ChannelRecord| y.uuid);
    lemma_first_match(ckeys, c);
    let j = first_match(ckeys, c)->0;
    let nc = ChannelRecord { threads: teams[i].channels[j].threads.push(th), ..teams[i].channels[j] };
    lemma_channel_keys(teams[i].channels, j, nc);
    let nt = TeamRecord { channels: teams[i].channels.update(j, nc), ..teams[i] };
    lemma_team_keys(teams, i, nt);
    let after = add_thread_spec(teams, t, c, th);
    assert(after == teams.update(i, nt));
    assert(team_at(after, t) == Some(nt));
}

/// Adding a reply to thread `th` leaves the thread found there with that
/// reply appended to its replies, and the rest as it was.
proof fn lemma_add_reply_found(
    teams: Seq<TeamRecord>,
    t: Seq<char>,
    c: Seq<char>,
    th: Seq<char>,
    r: ReplyRecord,
)
    requires
        thread_at(teams, t, c, th) is Some,
    ensures
        thread_at(add_reply_spec(teams, t, c, th, r), t, c, th) == Some(
            ThreadRecord {
                replies: thread_at(teams, t, c, th)->0.replies.push(r),
                ..thread_at(teams, t, c, th)->0
            },
        ),
{
    let keys = teams.map_values(|y: TeamRecord| y.uuid);
    lemma_first_match(keys, t);
    let i = first_match(keys, t)->0;
    let ckeys = teams[i].channels.map_values(|y: ChannelRecord| y.uuid);
    lemma_first_match(ckeys, c);
    let j = first_match(ckeys, c)->0;
    let tkeys = teams[i].channels[j].threads.map_values(|y: ThreadRecord| y.uuid);
    lemma_first_match(tkeys, th);
    let k = first_match(tkeys, th)->0;
    let x = teams[i].channels[j].threads[k];
    let nx = ThreadRecord { replies: x.replies.push(r), ..x };
    lemma_thread_keys(teams[i].channels[j].threads, k, nx);
    let nc = ChannelRecord {
        threads: teams[i].channels[j].threads.update(k, nx),
        ..teams[i].channels[j]
    };
    lemma_channel_keys(teams[i].channels, j, nc);
    let nt = TeamRecord { channels: teams[i].channels.update(j, nc), ..teams[i] };
    lemma_team_keys(teams, i, nt);
    let after = add_reply_spec(teams, t, c, th, r);
    assert(after == teams.update(i, nt));
    assert(team_at(after, t) == Some(nt));
    assert(channel_at(after, t, c) == Some(nc));
}

/// `CREATE` at the root with a free name `n` and a description `d` adds, as
/// the last team, a team with the new uuid, name `n`, description `d` and no
/// channels, and answers `TEAM`, the uuid, `n`, `d`.
pub proof fn lemma_create_team(
    s: SessionView,
    u: UserStoreView,
    st: StorageView,
    args: Seq<Seq<char>>,
    fresh: Seq<char>,
    ts: i64,
)
    requires
        s.user_uuid is Some,
        context_of(s) == ContextView::Root,
        fields_ok(args, 32, 255),
        !team_name_taken(st.teams, args[0]),
    ensures
        ({
            let after = create_spec(s, u, st, args, fresh, ts);
            let x = after.storage.teams.last();
            &&& after.storage.teams.len() == st.teams.len() + 1
            &&& after.storage.teams.drop_last() == st.teams
            &&& x.uuid == fresh && x.name == args[0] && x.description == args[1]
            &&& x.channels.len() == 0
            &&& after.outcome.response == words_response(seq!["TEAM"@, fresh, args[0], args[1]])
            &&& after.outcome.events == seq![(EventKind::TeamCreated, seq![x.uuid, x.name, s.user_uuid->0])]
            &&& after.outcome.info_events.len() == 0
        }),
{
    let after = create_spec(s, u, st, args, fresh, ts);
    assert(after.storage.teams.drop_last() =~= st.teams);
}

/// `CREATE` in an existing team with a free name `n` and a description `d`
/// appends to the team's channels a channel with the new uuid, name `n`,
/// description `d` and no threads, answers `CHANNEL`, the uuid, `n`, `d`, and
/// tells each subscriber of the team `NEW_CHANNEL` with the team, the uuid,
/// `n` and `d`.
pub proof fn lemma_create_channel(
    s: SessionView,
    u: UserStoreView,
    st: StorageView,
    t: Seq<char>,
    args: Seq<Seq<char>>,
    fresh: Seq<char>,
    ts: i64,
)
    requires
        s.user_uuid is Some,
        context_of(s) == ContextView::Team(t),
        fields_ok(args, 32, 255),
        team_at(st.teams, t) is Some,
        !channel_name_taken(team_at(st.teams, t)->0.channels, args[0]),
    ensures
        ({
            let after = create_spec(s, u, st, args, fresh, ts);
            let before = team_at(st.teams, t)->0.channels;
            let now = team_at(after.storage.teams, t)->0.channels;
            let x = now.last();
            &&& team_at(after.storage.teams, t) is Some
            &&& now.len() == before.len() + 1
            &&& now.drop_last() == before
            &&& x.uuid == fresh && x.name == args[0] && x.description == args[1]
            &&& x.threads.len() == 0
            &&& after.outcome.response == words_response(seq!["CHANNEL"@, fresh, args[0], args[1]])
            &&& after.outcome.events == seq![(EventKind::ChannelCreated, seq![t, x.uuid, x.name])]
            &&& after.outcome.info_events == notify_all(
                subscribers_of(u, t),
                info_line_spec("I100 NEW_CHANNEL "@, seq![t, fresh, args[0], args[1]]),
            )
        }),
{
    let after = create_spec(s, u, st, args, fresh, ts);
    let ch = ChannelRecord { uuid: fresh, name: args[0], description: args[1], threads: Seq::empty() };
    lemma_add_channel_found(st.teams, t, ch);
    assert(team_at(st.teams, t)->0.channels.push(ch).drop_last() =~= team_at(st.teams, t)->0.channels);
}

/// `CREATE` in an existing channel with a free title `t` and a body `b`
/// appends to the channel's threads a thread with the new uuid, the
/// logged-in user as author, the time of the request, title `t`, body `b` and
/// no replies; answers `THREAD`, the uuid, the author, the time, `t`, `b`;
/// and tells each subscriber of the team `NEW_THREAD` with the team, the
/// channel, the uuid, the author, the time, `t` and `b`.
pub proof fn lemma_create_thread(
    s: SessionView,
    u: UserStoreView,
    st: StorageView,
    t: Seq<char>,
    c: Seq<char>,
    args: Seq<Seq<char>>,
    fresh: Seq<char>,
    ts: i64,
)
    requires
        s.user_uuid is Some,
        context_of(s) == ContextView::Channel(t, c),
        fields_ok(args, 32, 512),
        channel_at(st.teams, t, c) is Some,
        !thread_title_taken(channel_at(st.teams, t, c)->0.threads, args[0]),
    ensures
        ({
            let me = s.user_uuid->0;
            let after = create_spec(s, u, st, args, fresh, ts);
            let before = channel_at(st.teams, t, c)->0.threads;
            let now = channel_at(after.storage.teams, t, c)->0.threads;
            let x = now.last();
            &&& channel_at(after.storage.teams, t, c) is Some
            &&& now.len() == before.len() + 1
            &&& now.drop_last() == before
            &&& x.uuid == fresh && x.user_uuid == me && x.timestamp == ts
            &&& x.title == args[0] && x.body == args[1]
            &&& x.replies.len() == 0
            &&& after.outcome.events == seq![
                (EventKind::ThreadCreated, seq![c, x.uuid, x.user_uuid, x.title, x.body]),
            ]
            &&& after.outcome.response == words_response(
                seq!["THREAD"@, fresh, me, int_text(ts as int), args[0], args[1]],
            )
            &&& after.outcome.info_events == notify_all(
                subscribers_of(u, t),
                info_line_spec(
                    "I100 NEW_THREAD "@,
                    seq![t, c, fresh, me, int_text(ts as int), args[0], args[1]],
                ),
            )
        }),
{
    let me = s.user_uuid->0;
    let th = ThreadRecord {
        uuid: fresh,
        user_uuid: me,
        timestamp: ts,
        title: args[0],
        body: args[1],
        replies: Seq::empty(),
    };
    lemma_add_thread_found(st.teams, t, c, th);
    assert(channel_at(st.teams, t, c)->0.threads.push(th).drop_last() =~= channel_at(st.teams, t, c)->0.threads);
}

/// `CREATE` in an existing thread with a body `b` appends to the thread's
/// replies a reply by the logged-in user, at the time of the request, with
/// body `b`; answers `REPLY`, the thread, the author, the time, `b`; and tells
/// each subscriber of the team `NEW_REPLY` with the team, the thread, the
/// author and `b`.
pub proof fn lemma_create_reply(
    s: SessionView,
    u: UserStoreView,
    st: StorageView,
    t: Seq<char>,
    c: Seq<char>,
    th: Seq<char>,
    args: Seq<Seq<char>>,
    fresh: Seq<char>,
    ts: i64,
)
    requires
        s.user_uuid is Some,
        context_of(s) == ContextView::Thread(t, c, th),
        args.len() == 1,
        0 < args[0].len() <= 512,
        thread_at(st.teams, t, c, th) is Some,
    ensures
        ({
            let me = s.user_uuid->0;
            let after = create_spec(s, u, st, args, fresh, ts);
            let before = thread_at(st.teams, t, c, th)->0.replies;
            let now = thread_at(after.storage.teams, t, c, th)->0.replies;
            let x = now.last();
            &&& thread_at(after.storage.teams, t, c, th) is Some
            &&& now.len() == before.len() + 1
            &&& now.drop_last() == before
            &&& x.user_uuid == me && x.timestamp == ts && x.body == args[0]
            &&& after.outcome.events == seq![(EventKind::ReplyCreated, seq![th, x.user_uuid, x.body])]
            &&& after.outcome.response == words_response(
                seq!["REPLY"@, th, me, int_text(ts as int), args[0]],
            )
            &&& after.outcome.info_events == notify_all(
                subscribers_of(u, t),
                info_line_spec("I100 NEW_REPLY "@, seq![t, th, me, args[0]]),
            )
        }),
{
    let me = s.user_uuid->0;
    let r = ReplyRecord { user_uuid: me, timestamp: ts, body: args[0] };
    lemma_add_reply_found(st.teams, t, c, th, r);
    assert(thread_at(st.teams, t, c, th)->0.replies.push(r).drop_last() =~= thread_at(st.teams, t, c, th)->0.replies);
}


/// A thread just created is described by `INFO` in its context with the same
/// words `CREATE` answered, its title fifth and its body sixth, when no
/// thread of the channel had its uuid.
pub proof fn lemma_create_thread_then_info(
    s: SessionView,
    u: UserStoreView,
    st: StorageView,
    t: Seq<char>,
    c: Seq<char>,
    args: Seq<Seq<char>>,
    fresh: Seq<char>,
    ts: i64,
    s2: SessionView,
)
    requires
        s.user_uuid is Some,
        context_of(s) == ContextView::Channel(t, c),
        fields_ok(args, 32, 512),
        channel_at(st.teams, t, c) is Some,
        !thread_title_taken(channel_at(st.teams, t, c)->0.threads, args[0]),
        forall|k: int|
            0 <= k < channel_at(st.teams, t, c)->0.threads.len() ==> (#[trigger] channel_at(
                st.teams,
                t,
                c,
            )->0.threads[k]).uuid != fresh,
        s2.user_uuid is Some,
        context_of(s2) == ContextView::Thread(t, c, fresh),
    ensures
        ({
            let after = create_spec(s, u, st, args, fresh, ts);
            &&& info_spec(s2, after.users, after.storage, Seq::empty()).outcome.response
                == after.outcome.response
            &&& info_spec(s2, after.users, after.storage, Seq::empty()).outcome.response
                == words_response(
                seq!["THREAD"@, fresh, s.user_uuid->0, int_text(ts as int), args[0], args[1]],
            )
        }),
{
    let after = create_spec(s, u, st, args, fresh, ts);
    lemma_create_thread(s, u, st, t, c, args, fresh, ts);
    let before = channel_at(st.teams, t, c)->0.threads;
    let now = channel_at(after.storage.teams, t, c)->0.threads;
    let keys = now.map_values(|y: ThreadRecord| y.uuid);
    assert forall|k: int| 0 <= k < before.len() implies keys[k] != fresh by {
        assert(now[k] == before[k]);
    }
    assert(is_first_match(keys, fresh, before.len() as int));
    lemma_first_match(keys, fresh);
    assert(thread_at(after.storage.teams, t, c, fresh) == Some(now.last()));
    lemma_info_thread(s2, after.users, after.storage, t, c, fresh);
}

/// A channel just created is listed last by `LIST` in its team: the answer
/// ends with its uuid, its name and its description.
pub proof fn lemma_create_channel_then_list(
    s: SessionView,
    u: UserStoreView,
    st: StorageView,
    t: Seq<char>,
    args: Seq<Seq<char>>,
    fresh: Seq<char>,
    ts: i64,
)
    requires
        s.user_uuid is Some,
        context_of(s) == ContextView::Team(t),
        fields_ok(args, 32, 255),
        team_at(st.teams, t) is Some,
        !channel_name_taken(team_at(st.teams, t)->0.channels, args[0]),
    ensures
        ({
            let after = create_spec(s, u, st, args, fresh, ts);
            exists|ws: Seq<Seq<char>>|
                {
                    &&& list_spec(after.session, after.users, after.storage, Seq::empty()).outcome.response
                        == words_response(ws)
                    &&& ws.len() >= 3
                    &&& ws.subrange(ws.len() - 3, ws.len() as int) == seq![fresh, args[0], args[1]]
                }
        }),
{
    let after = create_spec(s, u, st, args, fresh, ts);
    lemma_create_channel(s, u, st, t, args, fresh, ts);
    lemma_list_team(after.session, after.users, after.storage, t);
    let chs = team_at(after.storage.teams, t)->0.channels;
    let ws = choose|ws: Seq<Seq<char>>|
        {
            &&& list_spec(after.session, after.users, after.storage, Seq::empty()).outcome.response
                == words_response(ws)
            &&& ws.len() == 1 + 3 * chs.len()
            &&& ws[0] == "CHANNELS"@
            &&& forall|i: int|
                0 <= i < chs.len() ==> ws[1 + 3 * i] == (#[trigger] chs[i]).uuid && ws[2 + 3 * i]
                    == chs[i].name && ws[3 + 3 * i] == chs[i].description
        };
    let n = chs.len() - 1;
    assert(chs[n] == chs.last());
    assert(ws.subrange(ws.len() - 3, ws.len() as int) =~= seq![fresh, args[0], args[1]]);
}


/// The word for an online flag, as the server writes it.
pub open spec fn flag_word(b: bool) -> Seq<char> {
    if b {
        "1"@
    } else {
        "0"@
    }
}

/// The rows of listed users: uuid, name, and `1` or `0` for online.
proof fn lemma_user_rows(rows: Seq<(Seq<char>, Seq<char>, bool)>)
    ensures
        user_rows(rows).len() == 3 * rows.len(),
        forall|i: int|
            0 <= i < rows.len() ==> user_rows(rows)[3 * i] == (#[trigger] rows[i]).0
                && user_rows(rows)[3 * i + 1] == rows[i].1 && user_rows(rows)[3 * i + 2]
                == flag_word(rows[i].2),
    decreases rows.len(),
{
    if rows.len() > 0 {
        let q = rows.drop_last();
        lemma_user_rows(q);
        assert forall|i: int| 0 <= i < rows.len() implies user_rows(rows)[3 * i] == (
        #[trigger] rows[i]).0 && user_rows(rows)[3 * i + 1] == rows[i].1 && user_rows(rows)[3 * i
            + 2] == flag_word(rows[i].2) by {
            if i < q.len() {
                assert(rows[i] == q[i]);
            }
        }
    }
}

/// The rows of listed messages: sender, timestamp, body.
proof fn lemma_message_rows(ms: Seq<MessageRecord>)
    ensures
        message_rows(ms).len() == 3 * ms.len(),
        forall|i: int|
            0 <= i < ms.len() ==> message_rows(ms)[3 * i] == (#[trigger] ms[i]).sender_uuid
                && message_rows(ms)[3 * i + 1] == int_text(ms[i].timestamp as int) && message_rows(
                ms,
            )[3 * i + 2] == ms[i].body,
    decreases ms.len(),
{
    if ms.len() > 0 {
        let q = ms.drop_last();
        lemma_message_rows(q);
        assert forall|i: int| 0 <= i < ms.len() implies message_rows(ms)[3 * i] == (
        #[trigger] ms[i]).sender_uuid && message_rows(ms)[3 * i + 1] == int_text(
            ms[i].timestamp as int,
        ) && message_rows(ms)[3 * i + 2] == ms[i].body by {
            if i < q.len() {
                assert(ms[i] == q[i]);
            }
        }
    }
}

/// `USERS` answers `USERS` followed, for each user of the listing in order,
/// by its uuid, its name and `1` or `0` for whether it is online.
pub proof fn lemma_users_answer(
    s: SessionView,
    u: UserStoreView,
    st: StorageView,
    rows: Seq<(Seq<char>, Seq<char>, bool)>,
)
    requires
        listing_ok(u, rows),
    ensures
        exists|ws: Seq<Seq<char>>|
            {
                &&& users_spec(s, u, st, Seq::empty()).outcome.response == words_response(ws)
                &&& ws.len() == 1 + 3 * rows.len()
                &&& ws[0] == "USERS"@
                &&& forall|i: int|
                    0 <= i < rows.len() ==> ws[1 + 3 * i] == (#[trigger] rows[i]).0 && ws[2 + 3 * i]
                        == u.by_uuid[rows[i].0] && ws[3 + 3 * i] == flag_word(online_in(u, rows[i].0))
            },
{
    lemma_listing_unique(u, rows);
    lemma_user_rows(rows);
    let ws = seq!["USERS"@] + user_rows(rows);
    assert forall|i: int| 0 <= i < rows.len() implies ws[1 + 3 * i] == (#[trigger] rows[i]).0
        && ws[2 + 3 * i] == u.by_uuid[rows[i].0] && ws[3 + 3 * i] == flag_word(
        online_in(u, rows[i].0),
    ) by {
        assert(ws[1 + 3 * i] == user_rows(rows)[3 * i]);
        assert(ws[2 + 3 * i] == user_rows(rows)[3 * i + 1]);
        assert(ws[3 + 3 * i] == user_rows(rows)[3 * i + 2]);
    }
    assert(users_spec(s, u, st, Seq::empty()).outcome.response == words_response(ws));
}

/// `USER "x"` of a known user answers `USER`, `x`, its name and `1` or `0`
/// for whether it is online.
pub proof fn lemma_user_answer(s: SessionView, u: UserStoreView, st: StorageView, x: Seq<char>)
    requires
        u.by_uuid.contains_key(x),
    ensures
        user_spec(s, u, st, seq![x]).outcome.response == words_response(
            seq!["USER"@, x, u.by_uuid[x], flag_word(online_in(u, x))],
        ),
{
}

/// `SEND "r" "b"` from the logged-in user `me` to a known user `r` stores,
/// last, a message from `me` to `r` with body `b` at the time of the request,
/// answers `200`, and tells `r` alone `NEW_MESSAGE` with `me` and `b`.
pub proof fn lemma_send_stores(
    s: SessionView,
    u: UserStoreView,
    st: StorageView,
    args: Seq<Seq<char>>,
    ts: i64,
)
    requires
        s.user_uuid is Some,
        args.len() == 2,
        args[0].len() > 0,
        u.by_uuid.contains_key(args[0]),
    ensures
        ({
            let me = s.user_uuid->0;
            let after = send_spec(s, u, st, args, ts);
            let m = after.storage.messages.last();
            &&& after.storage.messages.len() == st.messages.len() + 1
            &&& after.storage.messages.drop_last() == st.messages
            &&& m.sender_uuid == me && m.recipient_uuid == args[0] && m.body == args[1]
            &&& m.timestamp == ts
            &&& after.outcome.events == seq![
                (EventKind::PrivateMessageSended, seq![m.sender_uuid, m.recipient_uuid, m.body]),
            ]
            &&& after.outcome.response == response_spec(200, None)
            &&& after.outcome.info_events.len() == 1
            &&& after.outcome.info_events[0].0 == args[0]
            &&& after.outcome.info_events[0].1 == info_line_spec(
                "I100 NEW_MESSAGE "@,
                seq![me, args[1]],
            )
        }),
{
    let after = send_spec(s, u, st, args, ts);
    assert(after.storage.messages.drop_last() =~= st.messages);
}

/// `MESSAGES "x"` answers `MESSAGES` followed, for each message exchanged
/// between the logged-in user and `x` in order, by its sender, its
/// timestamp and its body.
pub proof fn lemma_messages_answer(s: SessionView, u: UserStoreView, st: StorageView, x: Seq<char>)
    requires
        s.user_uuid is Some,
        u.by_uuid.contains_key(x),
    ensures
        ({
            let ms = conversation_spec(st.messages, s.user_uuid->0, x);
            exists|ws: Seq<Seq<char>>|
                {
                    &&& messages_spec(s, u, st, seq![x]).outcome.response == words_response(ws)
                    &&& ws.len() == 1 + 3 * ms.len()
                    &&& ws[0] == "MESSAGES"@
                    &&& forall|i: int|
                        0 <= i < ms.len() ==> ws[1 + 3 * i] == (#[trigger] ms[i]).sender_uuid
                            && ws[2 + 3 * i] == int_text(ms[i].timestamp as int) && ws[3 + 3 * i]
                            == ms[i].body
                }
        }),
{
    let ms = conversation_spec(st.messages, s.user_uuid->0, x);
    lemma_message_rows(ms);
    let ws = seq!["MESSAGES"@] + message_rows(ms);
    assert forall|i: int| 0 <= i < ms.len() implies ws[1 + 3 * i] == (#[trigger] ms[i]).sender_uuid
        && ws[2 + 3 * i] == int_text(ms[i].timestamp as int) && ws[3 + 3 * i] == ms[i].body by {
        assert(ws[1 + 3 * i] == message_rows(ms)[3 * i]);
        assert(ws[2 + 3 * i] == message_rows(ms)[3 * i + 1]);
        assert(ws[3 + 3 * i] == message_rows(ms)[3 * i + 2]);
    }
    assert(messages_spec(s, u, st, seq![x]).outcome.response == words_response(ws));
}

/// `SUBSCRIBE "t"` to an existing team answers `SUBSCRIBED`, the user, `t`,
/// and leaves the user among the team's subscribers and the team among the
/// user's teams; `UNSUBSCRIBE "t"` answers `UNSUBSCRIBED`, the user, `t`, and
/// leaves neither.
pub proof fn lemma_subscription_answers(s: SessionView, u: UserStoreView, st: StorageView, t: Seq<char>)
    requires
        s.user_uuid is Some,
        team_at(st.teams, t) is Some,
    ensures
        ({
            let me = s.user_uuid->0;
            let a = subscribe_cmd_spec(s, u, st, seq![t]);
            let b = unsubscribe_cmd_spec(s, u, st, seq![t]);
            &&& a.outcome.response == words_response(seq!["SUBSCRIBED"@, me, t])
            &&& a.outcome.events == seq![(EventKind::UserSubscribed, seq![t, me])]
            &&& b.outcome.events == seq![(EventKind::UserUnsubscribed, seq![t, me])]
            &&& members(a.users.team_subscribers, t).contains(me)
            &&& members(a.users.user_subscriptions, me).contains(t)
            &&& b.outcome.response == words_response(seq!["UNSUBSCRIBED"@, me, t])
            &&& !members(b.users.team_subscribers, t).contains(me)
            &&& !members(b.users.user_subscriptions, me).contains(t)
        }),
{
    crate::server::users::lemma_subscribe_lists(u, s.user_uuid->0, t);
    crate::server::users::lemma_unsubscribe_removes(u, s.user_uuid->0, t);
}

/// The rows of listed subscribers: for each, a known user's uuid, its name
/// and `1` or `0` for online.
proof fn lemma_subscriber_rows(u: UserStoreView, ids: Seq<Seq<char>>)
    ensures
        subscriber_rows(u, ids).len() % 3 == 0,
        forall|i: int|
            0 <= i < subscriber_rows(u, ids).len() / 3 ==> u.by_uuid.contains_key(
                #[trigger] subscriber_rows(u, ids)[3 * i],
            ) && subscriber_rows(u, ids)[3 * i + 1] == u.by_uuid[subscriber_rows(u, ids)[3 * i]]
                && subscriber_rows(u, ids)[3 * i + 2] == flag_word(
                online_in(u, subscriber_rows(u, ids)[3 * i]),
            ),
    decreases ids.len(),
{
    if ids.len() > 0 {
        lemma_subscriber_rows(u, ids.drop_last());
        let p = subscriber_rows(u, ids.drop_last());
        let r = subscriber_rows(u, ids);
        assert forall|i: int| 0 <= i < r.len() / 3 implies u.by_uuid.contains_key(#[trigger] r[3 * i])
            && r[3 * i + 1] == u.by_uuid[r[3 * i]] && r[3 * i + 2] == flag_word(
            online_in(u, r[3 * i]),
        ) by {
            if i < p.len() / 3 {
                assert(r[3 * i] == p[3 * i]);
                assert(r[3 * i + 1] == p[3 * i + 1]);
                assert(r[3 * i + 2] == p[3 * i + 2]);
            }
        }
    }
}

/// The rows of listed subscribed teams: for each, an existing team's uuid,
/// its name and its description.
proof fn lemma_subscribed_team_rows(teams: Seq<TeamRecord>, ids: Seq<Seq<char>>)
    ensures
        subscribed_team_rows(teams, ids).len() % 3 == 0,
        forall|i: int|
            0 <= i < subscribed_team_rows(teams, ids).len() / 3 ==> team_at(
                teams,
                #[trigger] subscribed_team_rows(teams, ids)[3 * i],
            ) is Some && subscribed_team_rows(teams, ids)[3 * i + 1] == team_at(
                teams,
                subscribed_team_rows(teams, ids)[3 * i],
            )->0.name && subscribed_team_rows(teams, ids)[3 * i + 2] == team_at(
                teams,
                subscribed_team_rows(teams, ids)[3 * i],
            )->0.description,
    decreases ids.len(),
{
    if ids.len() > 0 {
        lemma_subscribed_team_rows(teams, ids.drop_last());
        let p = subscribed_team_rows(teams, ids.drop_last());
        let r = subscribed_team_rows(teams, ids);
        lemma_first_match(teams.map_values(|y: TeamRecord| y.uuid), ids.last());
        if team_at(teams, ids.last()) is Some {
            let k = first_match(teams.map_values(|y: TeamRecord| y.uuid), ids.last())->0;
            assert(teams[k].uuid == ids.last());
        }
        assert forall|i: int| 0 <= i < r.len() / 3 implies team_at(teams, #[trigger] r[3 * i]) is Some
            && r[3 * i + 1] == team_at(teams, r[3 * i])->0.name && r[3 * i + 2] == team_at(
            teams,
            r[3 * i],
        )->0.description by {
            if i < p.len() / 3 {
                assert(r[3 * i] == p[3 * i]);
                assert(r[3 * i + 1] == p[3 * i + 1]);
                assert(r[3 * i + 2] == p[3 * i + 2]);
            }
        }
    }
}

/// `SUBSCRIBED "t"` answers `USERS` followed by rows of three words, each a
/// known user's uuid, its name and `1` or `0` for online; `SUBSCRIBED`
/// answers `TEAMS` followed by rows of three words, each an existing team's
/// uuid, its name and its description.
pub proof fn lemma_subscribed_answers(s: SessionView, u: UserStoreView, st: StorageView, t: Seq<char>)
    requires
        s.user_uuid is Some,
        team_at(st.teams, t) is Some,
    ensures
        exists|ws: Seq<Seq<char>>|
            {
                &&& subscribed_spec(s, u, st, seq![t]).outcome.response == words_response(ws)
                &&& ws.len() % 3 == 1
                &&& ws[0] == "USERS"@
                &&& forall|i: int|
                    0 <= i < ws.len() / 3 ==> u.by_uuid.contains_key(#[trigger] ws[1 + 3 * i])
                        && ws[2 + 3 * i] == u.by_uuid[ws[1 + 3 * i]] && ws[3 + 3 * i] == flag_word(
                        online_in(u, ws[1 + 3 * i]),
                    )
            },
        exists|ws: Seq<Seq<char>>|
            {
                &&& subscribed_spec(s, u, st, Seq::empty()).outcome.response == words_response(ws)
                &&& ws.len() % 3 == 1
                &&& ws[0] == "TEAMS"@
                &&& forall|i: int|
                    0 <= i < ws.len() / 3 ==> team_at(st.teams, #[trigger] ws[1 + 3 * i]) is Some
                        && ws[2 + 3 * i] == team_at(st.teams, ws[1 + 3 * i])->0.name && ws[3 + 3
                        * i] == team_at(st.teams, ws[1 + 3 * i])->0.description
            },
{
    let ids = sorted_listing(members(u.team_subscribers, t));
    lemma_subscriber_rows(u, ids);
    let r = subscriber_rows(u, ids);
    let ws = seq!["USERS"@] + r;
    assert forall|i: int| 0 <= i < ws.len() / 3 implies u.by_uuid.contains_key(#[trigger] ws[1 + 3 * i])
        && ws[2 + 3 * i] == u.by_uuid[ws[1 + 3 * i]] && ws[3 + 3 * i] == flag_word(
        online_in(u, ws[1 + 3 * i]),
    ) by {
        assert(ws[1 + 3 * i] == r[3 * i]);
        assert(ws[2 + 3 * i] == r[3 * i + 1]);
        assert(ws[3 + 3 * i] == r[3 * i + 2]);
    }
    assert(subscribed_spec(s, u, st, seq![t]).outcome.response == words_response(ws));
    let tids = sorted_listing(members(u.user_subscriptions, s.user_uuid->0));
    lemma_subscribed_team_rows(st.teams, tids);
    let r2 = subscribed_team_rows(st.teams, tids);
    let ws2 = seq!["TEAMS"@] + r2;
    assert forall|i: int| 0 <= i < ws2.len() / 3 implies team_at(st.teams, #[trigger] ws2[1 + 3 * i]) is Some
        && ws2[2 + 3 * i] == team_at(st.teams, ws2[1 + 3 * i])->0.name && ws2[3 + 3 * i] == team_at(
        st.teams,
        ws2[1 + 3 * i],
    )->0.description by {
        assert(ws2[1 + 3 * i] == r2[3 * i]);
        assert(ws2[2 + 3 * i] == r2[3 * i + 1]);
        assert(ws2[3 + 3 * i] == r2[3 * i + 2]);
    }
    assert(subscribed_spec(s, u, st, Seq::empty()).outcome.response == words_response(ws2));
}

/// A `USE` that is accepted selects its arguments in order: the team, then
/// the channel of that team, then the thread of that channel.
pub proof fn lemma_use_selects(s: SessionView, u: UserStoreView, st: StorageView, args: Seq<Seq<char>>)
    requires
        args.len() <= 3,
        use_refusal(st.teams, args) is None,
    ensures
        ({
            let after = use_spec(s, u, st, args);
            &&& after.outcome.response == response_spec(200, None)
            &&& after.session.user_uuid == s.user_uuid
            &&& args.len() == 0 ==> context_of(after.session) == ContextView::Root
            &&& args.len() == 1 ==> context_of(after.session) == ContextView::Team(args[0])
            &&& args.len() == 2 ==> context_of(after.session) == ContextView::Channel(args[0], args[1])
            &&& args.len() == 3 ==> context_of(after.session) == ContextView::Thread(
                args[0],
                args[1],
                args[2],
            )
            &&& args.len() >= 1 ==> team_at(st.teams, args[0]) is Some
            &&& args.len() >= 2 ==> channel_at(st.teams, args[0], args[1]) is Some
            &&& args.len() == 3 ==> thread_at(st.teams, args[0], args[1], args[2]) is Some
        }),
{
}

/// `LOGIN "n"` logs in the user named `n`, the one already known by that
/// name or else a new one under the fresh uuid; answers that user's uuid;
/// and logs that user's login, after its creation when it is new.
pub proof fn lemma_login_answer(s: SessionView, u: UserStoreView, st: StorageView, name: Seq<char>, fresh: Seq<char>)
    requires
        name.len() > 0,
    ensures
        ({
            let after = login_spec(s, u, st, seq![name], fresh);
            let id = if u.by_name.contains_key(name) { u.by_name[name] } else { fresh };
            &&& after.session.user_uuid == Some(id)
            &&& after.users.by_name[name] == id
            &&& after.outcome.response == response_spec(200, Some(crate::text::quoted_spec(id)))
            &&& after.outcome.events == if u.by_name.contains_key(name) {
                seq![(EventKind::UserLoggedIn, seq![id])]
            } else {
                seq![(EventKind::UserCreated, seq![id, name]), (EventKind::UserLoggedIn, seq![id])]
            }
        }),
{
}

} // verus!
