//! Info lines pushed by the server, turned into calls of the client log.
use vstd::prelude::*;

use crate::client::protocol::{info_parse_spec, parse_info_message, InfoMessage, InfoParse, InfoView};
use crate::client::responses::{has_nul, ClientCall, ClientEvent};
use crate::server::handlers::info_line_spec;
use crate::text::chars_of;
use crate::client::protocol::{info_split, info_tokens_spec};
use crate::text::{int_text, is_white_space, tokenize_spec};
use crate::wire::{
    all_non_empty, is_command_word, lemma_info_line_round_trip, lemma_int_text_reads_back,
    lemma_private_message_round_trip,
};

verus! {

/// Whether none of the texts holds a NUL character.
pub open spec fn all_clean(texts: Seq<Seq<char>>) -> bool {
    forall|i: int| 0 <= i < texts.len() ==> !has_nul(#[trigger] texts[i])
}

/// The log call of an info message, with its texts and number; `None` when a
/// text holds a NUL character.
pub open spec fn info_call(v: InfoView) -> Option<(ClientCall, Seq<Seq<char>>, i64)> {
    let (call, texts, n) = match v {
        InfoView::NewMessage { sender_uuid, message_body } => (
            ClientCall::EventPrivateMessageReceived,
            seq![sender_uuid, message_body],
            0i64,
        ),
        InfoView::NewTeam { team_uuid, team_name, team_description } => (
            ClientCall::EventTeamCreated,
            seq![team_uuid, team_name, team_description],
            0i64,
        ),
        InfoView::UserLoggedIn { user_uuid, user_name } => (
            ClientCall::EventLoggedIn,
            seq![user_uuid, user_name],
            0i64,
        ),
        InfoView::UserLoggedOut { user_uuid, user_name } => (
            ClientCall::EventLoggedOut,
            seq![user_uuid, user_name],
            0i64,
        ),
        InfoView::NewChannel { team_uuid, channel_uuid, channel_name, channel_description } => (
            ClientCall::EventChannelCreated,
            seq![channel_uuid, channel_name, channel_description],
            0i64,
        ),
        InfoView::NewThread {
            team_uuid,
            channel_uuid,
            thread_uuid,
            user_uuid,
            thread_timestamp,
            thread_title,
            thread_body,
        } => (
            ClientCall::EventThreadCreated,
            seq![thread_uuid, user_uuid, thread_title, thread_body],
            thread_timestamp,
        ),
        InfoView::NewReply { team_uuid, thread_uuid, user_uuid, reply_body } => (
            ClientCall::EventThreadReplyReceived,
            seq![team_uuid, thread_uuid, user_uuid, reply_body],
            0i64,
        ),
    };
    if all_clean(texts) {
        Some((call, texts, n))
    } else {
        None
    }
}

/// What an info line leads to: the log call of a well-formed notification,
/// or nothing.
pub open spec fn info_event_spec(line: Seq<char>) -> Option<(ClientCall, Seq<Seq<char>>, i64)> {
    match info_parse_spec(line) {
        InfoParse::Parsed(v) => info_call(v),
        _ => None,
    }
}

/// Whether none of the strings holds a NUL character.
fn none_nul(texts: &Vec<String>) -> (r: bool)
    ensures
        r == all_clean(texts.deep_view()),
{
    let mut i: usize = 0;
    while i < texts.len()
        invariant
            i <= texts@.len(),
            forall|j: int| 0 <= j < i ==> !has_nul(#[trigger] texts.deep_view()[j]),
        decreases texts@.len() - i,
    {
        let c = chars_of(texts[i].as_str());
        assert(c@ == texts.deep_view()[i as int]);
        let mut k: usize = 0;
        while k < c.len()
            invariant
                k <= c@.len(),
                i < texts@.len(),
                c@ == texts.deep_view()[i as int],
                forall|m: int| 0 <= m < k ==> c@[m] != '\0',
            decreases c@.len() - k,
        {
            if c[k] == '\0' {
                assert(texts.deep_view()[i as int][k as int] == '\0');
                return false;
            }
            k = k + 1;
        }
        assert(!texts.deep_view()[i as int].contains('\0'));
        i = i + 1;
    }
    true
}

/// The event for a call, when its texts are clean.
fn event_if_clean(call: ClientCall, texts: Vec<String>, number: i64) -> (r: Option<ClientEvent>)
    ensures
        match r {
            Some(e) => all_clean(texts.deep_view()) && e@ == (call, texts.deep_view(), number),
            None => !all_clean(texts.deep_view()),
        },
{
    if none_nul(&texts) {
        Some(ClientEvent { call, texts, number })
    } else {
        None
    }
}

/// Turn an info line from the server into the call of the client log it
/// announces; nothing for lines that are not well-formed notifications.
pub fn handle_info_message(line: &str) -> (r: Option<ClientEvent>)
    ensures
        match r {
            Some(e) => info_event_spec(line@) == Some(e@),
            None => info_event_spec(line@) is None,
        },
{
    let parsed = match parse_info_message(line) {
        Ok(Some(m)) => m,
        _ => {
            return None;
        },
    };
    let ghost v = parsed@;
    let (call, texts, number) = match parsed {
        InfoMessage::NewMessage { sender_uuid, message_body } => (
            ClientCall::EventPrivateMessageReceived,
            vec![sender_uuid, message_body],
            0,
        ),
        InfoMessage::NewTeam { team_uuid, team_name, team_description } => (
            ClientCall::EventTeamCreated,
            vec![team_uuid, team_name, team_description],
            0,
        ),
        InfoMessage::UserLoggedIn { user_uuid, user_name } => (
            ClientCall::EventLoggedIn,
            vec![user_uuid, user_name],
            0,
        ),
        InfoMessage::UserLoggedOut { user_uuid, user_name } => (
            ClientCall::EventLoggedOut,
            vec![user_uuid, user_name],
            0,
        ),
        InfoMessage::NewChannel { team_uuid, channel_uuid, channel_name, channel_description } => (
            ClientCall::EventChannelCreated,
            vec![channel_uuid, channel_name, channel_description],
            0,
        ),
        InfoMessage::NewThread {
            team_uuid,
            channel_uuid,
            thread_uuid,
            user_uuid,
            thread_timestamp,
            thread_title,
            thread_body,
        } => (
            ClientCall::EventThreadCreated,
            vec![thread_uuid, user_uuid, thread_title, thread_body],
            thread_timestamp,
        ),
        InfoMessage::NewReply { team_uuid, thread_uuid, user_uuid, reply_body } => (
            ClientCall::EventThreadReplyReceived,
            vec![team_uuid, thread_uuid, user_uuid, reply_body],
            0,
        ),
    };
    proof {
        let expected = match v {
            InfoView::NewMessage { sender_uuid, message_body } => seq![sender_uuid, message_body],
            InfoView::NewTeam { team_uuid, team_name, team_description } => seq![
                team_uuid,
                team_name,
                team_description,
            ],
            InfoView::UserLoggedIn { user_uuid, user_name } => seq![user_uuid, user_name],
            InfoView::UserLoggedOut { user_uuid, user_name } => seq![user_uuid, user_name],
            InfoView::NewChannel { team_uuid, channel_uuid, channel_name, channel_description } =>
                seq![channel_uuid, channel_name, channel_description],
            InfoView::NewThread {
                team_uuid,
                channel_uuid,
                thread_uuid,
                user_uuid,
                thread_timestamp,
                thread_title,
                thread_body,
            } => seq![thread_uuid, user_uuid, thread_title, thread_body],
            InfoView::NewReply { team_uuid, thread_uuid, user_uuid, reply_body } => seq![
                team_uuid,
                thread_uuid,
                user_uuid,
                reply_body,
            ],
        };
        assert(texts.deep_view() =~= expected);
    }
    event_if_clean(call, texts, number)
}

/// A private message reaches the recipient's client log: the notice the
/// server sends leads the client to report the message received, with the
/// sender's identifier and the body, whenever the body is not empty and
/// neither text holds a NUL character.
pub proof fn lemma_private_message_reaches_log(sender_uuid: Seq<char>, message_body: Seq<char>)
    requires
        message_body.len() > 0,
        !has_nul(sender_uuid),
        !has_nul(message_body),
    ensures
        info_event_spec(info_line_spec("I100 NEW_MESSAGE "@, seq![sender_uuid, message_body]))
            == Some((ClientCall::EventPrivateMessageReceived, seq![sender_uuid, message_body], 0i64)),
{
    lemma_private_message_round_trip(sender_uuid, message_body);
    assert(all_clean(seq![sender_uuid, message_body]));
}



/// A word of capital letters and underscores is an event word.
proof fn lemma_event_word(w: Seq<char>)
    requires
        w.len() > 0,
        forall|i: int| 0 <= i < w.len() ==> ('A' <= #[trigger] w[i] <= 'Z') || w[i] == '_',
    ensures
        is_command_word(w),
{
    assert forall|i: int| 0 <= i < w.len() implies !is_white_space(#[trigger] w[i]) && w[i] != '"'
        && w[i] != '\\' by {
        assert(('A' <= w[i] <= 'Z') || w[i] == '_');
    }
}

/// The notice `I100 <event> "<word>" ...` the server sends is read by the
/// client as the event word followed by the words.
proof fn lemma_notice_read(head: Seq<char>, event: Seq<char>, words: Seq<Seq<char>>)
    requires
        event.len() > 0,
        forall|i: int| 0 <= i < event.len() ==> ('A' <= #[trigger] event[i] <= 'Z') || event[i] == '_',
        head == "I100 "@ + event + " "@,
        words.len() > 0,
        all_non_empty(words),
    ensures
        info_parse_spec(info_line_spec(head, words)) == info_tokens_spec(seq![event] + words),
{
    lemma_event_word(event);
    lemma_info_line_round_trip(event, words);
}

/// Whether none of the texts holds a NUL character.
pub open spec fn no_nul(texts: Seq<Seq<char>>) -> bool {
    forall|i: int| 0 <= i < texts.len() ==> !has_nul(#[trigger] texts[i])
}

/// A `NEW_CHANNEL` notice for team `t` makes the client report the creation
/// of channel `c`, named `n`, described `d`: the channel's uuid first, not
/// the team's.
pub proof fn lemma_channel_notice(t: Seq<char>, c: Seq<char>, n: Seq<char>, d: Seq<char>)
    requires
        all_non_empty(seq![t, c, n, d]),
        no_nul(seq![c, n, d]),
    ensures
        info_event_spec(info_line_spec("I100 NEW_CHANNEL "@, seq![t, c, n, d])) == Some(
            (ClientCall::EventChannelCreated, seq![c, n, d], 0i64),
        ),
{
    reveal_strlit("NEW_CHANNEL");
    reveal_strlit("I100 NEW_CHANNEL ");
    reveal_strlit("I100 ");
    reveal_strlit(" ");
    reveal_strlit("NEW_MESSAGE");
    reveal_strlit("NEW_TEAM");
    reveal_strlit("USER_LOGGED_IN");
    reveal_strlit("USER_LOGGED_OUT");
    assert("I100 NEW_CHANNEL "@ =~= "I100 "@ + "NEW_CHANNEL"@ + " "@);
    lemma_notice_read("I100 NEW_CHANNEL "@, "NEW_CHANNEL"@, seq![t, c, n, d]);
    let tk = seq!["NEW_CHANNEL"@] + seq![t, c, n, d];
    assert(tk =~= seq!["NEW_CHANNEL"@, t, c, n, d]);
    assert(tk[0][4] != "NEW_MESSAGE"@[4]);
    assert(tk[0] != "NEW_MESSAGE"@);
    assert(tk[0] != "NEW_TEAM"@);
    assert(tk[0] != "USER_LOGGED_IN"@);
    assert(tk[0] != "USER_LOGGED_OUT"@);
    let v = InfoView::NewChannel { team_uuid: t, channel_uuid: c, channel_name: n, channel_description: d };
    assert(info_tokens_spec(tk) == InfoParse::Parsed(v));
    assert(all_clean(seq![c, n, d]));
    assert(info_call(v) == Some((ClientCall::EventChannelCreated, seq![c, n, d], 0i64)));
}

/// A `NEW_TEAM` notice makes the client report the creation of team `t`,
/// named `n`, described `d`.
pub proof fn lemma_team_notice(t: Seq<char>, n: Seq<char>, d: Seq<char>)
    requires
        all_non_empty(seq![t, n, d]),
        no_nul(seq![t, n, d]),
    ensures
        info_event_spec(info_line_spec("I100 NEW_TEAM "@, seq![t, n, d])) == Some(
            (ClientCall::EventTeamCreated, seq![t, n, d], 0i64),
        ),
{
    reveal_strlit("NEW_TEAM");
    reveal_strlit("I100 NEW_TEAM ");
    reveal_strlit("I100 ");
    reveal_strlit(" ");
    reveal_strlit("NEW_MESSAGE");
    assert("I100 NEW_TEAM "@ =~= "I100 "@ + "NEW_TEAM"@ + " "@);
    lemma_notice_read("I100 NEW_TEAM "@, "NEW_TEAM"@, seq![t, n, d]);
    assert(seq!["NEW_TEAM"@] + seq![t, n, d] =~= seq!["NEW_TEAM"@, t, n, d]);
    assert(all_clean(seq![t, n, d]));
}

/// A `USER_LOGGED_IN` notice makes the client report the login of user `u`
/// named `n`.
pub proof fn lemma_login_notice(u: Seq<char>, n: Seq<char>)
    requires
        all_non_empty(seq![u, n]),
        no_nul(seq![u, n]),
    ensures
        info_event_spec(info_line_spec("I100 USER_LOGGED_IN "@, seq![u, n])) == Some(
            (ClientCall::EventLoggedIn, seq![u, n], 0i64),
        ),
{
    reveal_strlit("USER_LOGGED_IN");
    reveal_strlit("I100 USER_LOGGED_IN ");
    reveal_strlit("I100 ");
    reveal_strlit(" ");
    reveal_strlit("NEW_MESSAGE");
    reveal_strlit("NEW_TEAM");
    assert("I100 USER_LOGGED_IN "@ =~= "I100 "@ + "USER_LOGGED_IN"@ + " "@);
    lemma_notice_read("I100 USER_LOGGED_IN "@, "USER_LOGGED_IN"@, seq![u, n]);
    assert(seq!["USER_LOGGED_IN"@] + seq![u, n] =~= seq!["USER_LOGGED_IN"@, u, n]);
    assert(all_clean(seq![u, n]));
}

/// A `USER_LOGGED_OUT` notice makes the client report the logout of user
/// `u` named `n`.
pub proof fn lemma_logout_notice(u: Seq<char>, n: Seq<char>)
    requires
        all_non_empty(seq![u, n]),
        no_nul(seq![u, n]),
    ensures
        info_event_spec(info_line_spec("I100 USER_LOGGED_OUT "@, seq![u, n])) == Some(
            (ClientCall::EventLoggedOut, seq![u, n], 0i64),
        ),
{
    reveal_strlit("USER_LOGGED_OUT");
    reveal_strlit("I100 USER_LOGGED_OUT ");
    reveal_strlit("I100 ");
    reveal_strlit(" ");
    reveal_strlit("NEW_MESSAGE");
    reveal_strlit("NEW_TEAM");
    reveal_strlit("USER_LOGGED_IN");
    assert("I100 USER_LOGGED_OUT "@ =~= "I100 "@ + "USER_LOGGED_OUT"@ + " "@);
    lemma_notice_read("I100 USER_LOGGED_OUT "@, "USER_LOGGED_OUT"@, seq![u, n]);
    assert(seq!["USER_LOGGED_OUT"@] + seq![u, n] =~= seq!["USER_LOGGED_OUT"@, u, n]);
    assert(all_clean(seq![u, n]));
}

/// A `NEW_REPLY` notice makes the client report a reply in thread `th` of
/// team `t` by user `u` with body `b`.
pub proof fn lemma_reply_notice(t: Seq<char>, th: Seq<char>, u: Seq<char>, b: Seq<char>)
    requires
        all_non_empty(seq![t, th, u, b]),
        no_nul(seq![t, th, u, b]),
    ensures
        info_event_spec(info_line_spec("I100 NEW_REPLY "@, seq![t, th, u, b])) == Some(
            (ClientCall::EventThreadReplyReceived, seq![t, th, u, b], 0i64),
        ),
{
    reveal_strlit("NEW_REPLY");
    reveal_strlit("I100 NEW_REPLY ");
    reveal_strlit("I100 ");
    reveal_strlit(" ");
    reveal_strlit("NEW_MESSAGE");
    reveal_strlit("NEW_TEAM");
    reveal_strlit("USER_LOGGED_IN");
    reveal_strlit("USER_LOGGED_OUT");
    reveal_strlit("NEW_CHANNEL");
    reveal_strlit("NEW_THREAD");
    assert("I100 NEW_REPLY "@ =~= "I100 "@ + "NEW_REPLY"@ + " "@);
    lemma_notice_read("I100 NEW_REPLY "@, "NEW_REPLY"@, seq![t, th, u, b]);
    assert(seq!["NEW_REPLY"@] + seq![t, th, u, b] =~= seq!["NEW_REPLY"@, t, th, u, b]);
    assert(all_clean(seq![t, th, u, b]));
}

/// A `NEW_THREAD` notice makes the client report thread `th` by user `u` at
/// time `ts` with title `ti` and body `b`: the thread's uuid first, the
/// title before the body.
pub proof fn lemma_thread_notice(
    t: Seq<char>,
    c: Seq<char>,
    th: Seq<char>,
    u: Seq<char>,
    ts: i64,
    ti: Seq<char>,
    b: Seq<char>,
)
    requires
        all_non_empty(seq![t, c, th, u, ti, b]),
        no_nul(seq![th, u, ti, b]),
    ensures
        info_event_spec(
            info_line_spec("I100 NEW_THREAD "@, seq![t, c, th, u, int_text(ts as int), ti, b]),
        ) == Some((ClientCall::EventThreadCreated, seq![th, u, ti, b], ts)),
{
    reveal_strlit("NEW_THREAD");
    reveal_strlit("I100 NEW_THREAD ");
    reveal_strlit("I100 ");
    reveal_strlit(" ");
    reveal_strlit("NEW_MESSAGE");
    reveal_strlit("NEW_TEAM");
    reveal_strlit("USER_LOGGED_IN");
    reveal_strlit("USER_LOGGED_OUT");
    reveal_strlit("NEW_CHANNEL");
    lemma_int_text_reads_back(ts);
    let words = seq![t, c, th, u, int_text(ts as int), ti, b];
    assert(all_non_empty(words)) by {
        assert forall|i: int| 0 <= i < words.len() implies (#[trigger] words[i]).len() > 0 by {
            let q = seq![t, c, th, u, ti, b];
            assert(all_non_empty(q));
            if i < 4 {
                assert(words[i] == q[i]);
            } else if i > 4 {
                assert(words[i] == q[i - 1]);
            }
        }
    }
    assert("I100 NEW_THREAD "@ =~= "I100 "@ + "NEW_THREAD"@ + " "@);
    lemma_notice_read("I100 NEW_THREAD "@, "NEW_THREAD"@, words);
    assert(seq!["NEW_THREAD"@] + words =~= seq![
        "NEW_THREAD"@,
        t,
        c,
        th,
        u,
        int_text(ts as int),
        ti,
        b,
    ]);
    assert(all_clean(seq![th, u, ti, b]));
}

} // verus!
