//! What the client reports of the answers the server gives: each answer to
//! a pending request, read back into the calls of the client log.
use vstd::prelude::*;

use crate::client::info::no_nul;
use crate::client::responses::{
    check_fields, entries_spec, entry_spec, entry_words, has_nul, layout_fields, layout_width,
    listing_ok, pending_events, single_ok, ClientCall, FieldKind, Layout,
};
use crate::client::types::PendingView;
use crate::server::resources::{reply_rows, thread_rows};
use crate::server::handlers::{message_rows, user_rows};
use crate::server::shared::{flag_view, words_response};
use crate::server::storage::{MessageRecord, ReplyRecord, ThreadRecord};
use crate::text::{int_text, parse_i64_spec};
use crate::wire::{all_non_empty, lemma_int_text_reads_back, lemma_response_round_trip};

verus! {

/// An answer of the head word and the values of a layout, all non-empty,
/// whose values check into `texts` and `n`, is read as one call with them.
proof fn lemma_single_read(
    ws: Seq<Seq<char>>,
    head: Seq<char>,
    n: nat,
    layout: Layout,
    call: ClientCall,
    msg: Seq<char>,
    texts: Seq<Seq<char>>,
    num: i64,
)
    requires
        ws.len() == n,
        n > 0,
        ws[0] == head,
        all_non_empty(ws),
        check_fields(layout_fields(layout), ws.drop_first()) == Ok::<
            (Seq<Seq<char>>, i64),
            crate::client::types::ClientErrorView,
        >((texts, num)),
    ensures
        single_ok(words_response(ws), head, n, layout, call, msg) == (
            seq![(call, texts, num)],
            Ok::<(), crate::client::types::ClientErrorView>(()),
        ),
{
    lemma_response_round_trip(200, ws);
}

/// What the checks of a thread's fields keep: the texts but the timestamp,
/// and the timestamp.
proof fn lemma_thread_fields(a: Seq<char>, b: Seq<char>, ts: i64, c: Seq<char>, d: Seq<char>)
    requires
        no_nul(seq![a, b, c, d]),
    ensures
        check_fields(layout_fields(Layout::Thread), seq![a, b, int_text(ts as int), c, d]) == Ok::<
            (Seq<Seq<char>>, i64),
            crate::client::types::ClientErrorView,
        >((seq![a, b, c, d], ts)),
{
    lemma_int_text_reads_back(ts);
    let k = layout_fields(Layout::Thread);
    let v = seq![a, b, int_text(ts as int), c, d];
    let q = seq![a, b, c, d];
    assert(!has_nul(q[0]) && !has_nul(q[1]) && !has_nul(q[2]) && !has_nul(q[3]));
    let k1 = k.subrange(0, 1);
    let k2 = k.subrange(0, 2);
    let k3 = k.subrange(0, 3);
    let k4 = k.subrange(0, 4);
    assert(k1.drop_last() =~= Seq::<(FieldKind, Seq<char>)>::empty());
    assert(k2.drop_last() =~= k1);
    assert(k3.drop_last() =~= k2);
    assert(k4.drop_last() =~= k3);
    assert(k.drop_last() =~= k4);
    assert(k1.last().0 == FieldKind::Text);
    assert(k2.last().0 == FieldKind::Text);
    assert(k3.last().0 == FieldKind::Time);
    assert(k4.last().0 == FieldKind::Text);
    assert(k.last().0 == FieldKind::Text);
    assert(v[0] == a && v[1] == b && v[2] == int_text(ts as int) && v[3] == c && v[4] == d);
    let e: Seq<Seq<char>> = Seq::empty();
    assert(check_fields(k1.drop_last(), v) == Ok::<(Seq<Seq<char>>, i64), crate::client::types::ClientErrorView>((e, 0i64)));
    assert(k1.len() == 1);
    assert(check_fields(k1, v) == Ok::<(Seq<Seq<char>>, i64), crate::client::types::ClientErrorView>((e.push(a), 0i64)));
    assert(check_fields(k2, v) == Ok::<(Seq<Seq<char>>, i64), crate::client::types::ClientErrorView>((e.push(a).push(b), 0i64)));
    assert(check_fields(k3, v) == Ok::<(Seq<Seq<char>>, i64), crate::client::types::ClientErrorView>((e.push(a).push(b), ts)));
    assert(check_fields(k4, v) == Ok::<(Seq<Seq<char>>, i64), crate::client::types::ClientErrorView>((e.push(a).push(b).push(c), ts)));
    assert(check_fields(k, v) == Ok::<(Seq<Seq<char>>, i64), crate::client::types::ClientErrorView>((e.push(a).push(b).push(c).push(d), ts)));
    assert(e.push(a).push(b).push(c).push(d) =~= seq![a, b, c, d]);
}

/// A thread described by the server, `THREAD`, uuid, author, timestamp,
/// title, body, is reported by the client waiting for `INFO` as that thread:
/// uuid, author, title and body in that order, at that time; and likewise,
/// as a thread created, by the client waiting for `CREATE`.
pub proof fn lemma_thread_answer_read(
    x: Seq<char>,
    author: Seq<char>,
    ts: i64,
    title: Seq<char>,
    body: Seq<char>,
    t: Seq<char>,
    c: Seq<char>,
    th: Seq<char>,
)
    requires
        all_non_empty(seq![x, author, title, body]),
        no_nul(seq![x, author, title, body]),
    ensures
        ({
            let resp = words_response(seq!["THREAD"@, x, author, int_text(ts as int), title, body]);
            &&& pending_events(
                Some(PendingView::InfoThread { team_uuid: t, channel_uuid: c, thread_uuid: th }),
                200,
                resp,
            ) == (seq![(ClientCall::PrintThread, seq![x, author, title, body], ts)], Ok::<
                (),
                crate::client::types::ClientErrorView,
            >(()))
            &&& pending_events(
                Some(PendingView::CreateThread { team_uuid: t, channel_uuid: c }),
                200,
                resp,
            ) == (seq![(ClientCall::PrintThreadCreated, seq![x, author, title, body], ts)], Ok::<
                (),
                crate::client::types::ClientErrorView,
            >(()))
        }),
{
    let ws = seq!["THREAD"@, x, author, int_text(ts as int), title, body];
    lemma_int_text_reads_back(ts);
    assert(all_non_empty(ws)) by {
        let q = seq![x, author, title, body];
        assert forall|i: int| 0 <= i < ws.len() implies (#[trigger] ws[i]).len() > 0 by {
            reveal_strlit("THREAD");
            if i == 1 { assert(ws[i] == q[0]); }
            if i == 2 { assert(ws[i] == q[1]); }
            if i == 4 { assert(ws[i] == q[2]); }
            if i == 5 { assert(ws[i] == q[3]); }
        }
    }
    assert(ws.drop_first() =~= seq![x, author, int_text(ts as int), title, body]);
    lemma_thread_fields(x, author, ts, title, body);
    lemma_single_read(ws, "THREAD"@, 6, Layout::Thread, ClientCall::PrintThread, "invalid THREAD response payload"@, seq![x, author, title, body], ts);
    lemma_single_read(ws, "THREAD"@, 6, Layout::Thread, ClientCall::PrintThreadCreated, "invalid THREAD response payload"@, seq![x, author, title, body], ts);
}


/// A layout of three texts keeps its three values, in order.
proof fn lemma_three_texts(layout: Layout, a: Seq<char>, b: Seq<char>, c: Seq<char>)
    requires
        layout_fields(layout).len() == 3,
        layout_fields(layout)[0].0 == FieldKind::Text,
        layout_fields(layout)[1].0 == FieldKind::Text,
        layout_fields(layout)[2].0 == FieldKind::Text,
        no_nul(seq![a, b, c]),
    ensures
        check_fields(layout_fields(layout), seq![a, b, c]) == Ok::<
            (Seq<Seq<char>>, i64),
            crate::client::types::ClientErrorView,
        >((seq![a, b, c], 0i64)),
{
    let k = layout_fields(layout);
    let v = seq![a, b, c];
    assert(!has_nul(v[0]) && !has_nul(v[1]) && !has_nul(v[2]));
    let k1 = k.subrange(0, 1);
    let k2 = k.subrange(0, 2);
    assert(k1.drop_last() =~= Seq::<(FieldKind, Seq<char>)>::empty());
    assert(k2.drop_last() =~= k1);
    assert(k.drop_last() =~= k2);
    assert(k1.last().0 == FieldKind::Text);
    assert(k2.last().0 == FieldKind::Text);
    assert(k.last().0 == FieldKind::Text);
    let e: Seq<Seq<char>> = Seq::empty();
    assert(check_fields(k1.drop_last(), v) == Ok::<(Seq<Seq<char>>, i64), crate::client::types::ClientErrorView>((e, 0i64)));
    assert(check_fields(k1, v) == Ok::<(Seq<Seq<char>>, i64), crate::client::types::ClientErrorView>((e.push(a), 0i64)));
    assert(check_fields(k2, v) == Ok::<(Seq<Seq<char>>, i64), crate::client::types::ClientErrorView>((e.push(a).push(b), 0i64)));
    assert(check_fields(k, v) == Ok::<(Seq<Seq<char>>, i64), crate::client::types::ClientErrorView>((e.push(a).push(b).push(c), 0i64)));
    assert(e.push(a).push(b).push(c) =~= seq![a, b, c]);
}

/// An answer `head`, `a`, `b`, `c` of three texts is read as one call with
/// `a`, `b`, `c` in that order.
proof fn lemma_three_read(head: Seq<char>, layout: Layout, call: ClientCall, msg: Seq<char>, a: Seq<char>, b: Seq<char>, c: Seq<char>)
    requires
        head.len() > 0,
        layout_fields(layout).len() == 3,
        layout_fields(layout)[0].0 == FieldKind::Text,
        layout_fields(layout)[1].0 == FieldKind::Text,
        layout_fields(layout)[2].0 == FieldKind::Text,
        all_non_empty(seq![a, b, c]),
        no_nul(seq![a, b, c]),
    ensures
        single_ok(words_response(seq![head, a, b, c]), head, 4, layout, call, msg) == (
            seq![(call, seq![a, b, c], 0i64)],
            Ok::<(), crate::client::types::ClientErrorView>(()),
        ),
{
    let ws = seq![head, a, b, c];
    let q = seq![a, b, c];
    assert(all_non_empty(ws)) by {
        assert forall|i: int| 0 <= i < ws.len() implies (#[trigger] ws[i]).len() > 0 by {
            if i > 0 {
                assert(ws[i] == q[i - 1]);
            }
        }
    }
    assert(ws.drop_first() =~= q);
    lemma_three_texts(layout, a, b, c);
    lemma_single_read(ws, head, 4, layout, call, msg, q, 0);
}

/// A team described by the server, `TEAM`, uuid, name, description, is
/// reported by the client waiting for `INFO` as that team, and by the client
/// waiting for `CREATE` as a team created: uuid, name, description in that
/// order.
pub proof fn lemma_team_answer_read(x: Seq<char>, name: Seq<char>, desc: Seq<char>, t: Seq<char>)
    requires
        all_non_empty(seq![x, name, desc]),
        no_nul(seq![x, name, desc]),
    ensures
        ({
            let resp = words_response(seq!["TEAM"@, x, name, desc]);
            &&& pending_events(Some(PendingView::InfoTeam { team_uuid: t }), 200, resp) == (
                seq![(ClientCall::PrintTeam, seq![x, name, desc], 0i64)],
                Ok::<(), crate::client::types::ClientErrorView>(()),
            )
            &&& pending_events(Some(PendingView::CreateTeam), 200, resp) == (
                seq![(ClientCall::PrintTeamCreated, seq![x, name, desc], 0i64)],
                Ok::<(), crate::client::types::ClientErrorView>(()),
            )
        }),
{
    reveal_strlit("TEAM");
    lemma_three_read("TEAM"@, Layout::Team, ClientCall::PrintTeam, "invalid TEAM response payload"@, x, name, desc);
    lemma_three_read("TEAM"@, Layout::Team, ClientCall::PrintTeamCreated, "invalid TEAM response payload"@, x, name, desc);
}

/// A channel described by the server, `CHANNEL`, uuid, name, description, is
/// reported by the client waiting for `INFO` as that channel, and by the
/// client waiting for `CREATE` as a channel created: uuid, name, description
/// in that order.
pub proof fn lemma_channel_answer_read(x: Seq<char>, name: Seq<char>, desc: Seq<char>, t: Seq<char>, c: Seq<char>)
    requires
        all_non_empty(seq![x, name, desc]),
        no_nul(seq![x, name, desc]),
    ensures
        ({
            let resp = words_response(seq!["CHANNEL"@, x, name, desc]);
            &&& pending_events(Some(PendingView::InfoChannel { team_uuid: t, channel_uuid: c }), 200, resp) == (
                seq![(ClientCall::PrintChannel, seq![x, name, desc], 0i64)],
                Ok::<(), crate::client::types::ClientErrorView>(()),
            )
            &&& pending_events(Some(PendingView::CreateChannel { team_uuid: t }), 200, resp) == (
                seq![(ClientCall::PrintChannelCreated, seq![x, name, desc], 0i64)],
                Ok::<(), crate::client::types::ClientErrorView>(()),
            )
        }),
{
    reveal_strlit("CHANNEL");
    lemma_three_read("CHANNEL"@, Layout::Channel, ClientCall::PrintChannel, "invalid CHANNEL response payload"@, x, name, desc);
    lemma_three_read("CHANNEL"@, Layout::Channel, ClientCall::PrintChannelCreated, "invalid CHANNEL response payload"@, x, name, desc);
}


/// A user described by the server, `USER`, uuid, name and `1` or `0`, is
/// reported by the client waiting for `INFO` or for `USER` as that user,
/// uuid then name, online exactly when the flag is `1`.
pub proof fn lemma_user_answer_read(x: Seq<char>, name: Seq<char>, online: bool, who: Seq<char>)
    requires
        all_non_empty(seq![x, name]),
        no_nul(seq![x, name]),
    ensures
        ({
            let flag = if online { "1"@ } else { "0"@ };
            let resp = words_response(seq!["USER"@, x, name, flag]);
            let want = (
                seq![(ClientCall::PrintUser, seq![x, name], if online { 1i64 } else { 0i64 })],
                Ok::<(), crate::client::types::ClientErrorView>(()),
            );
            &&& pending_events(Some(PendingView::InfoUser), 200, resp) == want
            &&& pending_events(Some(PendingView::User { user_uuid: who }), 200, resp) == want
        }),
{
    reveal_strlit("USER");
    reveal_strlit("1");
    reveal_strlit("0");
    let flag = if online { "1"@ } else { "0"@ };
    let ws = seq!["USER"@, x, name, flag];
    let q = seq![x, name];
    assert(all_non_empty(ws)) by {
        assert forall|i: int| 0 <= i < ws.len() implies (#[trigger] ws[i]).len() > 0 by {
            if i == 1 || i == 2 {
                assert(ws[i] == q[i - 1]);
            }
        }
    }
    let v = ws.drop_first();
    assert(v =~= seq![x, name, flag]);
    let k = layout_fields(Layout::User);
    assert(!has_nul(q[0]) && !has_nul(q[1]));
    let k1 = k.subrange(0, 1);
    let k2 = k.subrange(0, 2);
    assert(k1.drop_last() =~= Seq::<(FieldKind, Seq<char>)>::empty());
    assert(k2.drop_last() =~= k1);
    assert(k.drop_last() =~= k2);
    let e: Seq<Seq<char>> = Seq::empty();
    let n: i64 = if online { 1 } else { 0 };
    assert(check_fields(k1.drop_last(), v) == Ok::<(Seq<Seq<char>>, i64), crate::client::types::ClientErrorView>((e, 0i64)));
    assert(check_fields(k1, v) == Ok::<(Seq<Seq<char>>, i64), crate::client::types::ClientErrorView>((e.push(x), 0i64)));
    assert(check_fields(k2, v) == Ok::<(Seq<Seq<char>>, i64), crate::client::types::ClientErrorView>((e.push(x).push(name), 0i64)));
    assert(crate::client::responses::status_spec(flag) == Some(n));
    assert(check_fields(k, v) == Ok::<(Seq<Seq<char>>, i64), crate::client::types::ClientErrorView>((e.push(x).push(name), n)));
    assert(e.push(x).push(name) =~= q);
    lemma_single_read(ws, "USER"@, 4, Layout::User, ClientCall::PrintUser, "invalid USER response payload"@, q, n);
}

/// A reply described by the server, `REPLY`, thread, author, timestamp,
/// body, is reported by the client waiting for `CREATE` as a reply created:
/// thread, author, body in that order, at that time.
pub proof fn lemma_reply_answer_read(
    th: Seq<char>,
    author: Seq<char>,
    ts: i64,
    body: Seq<char>,
    t: Seq<char>,
    c: Seq<char>,
)
    requires
        all_non_empty(seq![th, author, body]),
        no_nul(seq![th, author, body]),
    ensures
        pending_events(
            Some(PendingView::CreateReply { team_uuid: t, channel_uuid: c, thread_uuid: th }),
            200,
            words_response(seq!["REPLY"@, th, author, int_text(ts as int), body]),
        ) == (
            seq![(ClientCall::PrintReplyCreated, seq![th, author, body], ts)],
            Ok::<(), crate::client::types::ClientErrorView>(()),
        ),
{
    reveal_strlit("REPLY");
    lemma_int_text_reads_back(ts);
    let ws = seq!["REPLY"@, th, author, int_text(ts as int), body];
    let q = seq![th, author, body];
    assert(all_non_empty(ws)) by {
        assert forall|i: int| 0 <= i < ws.len() implies (#[trigger] ws[i]).len() > 0 by {
            if i == 1 || i == 2 {
                assert(ws[i] == q[i - 1]);
            }
            if i == 4 {
                assert(ws[i] == q[2]);
            }
        }
    }
    let v = ws.drop_first();
    assert(v =~= seq![th, author, int_text(ts as int), body]);
    let k = layout_fields(Layout::Reply);
    assert(!has_nul(q[0]) && !has_nul(q[1]) && !has_nul(q[2]));
    let k1 = k.subrange(0, 1);
    let k2 = k.subrange(0, 2);
    let k3 = k.subrange(0, 3);
    assert(k1.drop_last() =~= Seq::<(FieldKind, Seq<char>)>::empty());
    assert(k2.drop_last() =~= k1);
    assert(k3.drop_last() =~= k2);
    assert(k.drop_last() =~= k3);
    let e: Seq<Seq<char>> = Seq::empty();
    assert(check_fields(k1.drop_last(), v) == Ok::<(Seq<Seq<char>>, i64), crate::client::types::ClientErrorView>((e, 0i64)));
    assert(check_fields(k1, v) == Ok::<(Seq<Seq<char>>, i64), crate::client::types::ClientErrorView>((e.push(th), 0i64)));
    assert(check_fields(k2, v) == Ok::<(Seq<Seq<char>>, i64), crate::client::types::ClientErrorView>((e.push(th).push(author), 0i64)));
    assert(check_fields(k3, v) == Ok::<(Seq<Seq<char>>, i64), crate::client::types::ClientErrorView>((e.push(th).push(author), ts)));
    assert(check_fields(k, v) == Ok::<(Seq<Seq<char>>, i64), crate::client::types::ClientErrorView>((e.push(th).push(author).push(body), ts)));
    assert(e.push(th).push(author).push(body) =~= q);
    lemma_single_read(ws, "REPLY"@, 5, Layout::Reply, ClientCall::PrintReplyCreated, "invalid REPLY response payload"@, q, ts);
}

/// The server's `SUBSCRIBED`, user, team is reported by the client waiting
/// for `SUBSCRIBE` as that subscription, user then team; `UNSUBSCRIBED`
/// likewise for `UNSUBSCRIBE`.
pub proof fn lemma_subscription_answer_read(me: Seq<char>, t: Seq<char>)
    requires
        all_non_empty(seq![me, t]),
        no_nul(seq![me, t]),
    ensures
        pending_events(
            Some(PendingView::Subscribe { team_uuid: t }),
            200,
            words_response(seq!["SUBSCRIBED"@, me, t]),
        ) == (
            seq![(ClientCall::PrintSubscribed, seq![me, t], 0i64)],
            Ok::<(), crate::client::types::ClientErrorView>(()),
        ),
        pending_events(
            Some(PendingView::Unsubscribe { team_uuid: t }),
            200,
            words_response(seq!["UNSUBSCRIBED"@, me, t]),
        ) == (
            seq![(ClientCall::PrintUnsubscribed, seq![me, t], 0i64)],
            Ok::<(), crate::client::types::ClientErrorView>(()),
        ),
{
    reveal_strlit("SUBSCRIBED");
    reveal_strlit("UNSUBSCRIBED");
    let q = seq![me, t];
    let k = layout_fields(Layout::Subscription);
    assert(!has_nul(q[0]) && !has_nul(q[1]));
    let k1 = k.subrange(0, 1);
    assert(k1.drop_last() =~= Seq::<(FieldKind, Seq<char>)>::empty());
    assert(k.drop_last() =~= k1);
    let e: Seq<Seq<char>> = Seq::empty();
    assert(check_fields(k1.drop_last(), q) == Ok::<(Seq<Seq<char>>, i64), crate::client::types::ClientErrorView>((e, 0i64)));
    assert(check_fields(k1, q) == Ok::<(Seq<Seq<char>>, i64), crate::client::types::ClientErrorView>((e.push(me), 0i64)));
    assert(check_fields(k, q) == Ok::<(Seq<Seq<char>>, i64), crate::client::types::ClientErrorView>((e.push(me).push(t), 0i64)));
    assert(e.push(me).push(t) =~= q);
    let w1 = seq!["SUBSCRIBED"@, me, t];
    let w2 = seq!["UNSUBSCRIBED"@, me, t];
    assert(all_non_empty(w1)) by {
        assert forall|i: int| 0 <= i < w1.len() implies (#[trigger] w1[i]).len() > 0 by {
            if i > 0 { assert(w1[i] == q[i - 1]); }
        }
    }
    assert(all_non_empty(w2)) by {
        assert forall|i: int| 0 <= i < w2.len() implies (#[trigger] w2[i]).len() > 0 by {
            if i > 0 { assert(w2[i] == q[i - 1]); }
        }
    }
    assert(w1.drop_first() =~= q);
    assert(w2.drop_first() =~= q);
    lemma_single_read(w1, "SUBSCRIBED"@, 3, Layout::Subscription, ClientCall::PrintSubscribed, "invalid SUBSCRIBED response payload"@, q, 0);
    lemma_single_read(w2, "UNSUBSCRIBED"@, 3, Layout::Subscription, ClientCall::PrintUnsubscribed, "invalid UNSUBSCRIBED response payload"@, q, 0);
}


/// Whether a layout is three texts.
pub open spec fn three_texts(layout: Layout) -> bool {
    &&& layout_fields(layout).len() == 3
    &&& layout_fields(layout)[0].0 == FieldKind::Text
    &&& layout_fields(layout)[1].0 == FieldKind::Text
    &&& layout_fields(layout)[2].0 == FieldKind::Text
}

/// The calls for words taken three by three.
pub open spec fn triple_calls(call: ClientCall, vals: Seq<Seq<char>>) -> Seq<(ClientCall, Seq<Seq<char>>, i64)> {
    Seq::new(
        vals.len() / 3,
        |i: int| (call, seq![vals[3 * i], vals[3 * i + 1], vals[3 * i + 2]], 0i64),
    )
}

/// Entries of a three-text layout are read three words at a time, each
/// triple in order into one call.
proof fn lemma_three_entries(layout: Layout, call: ClientCall, vals: Seq<Seq<char>>)
    requires
        three_texts(layout),
        vals.len() % 3 == 0,
        no_nul(vals),
    ensures
        entries_spec(layout, call, None, vals) == (triple_calls(call, vals), None::<crate::client::types::ClientErrorView>),
    decreases vals.len(),
{
    assert(entry_words(layout, None) == 3);
    if vals.len() == 0 {
        assert(triple_calls(call, vals) =~= Seq::empty());
    } else {
        let p = vals.subrange(0, vals.len() - 3);
        assert forall|i: int| 0 <= i < p.len() implies !has_nul(#[trigger] p[i]) by {
            assert(p[i] == vals[i]);
        }
        lemma_three_entries(layout, call, p);
        let last = vals.subrange(vals.len() - 3, vals.len() as int);
        let n = vals.len() as int;
        assert(last =~= seq![vals[n - 3], vals[n - 2], vals[n - 1]]);
        assert(no_nul(seq![vals[n - 3], vals[n - 2], vals[n - 1]])) by {
            let q = seq![vals[n - 3], vals[n - 2], vals[n - 1]];
            assert forall|i: int| 0 <= i < 3 implies !has_nul(#[trigger] q[i]) by {
                assert(q[i] == vals[n - 3 + i]);
            }
        }
        lemma_three_texts(layout, vals[n - 3], vals[n - 2], vals[n - 1]);
        assert(entry_spec(layout, call, last) == Ok::<(ClientCall, Seq<Seq<char>>, i64), crate::client::types::ClientErrorView>((call, last, 0i64)));
        assert(triple_calls(call, p).push((call, last, 0i64)) =~= triple_calls(call, vals)) by {
            assert(vals.len() / 3 == p.len() / 3 + 1);
            assert forall|i: int| 0 <= i < p.len() / 3 implies #[trigger] p[3 * i] == vals[3 * i] && p[3 * i + 1]
                == vals[3 * i + 1] && p[3 * i + 2] == vals[3 * i + 2] by {}
        }
    }
}

/// A listing of `head` followed by whole triples of non-empty texts is read
/// as one call per triple, in order, with the triple's texts in order.
pub proof fn lemma_triple_listing_read(
    head: Seq<char>,
    layout: Layout,
    call: ClientCall,
    hm: Seq<char>,
    cm: Seq<char>,
    vals: Seq<Seq<char>>,
)
    requires
        head.len() > 0,
        three_texts(layout),
        vals.len() % 3 == 0,
        all_non_empty(vals),
        no_nul(vals),
    ensures
        listing_ok(words_response(seq![head] + vals), head, layout, call, None, hm, cm) == (
            triple_calls(call, vals),
            Ok::<(), crate::client::types::ClientErrorView>(()),
        ),
{
    let ws = seq![head] + vals;
    assert(all_non_empty(ws)) by {
        assert forall|i: int| 0 <= i < ws.len() implies (#[trigger] ws[i]).len() > 0 by {
            if i > 0 {
                assert(ws[i] == vals[i - 1]);
            }
        }
    }
    lemma_response_round_trip(200, ws);
    assert(ws.drop_first() =~= vals);
    assert(entry_words(layout, None) == 3);
    lemma_three_entries(layout, call, vals);
}


/// The server's listing of teams, or of channels, is reported by the client
/// waiting for `LIST` one call per team, or channel, in order, each with its
/// uuid, its name and its description in that order.
pub proof fn lemma_listing_answer_read(vals: Seq<Seq<char>>, t: Seq<char>)
    requires
        vals.len() % 3 == 0,
        all_non_empty(vals),
        no_nul(vals),
    ensures
        pending_events(Some(PendingView::ListTeams), 200, words_response(seq!["TEAMS"@] + vals)) == (
            triple_calls(ClientCall::PrintTeams, vals),
            Ok::<(), crate::client::types::ClientErrorView>(()),
        ),
        pending_events(
            Some(PendingView::ListChannels { team_uuid: t }),
            200,
            words_response(seq!["CHANNELS"@] + vals),
        ) == (
            triple_calls(ClientCall::PrintChannel, vals),
            Ok::<(), crate::client::types::ClientErrorView>(()),
        ),
{
    reveal_strlit("TEAMS");
    reveal_strlit("CHANNELS");
    lemma_triple_listing_read("TEAMS"@, Layout::Team, ClientCall::PrintTeams, "invalid TEAMS response payload"@, "invalid TEAMS response payload"@, vals);
    lemma_triple_listing_read("CHANNELS"@, Layout::Channel, ClientCall::PrintChannel, "invalid CHANNELS response payload"@, "invalid CHANNELS response payload"@, vals);
}

/// The texts the client keeps of a listed thread: uuid, author, title, body.
pub open spec fn thread_texts(x: ThreadRecord) -> Seq<Seq<char>> {
    seq![x.uuid, x.user_uuid, x.title, x.body]
}

/// Whether every text of a listing is non-empty and free of NUL.
pub open spec fn readable(q: Seq<Seq<char>>) -> bool {
    all_non_empty(q) && no_nul(q)
}

/// The entries of listed threads, five words each, are read one call per
/// thread, in order.
proof fn lemma_thread_entries(call: ClientCall, ths: Seq<ThreadRecord>)
    requires
        forall|i: int| 0 <= i < ths.len() ==> no_nul(thread_texts(#[trigger] ths[i])),
    ensures
        thread_rows(ths).len() == 5 * ths.len(),
        entries_spec(Layout::Thread, call, None, thread_rows(ths)) == (
            Seq::new(ths.len(), |i: int| (call, thread_texts(ths[i]), ths[i].timestamp)),
            None::<crate::client::types::ClientErrorView>,
        ),
    decreases ths.len(),
{
    assert(entry_words(Layout::Thread, None) == 5);
    if ths.len() == 0 {
        assert(Seq::new(ths.len(), |i: int| (call, thread_texts(ths[i]), ths[i].timestamp)) =~= Seq::<(ClientCall, Seq<Seq<char>>, i64)>::empty());
    } else {
        let p = ths.drop_last();
        assert forall|i: int| 0 <= i < p.len() implies no_nul(thread_texts(#[trigger] p[i])) by {
            assert(p[i] == ths[i]);
        }
        lemma_thread_entries(call, p);
        let x = ths.last();
        assert(no_nul(thread_texts(ths[ths.len() - 1])));
        let vals = thread_rows(ths);
        let row = seq![x.uuid, x.user_uuid, int_text(x.timestamp as int), x.title, x.body];
        assert(vals == thread_rows(p) + row);
        assert(vals.subrange(0, vals.len() - 5) =~= thread_rows(p));
        assert(vals.subrange(vals.len() - 5, vals.len() as int) =~= row);
        lemma_thread_fields(x.uuid, x.user_uuid, x.timestamp, x.title, x.body);
        assert(entry_spec(Layout::Thread, call, row) == Ok::<(ClientCall, Seq<Seq<char>>, i64), crate::client::types::ClientErrorView>((call, thread_texts(x), x.timestamp)));
        assert(Seq::new(p.len(), |i: int| (call, thread_texts(p[i]), p[i].timestamp)).push((call, thread_texts(x), x.timestamp))
            =~= Seq::new(ths.len(), |i: int| (call, thread_texts(ths[i]), ths[i].timestamp)));
    }
}

/// The server's listing of threads, `THREADS` followed by uuid, author,
/// timestamp, title and body of each, is reported by the client waiting for
/// `LIST` in a channel as one call per thread, in the server's order, each
/// with the thread's uuid, author, title and body in that order, at the
/// thread's time.
pub proof fn lemma_thread_listing_read(ths: Seq<ThreadRecord>, t: Seq<char>, c: Seq<char>)
    requires
        forall|i: int| 0 <= i < ths.len() ==> readable(thread_texts(#[trigger] ths[i])),
    ensures
        pending_events(
            Some(PendingView::ListThreads { team_uuid: t, channel_uuid: c }),
            200,
            words_response(seq!["THREADS"@] + thread_rows(ths)),
        ) == (
            Seq::new(
                ths.len(),
                |i: int| (ClientCall::PrintThread, seq![ths[i].uuid, ths[i].user_uuid, ths[i].title, ths[i].body], ths[i].timestamp),
            ),
            Ok::<(), crate::client::types::ClientErrorView>(()),
        ),
{
    reveal_strlit("THREADS");
    assert forall|i: int| 0 <= i < ths.len() implies no_nul(thread_texts(#[trigger] ths[i])) by {
        assert(readable(thread_texts(ths[i])));
    }
    lemma_thread_entries(ClientCall::PrintThread, ths);
    lemma_thread_rows_non_empty(ths);
    let rows = thread_rows(ths);
    let ws = seq!["THREADS"@] + rows;
    assert(all_non_empty(ws)) by {
        assert forall|i: int| 0 <= i < ws.len() implies (#[trigger] ws[i]).len() > 0 by {
            if i > 0 {
                assert(ws[i] == rows[i - 1]);
            }
        }
    }
    lemma_response_round_trip(200, ws);
    assert(ws.drop_first() =~= rows);
    assert(entry_words(Layout::Thread, None) == 5);
    assert((ws.len() - 1) % 5 == 0) by {
        assert(ws.len() - 1 == 5 * ths.len());
    }
    assert(Seq::new(ths.len(), |i: int| (ClientCall::PrintThread, thread_texts(ths[i]), ths[i].timestamp))
        =~= Seq::new(
            ths.len(),
            |i: int| (ClientCall::PrintThread, seq![ths[i].uuid, ths[i].user_uuid, ths[i].title, ths[i].body], ths[i].timestamp),
        ));
}

/// Every word of a listing of threads with non-empty texts is non-empty.
proof fn lemma_thread_rows_non_empty(ths: Seq<ThreadRecord>)
    requires
        forall|i: int| 0 <= i < ths.len() ==> readable(thread_texts(#[trigger] ths[i])),
    ensures
        all_non_empty(thread_rows(ths)),
    decreases ths.len(),
{
    if ths.len() > 0 {
        let p = ths.drop_last();
        assert forall|i: int| 0 <= i < p.len() implies readable(thread_texts(#[trigger] p[i])) by {
            assert(p[i] == ths[i]);
        }
        lemma_thread_rows_non_empty(p);
        let x = ths.last();
        assert(readable(thread_texts(ths[ths.len() - 1])));
        let q = thread_texts(x);
        assert(q[0].len() > 0 && q[1].len() > 0 && q[2].len() > 0 && q[3].len() > 0);
        lemma_int_text_reads_back(x.timestamp);
        let prev = thread_rows(p);
        let row = seq![x.uuid, x.user_uuid, int_text(x.timestamp as int), x.title, x.body];
        let all = thread_rows(ths);
        assert(all == prev + row);
        assert forall|i: int| 0 <= i < all.len() implies (#[trigger] all[i]).len() > 0 by {
            if i < prev.len() {
                assert(all[i] == prev[i]);
            } else {
                assert(all[i] == row[i - prev.len()]);
            }
        }
    }
}

/// What the checks of a reply's fields keep: thread, author and body, and
/// the timestamp.
proof fn lemma_reply_fields(th: Seq<char>, a: Seq<char>, ts: i64, b: Seq<char>)
    requires
        no_nul(seq![th, a, b]),
    ensures
        check_fields(layout_fields(Layout::Reply), seq![th, a, int_text(ts as int), b]) == Ok::<
            (Seq<Seq<char>>, i64),
            crate::client::types::ClientErrorView,
        >((seq![th, a, b], ts)),
{
    lemma_int_text_reads_back(ts);
    let v = seq![th, a, int_text(ts as int), b];
    let q = seq![th, a, b];
    let k = layout_fields(Layout::Reply);
    assert(!has_nul(q[0]) && !has_nul(q[1]) && !has_nul(q[2]));
    let k1 = k.subrange(0, 1);
    let k2 = k.subrange(0, 2);
    let k3 = k.subrange(0, 3);
    assert(k1.drop_last() =~= Seq::<(FieldKind, Seq<char>)>::empty());
    assert(k2.drop_last() =~= k1);
    assert(k3.drop_last() =~= k2);
    assert(k.drop_last() =~= k3);
    let e: Seq<Seq<char>> = Seq::empty();
    assert(check_fields(k1.drop_last(), v) == Ok::<(Seq<Seq<char>>, i64), crate::client::types::ClientErrorView>((e, 0i64)));
    assert(check_fields(k1, v) == Ok::<(Seq<Seq<char>>, i64), crate::client::types::ClientErrorView>((e.push(th), 0i64)));
    assert(check_fields(k2, v) == Ok::<(Seq<Seq<char>>, i64), crate::client::types::ClientErrorView>((e.push(th).push(a), 0i64)));
    assert(check_fields(k3, v) == Ok::<(Seq<Seq<char>>, i64), crate::client::types::ClientErrorView>((e.push(th).push(a), ts)));
    assert(check_fields(k, v) == Ok::<(Seq<Seq<char>>, i64), crate::client::types::ClientErrorView>((e.push(th).push(a).push(b), ts)));
    assert(e.push(th).push(a).push(b) =~= q);
}

/// The entries of listed replies, three words each after the thread, are
/// read one call per reply, in order, each led by the thread.
proof fn lemma_reply_entries(call: ClientCall, th: Seq<char>, rs: Seq<ReplyRecord>)
    requires
        !has_nul(th),
        forall|i: int| 0 <= i < rs.len() ==> no_nul(seq![(#[trigger] rs[i]).user_uuid, rs[i].body]),
    ensures
        reply_rows(rs).len() == 3 * rs.len(),
        entries_spec(Layout::Reply, call, Some(th), reply_rows(rs)) == (
            Seq::new(rs.len(), |i: int| (call, seq![th, rs[i].user_uuid, rs[i].body], rs[i].timestamp)),
            None::<crate::client::types::ClientErrorView>,
        ),
    decreases rs.len(),
{
    assert(entry_words(Layout::Reply, Some(th)) == 3);
    if rs.len() == 0 {
        assert(Seq::new(rs.len(), |i: int| (call, seq![th, rs[i].user_uuid, rs[i].body], rs[i].timestamp)) =~= Seq::<(ClientCall, Seq<Seq<char>>, i64)>::empty());
    } else {
        let p = rs.drop_last();
        assert forall|i: int| 0 <= i < p.len() implies no_nul(seq![(#[trigger] p[i]).user_uuid, p[i].body]) by {
            assert(p[i] == rs[i]);
        }
        lemma_reply_entries(call, th, p);
        let x = rs.last();
        assert(no_nul(seq![rs[rs.len() - 1].user_uuid, rs[rs.len() - 1].body]));
        let q = seq![th, x.user_uuid, x.body];
        assert(no_nul(q)) by {
            let r = seq![x.user_uuid, x.body];
            assert(!has_nul(r[0]) && !has_nul(r[1]));
            assert forall|i: int| 0 <= i < 3 implies !has_nul(#[trigger] q[i]) by {
                if i > 0 { assert(q[i] == r[i - 1]); }
            }
        }
        let vals = reply_rows(rs);
        let row = seq![x.user_uuid, int_text(x.timestamp as int), x.body];
        assert(vals == reply_rows(p) + row);
        assert(vals.subrange(0, vals.len() - 3) =~= reply_rows(p));
        assert(seq![th] + vals.subrange(vals.len() - 3, vals.len() as int) =~= seq![th, x.user_uuid, int_text(x.timestamp as int), x.body]);
        lemma_reply_fields(th, x.user_uuid, x.timestamp, x.body);
        assert(Seq::new(p.len(), |i: int| (call, seq![th, p[i].user_uuid, p[i].body], p[i].timestamp)).push((call, q, x.timestamp))
            =~= Seq::new(rs.len(), |i: int| (call, seq![th, rs[i].user_uuid, rs[i].body], rs[i].timestamp)));
    }
}

/// Every word of a listing of replies with non-empty texts is non-empty.
proof fn lemma_reply_rows_non_empty(rs: Seq<ReplyRecord>)
    requires
        forall|i: int| 0 <= i < rs.len() ==> readable(seq![(#[trigger] rs[i]).user_uuid, rs[i].body]),
    ensures
        all_non_empty(reply_rows(rs)),
    decreases rs.len(),
{
    if rs.len() > 0 {
        let p = rs.drop_last();
        assert forall|i: int| 0 <= i < p.len() implies readable(seq![(#[trigger] p[i]).user_uuid, p[i].body]) by {
            assert(p[i] == rs[i]);
        }
        lemma_reply_rows_non_empty(p);
        let x = rs.last();
        assert(readable(seq![rs[rs.len() - 1].user_uuid, rs[rs.len() - 1].body]));
        let q = seq![x.user_uuid, x.body];
        assert(q[0].len() > 0 && q[1].len() > 0);
        lemma_int_text_reads_back(x.timestamp);
        let prev = reply_rows(p);
        let row = seq![x.user_uuid, int_text(x.timestamp as int), x.body];
        let all = reply_rows(rs);
        assert(all == prev + row);
        assert forall|i: int| 0 <= i < all.len() implies (#[trigger] all[i]).len() > 0 by {
            if i < prev.len() {
                assert(all[i] == prev[i]);
            } else {
                assert(all[i] == row[i - prev.len()]);
            }
        }
    }
}

/// The server's listing of replies, `REPLIES` followed by author, timestamp
/// and body of each, is reported by the client waiting for `LIST` in thread
/// `th` as one call per reply, in the server's order, each with the thread,
/// the reply's author and its body in that order, at the reply's time.
pub proof fn lemma_reply_listing_read(rs: Seq<ReplyRecord>, t: Seq<char>, c: Seq<char>, th: Seq<char>)
    requires
        !has_nul(th),
        forall|i: int| 0 <= i < rs.len() ==> readable(seq![(#[trigger] rs[i]).user_uuid, rs[i].body]),
    ensures
        pending_events(
            Some(PendingView::ListReplies { team_uuid: t, channel_uuid: c, thread_uuid: th }),
            200,
            words_response(seq!["REPLIES"@] + reply_rows(rs)),
        ) == (
            Seq::new(
                rs.len(),
                |i: int| (ClientCall::ThreadPrintReplies, seq![th, rs[i].user_uuid, rs[i].body], rs[i].timestamp),
            ),
            Ok::<(), crate::client::types::ClientErrorView>(()),
        ),
{
    reveal_strlit("REPLIES");
    assert forall|i: int| 0 <= i < rs.len() implies no_nul(seq![(#[trigger] rs[i]).user_uuid, rs[i].body]) by {
        assert(readable(seq![rs[i].user_uuid, rs[i].body]));
    }
    lemma_reply_entries(ClientCall::ThreadPrintReplies, th, rs);
    lemma_reply_rows_non_empty(rs);
    let rows = reply_rows(rs);
    let ws = seq!["REPLIES"@] + rows;
    assert(all_non_empty(ws)) by {
        assert forall|i: int| 0 <= i < ws.len() implies (#[trigger] ws[i]).len() > 0 by {
            if i > 0 {
                assert(ws[i] == rows[i - 1]);
            }
        }
    }
    lemma_response_round_trip(200, ws);
    assert(ws.drop_first() =~= rows);
    assert(entry_words(Layout::Reply, Some(th)) == 3);
    assert((ws.len() - 1) % 3 == 0) by {
        assert(ws.len() - 1 == 3 * rs.len());
    }
}

/// What the checks of a message's fields keep: sender and body, and the
/// timestamp.
proof fn lemma_message_fields(a: Seq<char>, ts: i64, b: Seq<char>)
    requires
        no_nul(seq![a, b]),
    ensures
        check_fields(layout_fields(Layout::Message), seq![a, int_text(ts as int), b]) == Ok::<
            (Seq<Seq<char>>, i64),
            crate::client::types::ClientErrorView,
        >((seq![a, b], ts)),
{
    lemma_int_text_reads_back(ts);
    let v = seq![a, int_text(ts as int), b];
    let q = seq![a, b];
    let k = layout_fields(Layout::Message);
    assert(!has_nul(q[0]) && !has_nul(q[1]));
    let k1 = k.subrange(0, 1);
    let k2 = k.subrange(0, 2);
    assert(k1.drop_last() =~= Seq::<(FieldKind, Seq<char>)>::empty());
    assert(k2.drop_last() =~= k1);
    assert(k.drop_last() =~= k2);
    let e: Seq<Seq<char>> = Seq::empty();
    assert(check_fields(k1.drop_last(), v) == Ok::<(Seq<Seq<char>>, i64), crate::client::types::ClientErrorView>((e, 0i64)));
    assert(check_fields(k1, v) == Ok::<(Seq<Seq<char>>, i64), crate::client::types::ClientErrorView>((e.push(a), 0i64)));
    assert(check_fields(k2, v) == Ok::<(Seq<Seq<char>>, i64), crate::client::types::ClientErrorView>((e.push(a), ts)));
    assert(check_fields(k, v) == Ok::<(Seq<Seq<char>>, i64), crate::client::types::ClientErrorView>((e.push(a).push(b), ts)));
    assert(e.push(a).push(b) =~= q);
}

/// The entries of listed messages, three words each, are read one call per
/// message, in order.
proof fn lemma_message_entries(call: ClientCall, ms: Seq<MessageRecord>)
    requires
        forall|i: int| 0 <= i < ms.len() ==> readable(seq![(#[trigger] ms[i]).sender_uuid, ms[i].body]),
    ensures
        message_rows(ms).len() == 3 * ms.len(),
        all_non_empty(message_rows(ms)),
        entries_spec(Layout::Message, call, None, message_rows(ms)) == (
            Seq::new(ms.len(), |i: int| (call, seq![ms[i].sender_uuid, ms[i].body], ms[i].timestamp)),
            None::<crate::client::types::ClientErrorView>,
        ),
    decreases ms.len(),
{
    assert(entry_words(Layout::Message, None) == 3);
    if ms.len() == 0 {
        assert(Seq::new(ms.len(), |i: int| (call, seq![ms[i].sender_uuid, ms[i].body], ms[i].timestamp)) =~= Seq::<(ClientCall, Seq<Seq<char>>, i64)>::empty());
    } else {
        let p = ms.drop_last();
        assert forall|i: int| 0 <= i < p.len() implies readable(seq![(#[trigger] p[i]).sender_uuid, p[i].body]) by {
            assert(p[i] == ms[i]);
        }
        lemma_message_entries(call, p);
        let x = ms.last();
        assert(readable(seq![ms[ms.len() - 1].sender_uuid, ms[ms.len() - 1].body]));
        let q = seq![x.sender_uuid, x.body];
        assert(q[0].len() > 0 && q[1].len() > 0);
        lemma_int_text_reads_back(x.timestamp);
        let prev = message_rows(p);
        let row = seq![x.sender_uuid, int_text(x.timestamp as int), x.body];
        let vals = message_rows(ms);
        assert(vals == prev + row);
        assert forall|i: int| 0 <= i < vals.len() implies (#[trigger] vals[i]).len() > 0 by {
            if i < prev.len() {
                assert(vals[i] == prev[i]);
            } else {
                assert(vals[i] == row[i - prev.len()]);
            }
        }
        assert(vals.subrange(0, vals.len() - 3) =~= prev);
        assert(vals.subrange(vals.len() - 3, vals.len() as int) =~= row);
        lemma_message_fields(x.sender_uuid, x.timestamp, x.body);
        assert(Seq::new(p.len(), |i: int| (call, seq![p[i].sender_uuid, p[i].body], p[i].timestamp)).push((call, q, x.timestamp))
            =~= Seq::new(ms.len(), |i: int| (call, seq![ms[i].sender_uuid, ms[i].body], ms[i].timestamp)));
    }
}

/// The server's listing of messages, `MESSAGES` followed by sender,
/// timestamp and body of each, is reported by the client waiting for
/// `MESSAGES` as one call per message, in the server's order, each with the
/// sender then the body, at the message's time.
pub proof fn lemma_message_listing_read(ms: Seq<MessageRecord>, who: Seq<char>)
    requires
        forall|i: int| 0 <= i < ms.len() ==> readable(seq![(#[trigger] ms[i]).sender_uuid, ms[i].body]),
    ensures
        pending_events(
            Some(PendingView::Messages { user_uuid: who }),
            200,
            words_response(seq!["MESSAGES"@] + message_rows(ms)),
        ) == (
            Seq::new(
                ms.len(),
                |i: int| (ClientCall::PrivateMessagePrintMessages, seq![ms[i].sender_uuid, ms[i].body], ms[i].timestamp),
            ),
            Ok::<(), crate::client::types::ClientErrorView>(()),
        ),
{
    reveal_strlit("MESSAGES");
    lemma_message_entries(ClientCall::PrivateMessagePrintMessages, ms);
    let rows = message_rows(ms);
    let ws = seq!["MESSAGES"@] + rows;
    assert(all_non_empty(ws)) by {
        assert forall|i: int| 0 <= i < ws.len() implies (#[trigger] ws[i]).len() > 0 by {
            if i > 0 {
                assert(ws[i] == rows[i - 1]);
            }
        }
    }
    lemma_response_round_trip(200, ws);
    assert(ws.drop_first() =~= rows);
    assert((ws.len() - 1) % 3 == 0) by {
        assert(ws.len() - 1 == 3 * ms.len());
    }
}

/// The entries of listed users, three words each, are read one call per
/// user, in order, online exactly when the flag is set.
proof fn lemma_user_entries(call: ClientCall, rows: Seq<(Seq<char>, Seq<char>, bool)>)
    requires
        forall|i: int| 0 <= i < rows.len() ==> readable(seq![(#[trigger] rows[i]).0, rows[i].1]),
    ensures
        user_rows(rows).len() == 3 * rows.len(),
        all_non_empty(user_rows(rows)),
        entries_spec(Layout::User, call, None, user_rows(rows)) == (
            Seq::new(rows.len(), |i: int| (call, seq![rows[i].0, rows[i].1], if rows[i].2 { 1i64 } else { 0i64 })),
            None::<crate::client::types::ClientErrorView>,
        ),
    decreases rows.len(),
{
    reveal_strlit("1");
    reveal_strlit("0");
    assert(entry_words(Layout::User, None) == 3);
    if rows.len() == 0 {
        assert(Seq::new(rows.len(), |i: int| (call, seq![rows[i].0, rows[i].1], if rows[i].2 { 1i64 } else { 0i64 })) =~= Seq::<(ClientCall, Seq<Seq<char>>, i64)>::empty());
    } else {
        let p = rows.drop_last();
        assert forall|i: int| 0 <= i < p.len() implies readable(seq![(#[trigger] p[i]).0, p[i].1]) by {
            assert(p[i] == rows[i]);
        }
        lemma_user_entries(call, p);
        let x = rows.last();
        assert(readable(seq![rows[rows.len() - 1].0, rows[rows.len() - 1].1]));
        let q = seq![x.0, x.1];
        assert(q[0].len() > 0 && q[1].len() > 0);
        assert(!has_nul(q[0]) && !has_nul(q[1]));
        let flag = flag_view(x.2);
        let prev = user_rows(p);
        let row = seq![x.0, x.1, flag];
        let vals = user_rows(rows);
        assert(vals == prev + row);
        assert forall|i: int| 0 <= i < vals.len() implies (#[trigger] vals[i]).len() > 0 by {
            if i < prev.len() {
                assert(vals[i] == prev[i]);
            } else {
                assert(vals[i] == row[i - prev.len()]);
            }
        }
        assert(vals.subrange(0, vals.len() - 3) =~= prev);
        assert(vals.subrange(vals.len() - 3, vals.len() as int) =~= row);
        let n: i64 = if x.2 { 1 } else { 0 };
        let k = layout_fields(Layout::User);
        let k1 = k.subrange(0, 1);
        let k2 = k.subrange(0, 2);
        assert(k1.drop_last() =~= Seq::<(FieldKind, Seq<char>)>::empty());
        assert(k2.drop_last() =~= k1);
        assert(k.drop_last() =~= k2);
        let e: Seq<Seq<char>> = Seq::empty();
        assert(check_fields(k1.drop_last(), row) == Ok::<(Seq<Seq<char>>, i64), crate::client::types::ClientErrorView>((e, 0i64)));
        assert(check_fields(k1, row) == Ok::<(Seq<Seq<char>>, i64), crate::client::types::ClientErrorView>((e.push(x.0), 0i64)));
        assert(check_fields(k2, row) == Ok::<(Seq<Seq<char>>, i64), crate::client::types::ClientErrorView>((e.push(x.0).push(x.1), 0i64)));
        assert(crate::client::responses::status_spec(flag) == Some(n));
        assert(check_fields(k, row) == Ok::<(Seq<Seq<char>>, i64), crate::client::types::ClientErrorView>((e.push(x.0).push(x.1), n)));
        assert(e.push(x.0).push(x.1) =~= q);
        assert(Seq::new(p.len(), |i: int| (call, seq![p[i].0, p[i].1], if p[i].2 { 1i64 } else { 0i64 })).push((call, q, n))
            =~= Seq::new(rows.len(), |i: int| (call, seq![rows[i].0, rows[i].1], if rows[i].2 { 1i64 } else { 0i64 })));
    }
}

/// The server's listing of users, `USERS` followed by uuid, name and online
/// flag of each, is reported by the client waiting for `USERS` as one call
/// per user, in the server's order, each with the uuid then the name,
/// online exactly when the user's flag is set.
pub proof fn lemma_user_listing_read(rows: Seq<(Seq<char>, Seq<char>, bool)>)
    requires
        forall|i: int| 0 <= i < rows.len() ==> readable(seq![(#[trigger] rows[i]).0, rows[i].1]),
    ensures
        pending_events(Some(PendingView::Users), 200, words_response(seq!["USERS"@] + user_rows(rows))) == (
            Seq::new(
                rows.len(),
                |i: int| (ClientCall::PrintUsers, seq![rows[i].0, rows[i].1], if rows[i].2 { 1i64 } else { 0i64 }),
            ),
            Ok::<(), crate::client::types::ClientErrorView>(()),
        ),
{
    reveal_strlit("USERS");
    lemma_user_entries(ClientCall::PrintUsers, rows);
    let vals = user_rows(rows);
    let ws = seq!["USERS"@] + vals;
    assert(all_non_empty(ws)) by {
        assert forall|i: int| 0 <= i < ws.len() implies (#[trigger] ws[i]).len() > 0 by {
            if i > 0 {
                assert(ws[i] == vals[i - 1]);
            }
        }
    }
    lemma_response_round_trip(200, ws);
    assert(ws.drop_first() =~= vals);
    assert((ws.len() - 1) % 3 == 0) by {
        assert(ws.len() - 1 == 3 * rows.len());
    }
}

} // verus!
