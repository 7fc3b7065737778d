//! Delivery of info events to the connected sessions of their recipients.
use vstd::prelude::*;

use crate::server::session::InfoEvent;
use crate::text::str_eq;

verus! {

/// Whether a session user, as `user_uuid_of` reported it, is the recipient of
/// none of the events.
pub open spec fn addresses_none(user: Option<&str>, events: Seq<InfoEvent>) -> bool {
    match user {
        Some(u) => forall|i: int| 0 <= i < events.len() ==> u@ != (#[trigger] events[i]).recipient_user_uuid@,
        None => true,
    }
}

/// Whether a session's user, as some state of `F` reports it, is the
/// recipient of one of the events.
pub open spec fn addressed<S, F: FnMut(&S) -> Option<&str>>(s: &S, events: Seq<InfoEvent>) -> bool {
    exists|f: F, u: Option<&str>| #[trigger] f.ensures((s,), u) && !addresses_none(u, events)
}

/// Whether `payload` is the payload of an event whose recipient is the
/// session's user, as some state of `F` reports it.
pub open spec fn deliverable<S, F: FnMut(&S) -> Option<&str>>(
    s: &S,
    payload: Seq<char>,
    events: Seq<InfoEvent>,
) -> bool {
    exists|f: F, u: &str, i: int|
        0 <= i < events.len() && #[trigger] f.ensures((s,), Some(u)) && u@
            == events[i].recipient_user_uuid@ && payload == #[trigger] events[i].payload@
}

/// Whether every state of `F` reports the same user for a session: the user
/// depends on the session alone.
pub open spec fn reports_by_session<S, F: FnMut(&S) -> Option<&str>>() -> bool {
    forall|f1: F, f2: F, s: &S, u1: Option<&str>, u2: Option<&str>|
        #[trigger] f1.ensures((s,), u1) && #[trigger] f2.ensures((s,), u2) ==> u1 == u2
}

/// Whether every send through a state of `G` fails.
pub open spec fn sends_fail<S, G: FnMut(&mut S, &str) -> bool>() -> bool {
    forall|g: G, s: &mut S, p: &str, ok: bool| #[trigger] g.ensures((s, p), ok) ==> !ok
}

/// Whether every send through a state of `G` succeeds.
pub open spec fn sends_succeed<S, G: FnMut(&mut S, &str) -> bool>() -> bool {
    forall|g: G, s: &mut S, p: &str, ok: bool| #[trigger] g.ensures((s, p), ok) ==> ok
}

/// The sessions, in order, whose user is the recipient of none of the events.
pub open spec fn kept_sessions<S, F: FnMut(&S) -> Option<&str>>(
    sessions: Seq<S>,
    events: Seq<InfoEvent>,
) -> Seq<S>
    decreases sessions.len(),
{
    if sessions.len() == 0 {
        sessions
    } else {
        let rest = kept_sessions::<S, F>(sessions.drop_last(), events);
        if addressed::<S, F>(&sessions.last(), events) {
            rest
        } else {
            rest.push(sessions.last())
        }
    }
}

/// One event's round: each session whose user is the recipient is sent the
/// payload and stays, as `after` leaves it, when `sent` says the send
/// succeeded; the other sessions stay untouched; the order is kept.
pub open spec fn round<S, F: FnMut(&S) -> Option<&str>>(
    sessions: Seq<S>,
    event: InfoEvent,
    sent: spec_fn(S, Seq<char>) -> bool,
    after: spec_fn(S, Seq<char>) -> S,
) -> Seq<S>
    decreases sessions.len(),
{
    if sessions.len() == 0 {
        sessions
    } else {
        let prev = round::<S, F>(sessions.drop_last(), event, sent, after);
        let s = sessions.last();
        if addressed::<S, F>(&s, seq![event]) {
            if sent(s, event.payload@) {
                prev.push(after(s, event.payload@))
            } else {
                prev
            }
        } else {
            prev.push(s)
        }
    }
}

/// The sessions after the rounds of all events, in order.
pub open spec fn dispatched<S, F: FnMut(&S) -> Option<&str>>(
    sessions: Seq<S>,
    events: Seq<InfoEvent>,
    sent: spec_fn(S, Seq<char>) -> bool,
    after: spec_fn(S, Seq<char>) -> S,
) -> Seq<S>
    decreases events.len(),
{
    if events.len() == 0 {
        sessions
    } else {
        round::<S, F>(dispatched::<S, F>(sessions, events.drop_last(), sent, after), events.last(), sent, after)
    }
}

/// One event's round in closed form: the sessions stay in order, except
/// those whose user is the recipient and whose send fails; of those that
/// stay, each whose user is the recipient is as its send left it, the others
/// untouched.
pub proof fn lemma_round_closed_form<S, F: FnMut(&S) -> Option<&str>>(
    sessions: Seq<S>,
    event: InfoEvent,
    sent: spec_fn(S, Seq<char>) -> bool,
    after: spec_fn(S, Seq<char>) -> S,
)
    ensures
        round::<S, F>(sessions, event, sent, after) == sessions.filter(
            |s: S| !addressed::<S, F>(&s, seq![event]) || sent(s, event.payload@),
        ).map_values(
            |s: S|
                if addressed::<S, F>(&s, seq![event]) {
                    after(s, event.payload@)
                } else {
                    s
                },
        ),
    decreases sessions.len(),
{
    reveal(Seq::filter);
    let keep = |s: S| !addressed::<S, F>(&s, seq![event]) || sent(s, event.payload@);
    let out = |s: S|
        if addressed::<S, F>(&s, seq![event]) {
            after(s, event.payload@)
        } else {
            s
        };
    if sessions.len() == 0 {
        assert(sessions.filter(keep).map_values(out) =~= sessions);
    } else {
        let q = sessions.drop_last();
        lemma_round_closed_form::<S, F>(q, event, sent, after);
        let f = q.filter(keep);
        assert(sessions.filter(keep) == (if keep(sessions.last()) { f.push(sessions.last()) } else { f }));
        assert(f.push(sessions.last()).map_values(out) =~= f.map_values(out).push(out(sessions.last())));
    }
}

/// Being addressed by two lists of events is being addressed by one of them.
proof fn lemma_addressed_concat<S, F: FnMut(&S) -> Option<&str>>(
    s: &S,
    a: Seq<InfoEvent>,
    b: Seq<InfoEvent>,
)
    ensures
        addressed::<S, F>(s, a + b) == (addressed::<S, F>(s, a) || addressed::<S, F>(s, b)),
{
    assert forall|u: Option<&str>| addresses_none(u, a + b) == (addresses_none(u, a)
        && addresses_none(u, b)) by {
        if let Some(x) = u {
            if addresses_none(u, a) && addresses_none(u, b) {
                assert forall|i: int| 0 <= i < (a + b).len() implies x@ != (#[trigger] (a
                    + b)[i]).recipient_user_uuid@ by {
                    if i < a.len() {
                        assert((a + b)[i] == a[i]);
                    } else {
                        assert((a + b)[i] == b[i - a.len()]);
                    }
                }
            }
            if addresses_none(u, a + b) {
                assert forall|i: int| 0 <= i < a.len() implies x@
                    != (#[trigger] a[i]).recipient_user_uuid@ by {
                    assert((a + b)[i] == a[i]);
                }
                assert forall|i: int| 0 <= i < b.len() implies x@
                    != (#[trigger] b[i]).recipient_user_uuid@ by {
                    assert((a + b)[a.len() + i] == b[i]);
                }
            }
        }
    }
}

/// Keeping the sessions addressed by none of `a`, then by none of `b`, is
/// keeping those addressed by none of both.
proof fn lemma_kept_twice<S, F: FnMut(&S) -> Option<&str>>(
    sessions: Seq<S>,
    a: Seq<InfoEvent>,
    b: Seq<InfoEvent>,
)
    ensures
        kept_sessions::<S, F>(kept_sessions::<S, F>(sessions, a), b) == kept_sessions::<S, F>(
            sessions,
            a + b,
        ),
    decreases sessions.len(),
{
    if sessions.len() > 0 {
        let l = sessions.last();
        lemma_kept_twice::<S, F>(sessions.drop_last(), a, b);
        lemma_addressed_concat::<S, F>(&l, a, b);
        let r = kept_sessions::<S, F>(sessions.drop_last(), a);
        if !addressed::<S, F>(&l, a) {
            assert(r.push(l).drop_last() =~= r);
            assert(r.push(l).last() == l);
        }
    }
}

/// Dispatch info events to matching client sessions: for each event in
/// turn, every session whose user is the recipient is sent the payload and
/// dropped when the send fails; the other sessions stay, in order.
///
/// `send_payload` is only ever handed the payload of an event whose recipient
/// is the session's user. Where the user reported for a session depends on
/// the session alone and whether a send succeeds, and what it leaves of the
/// session, depend on the session and the payload alone, the sessions that
/// stay are exactly `dispatched` of them: any mix of outcomes. When every
/// send fails, what stays is the sessions, in order and untouched, whose user
/// is the recipient of no event; when every send succeeds, no session is
/// dropped and those same sessions stay untouched in their places.
pub fn dispatch_info_events<Session, UserUuid, SendPayload>(
    sessions: &mut Vec<Session>,
    events: &[InfoEvent],
    mut user_uuid_of: UserUuid,
    mut send_payload: SendPayload,
) where UserUuid: FnMut(&Session) -> Option<&str>, SendPayload: FnMut(&mut Session, &str) -> bool
    requires
        forall|s: &Session| #[trigger] user_uuid_of.requires((s,)),
        forall|s: &mut Session, p: &str|
            deliverable::<Session, UserUuid>(&*s, p@, events@) ==> #[trigger] send_payload.requires(
                (s, p),
            ),
    ensures
        final(sessions)@.len() <= old(sessions)@.len(),
        events@.len() == 0 ==> final(sessions)@ == old(sessions)@,
        (forall|f: UserUuid, s: &Session, u: Option<&str>|
            #[trigger] f.ensures((s,), u) ==> addresses_none(u, events@))
            ==> final(sessions)@ == old(sessions)@,
        (forall|g: SendPayload, s: &mut Session, p: &str, ok: bool| #[trigger] g.ensures((s, p), ok) ==> ok)
            ==> final(sessions)@.len() == old(sessions)@.len(),
        reports_by_session::<Session, UserUuid>() && sends_fail::<Session, SendPayload>()
            ==> final(sessions)@ == kept_sessions::<Session, UserUuid>(old(sessions)@, events@),
        reports_by_session::<Session, UserUuid>() && sends_succeed::<Session, SendPayload>()
            ==> forall|i: int|
            0 <= i < old(sessions)@.len() && !addressed::<Session, UserUuid>(
                &old(sessions)@[i],
                events@,
            ) ==> #[trigger] final(sessions)@[i] == old(sessions)@[i],
        forall|sent: spec_fn(Session, Seq<char>) -> bool, after: spec_fn(Session, Seq<char>) -> Session|
            (reports_by_session::<Session, UserUuid>() && forall|g: SendPayload, m: &mut Session, p: &str, ok: bool|
                #[trigger] g.ensures((m, p), ok) ==> ok == sent(*m, p@) && *final(m) == after(*m, p@))
            ==> final(sessions)@ == #[trigger] dispatched::<Session, UserUuid>(old(sessions)@, events@, sent, after),
{
    let ghost orig = sessions@;
    let ghost h_fail = reports_by_session::<Session, UserUuid>() && sends_fail::<Session, SendPayload>();
    let ghost h_ok = reports_by_session::<Session, UserUuid>() && sends_succeed::<Session, SendPayload>();
    let mut e: usize = 0;
    proof {
        assert(events@.take(0) =~= Seq::<InfoEvent>::empty());
        lemma_kept_none::<Session, UserUuid>(orig);
        assert forall|i: int| 0 <= i < orig.len() implies !addressed::<Session, UserUuid>(
            &#[trigger] orig[i],
            events@.take(0),
        ) by {
            lemma_addressed_none_empty::<Session, UserUuid>(&orig[i]);
        }
    }
    while e < events.len()
        invariant
            forall|s: &Session| #[trigger] user_uuid_of.requires((s,)),
            forall|s: &mut Session, p: &str|
                deliverable::<Session, UserUuid>(&*s, p@, events@) ==> #[trigger] send_payload.requires(
                    (s, p),
                ),
            orig == old(sessions)@,
            sessions@.len() <= old(sessions)@.len(),
            e <= events@.len(),
            e == 0 ==> sessions@ == old(sessions)@,
            (forall|f: UserUuid, s: &Session, u: Option<&str>|
                #[trigger] f.ensures((s,), u) ==> addresses_none(u, events@))
                ==> sessions@ == old(sessions)@,
            (forall|g: SendPayload, s: &mut Session, p: &str, ok: bool| #[trigger] g.ensures((s, p), ok) ==> ok)
                ==> sessions@.len() == old(sessions)@.len(),
            h_fail == (reports_by_session::<Session, UserUuid>() && sends_fail::<Session, SendPayload>()),
            h_ok == (reports_by_session::<Session, UserUuid>() && sends_succeed::<Session, SendPayload>()),
            h_fail ==> sessions@ == kept_sessions::<Session, UserUuid>(orig, events@.take(e as int)),
            h_ok ==> forall|i: int|
                0 <= i < orig.len() && !addressed::<Session, UserUuid>(&orig[i], events@.take(e as int))
                    ==> #[trigger] sessions@[i] == orig[i],
            forall|sent: spec_fn(Session, Seq<char>) -> bool, after: spec_fn(Session, Seq<char>) -> Session|
                (reports_by_session::<Session, UserUuid>() && forall|g: SendPayload, m: &mut Session, p: &str, ok: bool|
                #[trigger] g.ensures((m, p), ok) ==> ok == sent(*m, p@) && *final(m) == after(*m, p@))
                ==> sessions@ == #[trigger] dispatched::<Session, UserUuid>(orig, events@.take(e as int), sent, after),
        decreases events.len() - e,
    {
        let mut kept: Vec<Session> = Vec::new();
        let mut pending: Vec<Session> = Vec::new();
        std::mem::swap(&mut pending, sessions);
        let ghost total = pending@.len();
        let ghost start = pending@;
        let ghost ev = seq![events@[e as int]];
        proof {
            assert(start.skip(0) =~= start);
            assert(start.take(0) =~= Seq::<Session>::empty());
        }
        while pending.len() > 0
            invariant
                forall|s: &Session| #[trigger] user_uuid_of.requires((s,)),
                forall|s: &mut Session, p: &str|
                    deliverable::<Session, UserUuid>(&*s, p@, events@) ==> #[trigger] send_payload.requires(
                        (s, p),
                    ),
                kept@.len() + pending@.len() <= total,
                total == start.len(),
                total <= old(sessions)@.len(),
                e < events@.len(),
                ev == seq![events@[e as int]],
                pending@ == start.skip(total - pending@.len()),
                (forall|f: UserUuid, s: &Session, u: Option<&str>|
                    #[trigger] f.ensures((s,), u) ==> addresses_none(u, events@))
                    ==> kept@ + pending@ == start,
                (forall|g: SendPayload, s: &mut Session, p: &str, ok: bool| #[trigger] g.ensures((s, p), ok) ==> ok)
                    ==> kept@.len() + pending@.len() == total,
                h_fail == (reports_by_session::<Session, UserUuid>() && sends_fail::<Session, SendPayload>()),
                h_ok == (reports_by_session::<Session, UserUuid>() && sends_succeed::<Session, SendPayload>()),
                h_fail ==> kept@ == kept_sessions::<Session, UserUuid>(
                    start.take(total - pending@.len()),
                    ev,
                ),
                h_ok ==> kept@.len() == total - pending@.len(),
                h_ok ==> forall|j: int|
                    0 <= j < kept@.len() && !addressed::<Session, UserUuid>(&start[j], ev)
                        ==> #[trigger] kept@[j] == start[j],
                forall|sent: spec_fn(Session, Seq<char>) -> bool, after: spec_fn(Session, Seq<char>) -> Session|
                    (reports_by_session::<Session, UserUuid>() && forall|g: SendPayload, m: &mut Session, p: &str, ok: bool|
                #[trigger] g.ensures((m, p), ok) ==> ok == sent(*m, p@) && *final(m) == after(*m, p@))
                    ==> kept@ == #[trigger] round::<Session, UserUuid>(start.take(total - pending@.len()), events@[e as int], sent, after),
                forall|sent: spec_fn(Session, Seq<char>) -> bool, after: spec_fn(Session, Seq<char>) -> Session|
                    (reports_by_session::<Session, UserUuid>() && forall|g: SendPayload, m: &mut Session, p: &str, ok: bool|
                #[trigger] g.ensures((m, p), ok) ==> ok == sent(*m, p@) && *final(m) == after(*m, p@))
                    ==> start == #[trigger] dispatched::<Session, UserUuid>(orig, events@.take(e as int), sent, after),
                orig == old(sessions)@,
            decreases pending.len(),
        {
            let ghost done = total - pending@.len();
            let mut session = pending.remove(0);
            let ghost before = session;
            assert(before == start[done]);
            let user = user_uuid_of(&session);
            let matches = match user {
                Some(u) => str_eq(u, events[e].recipient_user_uuid.as_str()),
                None => false,
            };
            proof {
                if matches {
                    assert(ev[0] == events@[e as int]);
                    assert(user matches Some(u) && u@ == ev[0].recipient_user_uuid@);
                    assert(!addresses_none(user, ev));
                    assert(addressed::<Session, UserUuid>(&before, ev));
                } else {
                    if reports_by_session::<Session, UserUuid>() {
                        assert forall|f: UserUuid, u: Option<&str>| #[trigger] f.ensures((&before,), u)
                            implies addresses_none(u, ev) by {
                            assert(u == user);
                        }
                        assert(!addressed::<Session, UserUuid>(&before, ev));
                    }
                }
            }
            proof {
                if matches {
                    assert(user matches Some(u) && u@ == events@[e as int].recipient_user_uuid@);
                    assert(deliverable::<Session, UserUuid>(
                        &session,
                        events@[e as int].payload@,
                        events@,
                    ));
                }
            }
            let keep = if matches {
                send_payload(&mut session, events[e].payload.as_str())
            } else {
                true
            };
            proof {
                let t = start.take(done + 1);
                assert(t.drop_last() =~= start.take(done));
                assert(t.last() == before);
            }
            let ghost kept_before = kept@;
            let ghost sv = session;
            if keep {
                kept.push(session);
            }
            proof {
                assert(pending@ =~= start.skip(total - pending@.len()));
                let t = start.take(done + 1);
                let ev0 = events@[e as int];
                assert forall|sent: spec_fn(Session, Seq<char>) -> bool, after: spec_fn(Session, Seq<char>) -> Session|
                    (reports_by_session::<Session, UserUuid>() && forall|g: SendPayload, m: &mut Session, p: &str, ok: bool|
                #[trigger] g.ensures((m, p), ok) ==> ok == sent(*m, p@) && *final(m) == after(*m, p@))
                    implies kept@ == #[trigger] round::<Session, UserUuid>(t, ev0, sent, after) by {
                    assert(kept_before == round::<Session, UserUuid>(start.take(done), ev0, sent, after));
                    assert(seq![ev0] == ev);
                    if matches {
                        assert(addressed::<Session, UserUuid>(&before, ev));
                        assert(keep == sent(before, ev0.payload@));
                        assert(sv == after(before, ev0.payload@));
                    } else {
                        assert(!addressed::<Session, UserUuid>(&before, ev));
                    }
                }
            }
        }
        proof {
            assert(start.take(total as int) =~= start);
            if h_fail {
                lemma_kept_twice::<Session, UserUuid>(orig, events@.take(e as int), ev);
                assert(events@.take(e as int) + ev =~= events@.take(e + 1));
            }
            if h_ok {
                assert forall|i: int|
                    0 <= i < orig.len() && !addressed::<Session, UserUuid>(&orig[i], events@.take(e + 1))
                    implies #[trigger] kept@[i] == orig[i] by {
                    assert(events@.take(e as int) + ev =~= events@.take(e + 1));
                    lemma_addressed_concat::<Session, UserUuid>(&orig[i], events@.take(e as int), ev);
                }
            }
        }
        proof {
            let ev0 = events@[e as int];
            assert(events@.take(e + 1).drop_last() =~= events@.take(e as int));
            assert(events@.take(e + 1).last() == ev0);
            assert(start.take(total as int) =~= start);
            assert forall|sent: spec_fn(Session, Seq<char>) -> bool, after: spec_fn(Session, Seq<char>) -> Session|
                (reports_by_session::<Session, UserUuid>() && forall|g: SendPayload, m: &mut Session, p: &str, ok: bool|
                #[trigger] g.ensures((m, p), ok) ==> ok == sent(*m, p@) && *final(m) == after(*m, p@))
                implies kept@ == #[trigger] dispatched::<Session, UserUuid>(orig, events@.take(e + 1), sent, after) by {
                assert(kept@ == round::<Session, UserUuid>(start.take(total as int), ev0, sent, after));
                assert(start == dispatched::<Session, UserUuid>(orig, events@.take(e as int), sent, after));
            }
        }
        *sessions = kept;
        e = e + 1;
    }
    proof {
        assert(events@.take(events@.len() as int) =~= events@);
    }
}

/// No session is addressed by no events.
proof fn lemma_addressed_none_empty<S, F: FnMut(&S) -> Option<&str>>(s: &S)
    ensures
        !addressed::<S, F>(s, Seq::empty()),
{
}

/// With no events, every session is kept.
proof fn lemma_kept_none<S, F: FnMut(&S) -> Option<&str>>(sessions: Seq<S>)
    ensures
        kept_sessions::<S, F>(sessions, Seq::empty()) == sessions,
    decreases sessions.len(),
{
    if sessions.len() > 0 {
        lemma_kept_none::<S, F>(sessions.drop_last());
        lemma_addressed_none_empty::<S, F>(&sessions.last());
        assert(sessions.drop_last().push(sessions.last()) =~= sessions);
    }
}

} // verus!
