//! Handling of the server's answers in the client: what each answer prints,
//! how it changes the session, and when it is refused as malformed.
use vstd::prelude::*;

use crate::client::protocol::{
    parse_response_code, parse_response_tokens, response_code_error, response_code_spec,
    response_tokens_spec,
};
use crate::client::types::{
    opt_chars, ClientError, ClientErrorView, ClientView, PendingRequest, PendingView,
    SessionState,
};
use crate::text::{chars_of, parse_i64, parse_i64_spec, push_str, str_eq, string_of};

verus! {

/// The printing and error functions of the client log.
#[derive(PartialEq, Eq, Structural, Clone, Copy)]
pub enum ClientCall {
    ErrorUnauthorized,
    ErrorAlreadyExist,
    ErrorUnknownUser,
    ErrorUnknownTeam,
    ErrorUnknownChannel,
    ErrorUnknownThread,
    PrintUsers,
    PrintUser,
    PrintTeams,
    PrintTeam,
    PrintTeamCreated,
    PrintChannel,
    PrintChannelCreated,
    PrintThread,
    PrintThreadCreated,
    PrintReplyCreated,
    ThreadPrintReplies,
    PrivateMessagePrintMessages,
    PrintSubscribed,
    PrintUnsubscribed,
    EventPrivateMessageReceived,
    EventTeamCreated,
    EventLoggedIn,
    EventLoggedOut,
    EventChannelCreated,
    EventThreadCreated,
    EventThreadReplyReceived,
}

/// One call of the client log: its text arguments in order, and its number
/// (a user status or a timestamp) where it takes one.
pub struct ClientEvent {
    pub call: ClientCall,
    pub texts: Vec<String>,
    pub number: i64,
}

impl View for ClientEvent {
    type V = (ClientCall, Seq<Seq<char>>, i64);

    open spec fn view(&self) -> (ClientCall, Seq<Seq<char>>, i64) {
        (self.call, self.texts.deep_view(), self.number)
    }
}

/// What a field of an answer holds.
#[derive(PartialEq, Eq, Structural, Clone, Copy)]
pub enum FieldKind {
    /// Text handed to the log; it may not hold a NUL character.
    Text,
    /// A user status, `0` or `1`.
    Status,
    /// A timestamp, a decimal `i64`.
    Time,
}

/// Whether `s` holds a NUL character.
pub open spec fn has_nul(s: Seq<char>) -> bool {
    s.contains('\0')
}

/// The error for a text field holding a NUL character.
pub open spec fn nul_error(label: Seq<char>) -> ClientErrorView {
    ClientErrorView::InvalidData(label + " contains an invalid NUL byte"@)
}

/// The status a word stands for.
pub open spec fn status_spec(s: Seq<char>) -> Option<i64> {
    if s == "0"@ {
        Some(0)
    } else if s == "1"@ {
        Some(1)
    } else {
        None
    }
}

/// The fields of an answer, checked in order: the texts kept so far and the
/// number, or the first error.
pub open spec fn check_fields(
    kinds: Seq<(FieldKind, Seq<char>)>,
    vals: Seq<Seq<char>>,
) -> Result<(Seq<Seq<char>>, i64), ClientErrorView>
    decreases kinds.len(),
{
    if kinds.len() == 0 {
        Ok((Seq::empty(), 0))
    } else {
        match check_fields(kinds.drop_last(), vals) {
            Err(e) => Err(e),
            Ok((texts, n)) => {
                let i = kinds.len() - 1;
                let v = vals[i];
                match kinds.last().0 {
                    FieldKind::Text => if has_nul(v) {
                        Err(nul_error(kinds.last().1))
                    } else {
                        Ok((texts.push(v), n))
                    },
                    FieldKind::Status => match status_spec(v) {
                        Some(s) => Ok((texts, s)),
                        None => Err(ClientErrorView::InvalidData("invalid user status: "@ + v)),
                    },
                    FieldKind::Time => match parse_i64_spec(v) {
                        Some(t) => Ok((texts, t)),
                        None => Err(
                            ClientErrorView::InvalidData("invalid message timestamp: "@ + v),
                        ),
                    },
                }
            },
        }
    }
}

/// How an entry of an answer is laid out.
#[derive(PartialEq, Eq, Structural, Clone, Copy)]
pub enum Layout {
    /// User UUID, user name, status.
    User,
    /// Team UUID, name, description.
    Team,
    /// Channel UUID, name, description.
    Channel,
    /// Thread UUID, author UUID, timestamp, title, body.
    Thread,
    /// Thread UUID, author UUID, timestamp, body.
    Reply,
    /// Sender UUID, timestamp, body.
    Message,
    /// User UUID, team UUID.
    Subscription,
}

/// The fields of a layout, with the labels their errors use.
pub open spec fn layout_fields(l: Layout) -> Seq<(FieldKind, Seq<char>)> {
    match l {
        Layout::User => seq![
            (FieldKind::Text, "user UUID"@),
            (FieldKind::Text, "user name"@),
            (FieldKind::Status, Seq::empty()),
        ],
        Layout::Team => seq![
            (FieldKind::Text, "team UUID"@),
            (FieldKind::Text, "team name"@),
            (FieldKind::Text, "team description"@),
        ],
        Layout::Channel => seq![
            (FieldKind::Text, "channel UUID"@),
            (FieldKind::Text, "channel name"@),
            (FieldKind::Text, "channel description"@),
        ],
        Layout::Thread => seq![
            (FieldKind::Text, "thread UUID"@),
            (FieldKind::Text, "user UUID"@),
            (FieldKind::Time, Seq::empty()),
            (FieldKind::Text, "thread title"@),
            (FieldKind::Text, "thread body"@),
        ],
        Layout::Reply => seq![
            (FieldKind::Text, "thread UUID"@),
            (FieldKind::Text, "user UUID"@),
            (FieldKind::Time, Seq::empty()),
            (FieldKind::Text, "reply body"@),
        ],
        Layout::Message => seq![
            (FieldKind::Text, "user UUID"@),
            (FieldKind::Time, Seq::empty()),
            (FieldKind::Text, "message body"@),
        ],
        Layout::Subscription => seq![(FieldKind::Text, "user UUID"@), (FieldKind::Text, "team UUID"@)],
    }
}

/// The fields of a layout.
fn fields_of(l: Layout) -> (r: Vec<(FieldKind, String)>)
    ensures
        r@.map_values(|f: (FieldKind, String)| (f.0, f.1@)) == layout_fields(l),
{
    let v: Vec<(FieldKind, String)> = match l {
        Layout::User => vec![
            (FieldKind::Text, "user UUID".to_owned()),
            (FieldKind::Text, "user name".to_owned()),
            (FieldKind::Status, String::new()),
        ],
        Layout::Team => vec![
            (FieldKind::Text, "team UUID".to_owned()),
            (FieldKind::Text, "team name".to_owned()),
            (FieldKind::Text, "team description".to_owned()),
        ],
        Layout::Channel => vec![
            (FieldKind::Text, "channel UUID".to_owned()),
            (FieldKind::Text, "channel name".to_owned()),
            (FieldKind::Text, "channel description".to_owned()),
        ],
        Layout::Thread => vec![
            (FieldKind::Text, "thread UUID".to_owned()),
            (FieldKind::Text, "user UUID".to_owned()),
            (FieldKind::Time, String::new()),
            (FieldKind::Text, "thread title".to_owned()),
            (FieldKind::Text, "thread body".to_owned()),
        ],
        Layout::Reply => vec![
            (FieldKind::Text, "thread UUID".to_owned()),
            (FieldKind::Text, "user UUID".to_owned()),
            (FieldKind::Time, String::new()),
            (FieldKind::Text, "reply body".to_owned()),
        ],
        Layout::Message => vec![
            (FieldKind::Text, "user UUID".to_owned()),
            (FieldKind::Time, String::new()),
            (FieldKind::Text, "message body".to_owned()),
        ],
        Layout::Subscription => vec![
            (FieldKind::Text, "user UUID".to_owned()),
            (FieldKind::Text, "team UUID".to_owned()),
        ],
    };
    assert(v@.map_values(|f: (FieldKind, String)| (f.0, f.1@)) =~= layout_fields(l));
    v
}

/// Whether `s` holds a NUL character.
fn contains_nul(s: &str) -> (r: bool)
    ensures
        r == has_nul(s@),
{
    let c = chars_of(s);
    let mut i: usize = 0;
    while i < c.len()
        invariant
            i <= c@.len(),
            c@ == s@,
            forall|j: int| 0 <= j < i ==> c@[j] != '\0',
        decreases c@.len() - i,
    {
        if c[i] == '\0' {
            assert(c@[i as int] == '\0');
            return true;
        }
        i = i + 1;
    }
    false
}

/// The text `prefix` followed by `s`.
fn joined(prefix: &str, s: &str) -> (r: String)
    ensures
        r@ == prefix@ + s@,
{
    let mut out = chars_of(prefix);
    push_str(&mut out, s);
    string_of(out.as_slice())
}

/// Checks the fields `vals[from..]` against `kinds`.
fn check_entry(kinds: &Vec<(FieldKind, String)>, vals: &[String], from: usize) -> (r: Result<
    (Vec<String>, i64),
    ClientError,
>)
    requires
        from + kinds@.len() <= vals@.len(),
    ensures
        match check_fields(
            kinds@.map_values(|f: (FieldKind, String)| (f.0, f.1@)),
            vals.deep_view().subrange(from as int, from + kinds@.len()),
        ) {
            Ok((t, n)) => r matches Ok(x) && x.0.deep_view() == t && x.1 == n,
            Err(e) => r matches Err(x) && x@ == e,
        },
{
    let ghost ks = kinds@.map_values(|f: (FieldKind, String)| (f.0, f.1@));
    let ghost vs = vals.deep_view().subrange(from as int, from + kinds@.len());
    let mut texts: Vec<String> = Vec::new();
    let mut number: i64 = 0;
    let mut i: usize = 0;
    let n = vals.len();
    assert(texts.deep_view() =~= Seq::<Seq<char>>::empty());
    assert(ks.subrange(0, 0) =~= Seq::<(FieldKind, Seq<char>)>::empty());
    while i < kinds.len()
        invariant
            i <= kinds@.len(),
            n == vals@.len(),
            from + kinds@.len() <= n,
            ks == kinds@.map_values(|f: (FieldKind, String)| (f.0, f.1@)),
            vs == vals.deep_view().subrange(from as int, from + kinds@.len()),
            check_fields(ks.subrange(0, i as int), vs) == Ok::<
                (Seq<Seq<char>>, i64),
                ClientErrorView,
            >((texts.deep_view(), number)),
        decreases kinds@.len() - i,
    {
        let ghost prev = ks.subrange(0, i as int);
        assert(ks.subrange(0, i + 1).drop_last() =~= prev);
        assert(ks.subrange(0, i + 1).last() == ks[i as int]);
        assert(vs[i as int] == vals@[from + i]@);
        let v = &vals[from + i];
        match kinds[i].0 {
            FieldKind::Text => {
                if contains_nul(v.as_str()) {
                    let msg = joined(kinds[i].1.as_str(), " contains an invalid NUL byte");
                    proof {
                        lemma_check_fields_prefix(ks, vs, i as int + 1);
                    }
                    return Err(ClientError::InvalidData(msg));
                }
                let ghost before = texts.deep_view();
                texts.push(v.clone());
                assert(texts.deep_view() =~= before.push(v@));
            },
            FieldKind::Status => {
                if str_eq(v.as_str(), "0") {
                    number = 0;
                } else if str_eq(v.as_str(), "1") {
                    number = 1;
                } else {
                    let msg = joined("invalid user status: ", v.as_str());
                    proof {
                        lemma_check_fields_prefix(ks, vs, i as int + 1);
                    }
                    return Err(ClientError::InvalidData(msg));
                }
            },
            FieldKind::Time => {
                let c = chars_of(v.as_str());
                match parse_i64(c.as_slice()) {
                    Some(t) => {
                        number = t;
                    },
                    None => {
                        let msg = joined("invalid message timestamp: ", v.as_str());
                        proof {
                            lemma_check_fields_prefix(ks, vs, i as int + 1);
                        }
                        return Err(ClientError::InvalidData(msg));
                    },
                }
            },
        }
        i = i + 1;
    }
    assert(ks.subrange(0, i as int) =~= ks);
    Ok((texts, number))
}

/// An error in the first `n` fields is the error of all of them.
proof fn lemma_check_fields_prefix(
    kinds: Seq<(FieldKind, Seq<char>)>,
    vals: Seq<Seq<char>>,
    n: int,
)
    requires
        0 <= n <= kinds.len(),
        check_fields(kinds.subrange(0, n), vals) is Err,
    ensures
        check_fields(kinds, vals) == check_fields(kinds.subrange(0, n), vals),
    decreases kinds.len() - n,
{
    if n < kinds.len() {
        assert(kinds.subrange(0, n + 1).drop_last() =~= kinds.subrange(0, n));
        lemma_check_fields_prefix(kinds, vals, n + 1);
    } else {
        assert(kinds.subrange(0, n) =~= kinds);
    }
}

/// The event for one entry, or its error.
pub open spec fn entry_spec(l: Layout, call: ClientCall, v: Seq<Seq<char>>) -> Result<
    (ClientCall, Seq<Seq<char>>, i64),
    ClientErrorView,
> {
    match check_fields(layout_fields(l), v) {
        Ok((t, n)) => Ok((call, t, n)),
        Err(e) => Err(e),
    }
}

/// The number of fields of a layout.
pub open spec fn layout_width(l: Layout) -> nat {
    layout_fields(l).len()
}

/// The events of the entries of `vals`, one per `layout_width(l)` words,
/// up to the first error.
pub open spec fn entries_spec(l: Layout, call: ClientCall, prefix: Option<Seq<char>>, vals: Seq<
    Seq<char>,
>) -> (Seq<(ClientCall, Seq<Seq<char>>, i64)>, Option<ClientErrorView>)
    decreases vals.len(),
{
    let w = entry_words(l, prefix);
    if w == 0 || vals.len() < w {
        (Seq::empty(), None)
    } else {
        let (evs, err) = entries_spec(l, call, prefix, vals.subrange(0, vals.len() - w));
        if err is Some {
            (evs, err)
        } else {
            let last = vals.subrange(vals.len() - w, vals.len() as int);
            let fields = match prefix {
                Some(p) => seq![p] + last,
                None => last,
            };
            match entry_spec(l, call, fields) {
                Ok(ev) => (evs.push(ev), None),
                Err(e) => (evs, Some(e)),
            }
        }
    }
}

/// The number of words per entry: the layout's fields, less the prefix.
pub open spec fn entry_words(l: Layout, prefix: Option<Seq<char>>) -> nat {
    match prefix {
        Some(_) => (layout_width(l) - 1) as nat,
        None => layout_width(l),
    }
}

/// One event.
fn client_event(call: ClientCall, texts: Vec<String>, number: i64) -> (r: ClientEvent)
    ensures
        r@ == (call, texts.deep_view(), number),
{
    ClientEvent { call, texts, number }
}

/// The events of the entries of `vals[from..]`, up to the first error.
fn print_entries(
    l: Layout,
    call: ClientCall,
    prefix: Option<&str>,
    vals: &[String],
    from: usize,
) -> (r: (Vec<ClientEvent>, Result<(), ClientError>))
    requires
        from <= vals@.len(),
        entry_words(l, opt_str(prefix)) > 0,
        (vals@.len() - from) % (entry_words(l, opt_str(prefix)) as int) == 0,
    ensures
        ({
            let (evs, err) = entries_spec(
                l,
                call,
                opt_str(prefix),
                vals.deep_view().subrange(from as int, vals@.len() as int),
            );
            &&& r.0@.map_values(|e: ClientEvent| e@) == evs
            &&& match err {
                None => r.1 is Ok,
                Some(e) => r.1 matches Err(x) && x@ == e,
            }
        }),
{
    let kinds = fields_of(l);
    let w: usize = match prefix {
        Some(_) => kinds.len() - 1,
        None => kinds.len(),
    };
    let ghost all = vals.deep_view().subrange(from as int, vals@.len() as int);
    let mut events: Vec<ClientEvent> = Vec::new();
    let mut i: usize = from;
    let n = vals.len();
    proof {
        assert(all.subrange(0, 0) =~= Seq::<Seq<char>>::empty());
    }
    while i < vals.len()
        invariant
            from <= i <= vals@.len(),
            n == vals@.len(),
            w == entry_words(l, opt_str(prefix)),
            w > 0,
            (i - from) % (w as int) == 0,
            (vals@.len() - from) % (w as int) == 0,
            kinds@.map_values(|f: (FieldKind, String)| (f.0, f.1@)) == layout_fields(l),
            all == vals.deep_view().subrange(from as int, vals@.len() as int),
            entries_spec(l, call, opt_str(prefix), all.subrange(0, i - from)) == (
                events@.map_values(|e: ClientEvent| e@),
                None::<ClientErrorView>,
            ),
        decreases vals@.len() - i,
    {
        assert(i + w <= vals@.len()) by (nonlinear_arith)
            requires
                (i - from) % (w as int) == 0,
                (vals@.len() - from) % (w as int) == 0,
                i < vals@.len(),
                from <= i,
                w > 0,
        {
        }
        let ghost cur = all.subrange(0, i + w - from);
        assert(cur.subrange(0, cur.len() - w) =~= all.subrange(0, i - from));
        let mut entry: Vec<String> = Vec::new();
        match prefix {
            Some(p) => {
                entry.push(p.to_owned());
            },
            None => {},
        }
        let mut k: usize = 0;
        while k < w
            invariant
                k <= w,
                n == vals@.len(),
                i + w <= n,
                entry.deep_view() == (match prefix {
                    Some(p) => seq![p@],
                    None => Seq::<Seq<char>>::empty(),
                }) + vals.deep_view().subrange(i as int, i + k),
            decreases w - k,
        {
            let ghost before = entry.deep_view();
            let x = vals[i + k].clone();
            entry.push(x);
            assert(entry.deep_view() =~= before.push(x@));
            assert(vals.deep_view().subrange(i as int, i + k + 1) =~= vals.deep_view().subrange(
                i as int,
                i + k,
            ).push(x@));
            k = k + 1;
            assert(entry.deep_view() =~= (match prefix {
                Some(p) => seq![p@],
                None => Seq::<Seq<char>>::empty(),
            }) + vals.deep_view().subrange(i as int, i + k));
        }
        let ghost last = cur.subrange(cur.len() - w, cur.len() as int);
        assert(last =~= vals.deep_view().subrange(i as int, i + w));
        assert(entry@.len() == kinds@.len());
        assert(entry.deep_view().subrange(0, kinds@.len() as int) =~= entry.deep_view());
        match check_entry(&kinds, entry.as_slice(), 0) {
            Ok((texts, number)) => {
                let ghost before = events@.map_values(|e: ClientEvent| e@);
                events.push(client_event(call, texts, number));
                assert(events@.map_values(|e: ClientEvent| e@) =~= before.push(
                    events@[events@.len() - 1]@,
                ));
            },
            Err(e) => {
                proof {
                    assert((i + w - from) % (w as int) == 0) by (nonlinear_arith)
                        requires
                            (i - from) % (w as int) == 0,
                            w > 0,
                            from <= i,
                    {
                    }
                    assert(cur.subrange(cur.len() - w, cur.len() as int) =~= vals.deep_view().subrange(
                        i as int,
                        i + w,
                    ));
                    assert(entries_spec(l, call, opt_str(prefix), cur).1 is Some);
                    lemma_entries_stop(l, call, opt_str(prefix), all, i + w - from);
                }
                return (events, Err(e));
            },
        }
        i = i + w;
        assert((i - from) % (w as int) == 0) by (nonlinear_arith)
            requires
                (i - w - from) % (w as int) == 0,
                w > 0,
        {
        }
    }
    assert(all.subrange(0, i - from) =~= all);
    (events, Ok(()))
}

/// The characters of an optional string slice.
pub open spec fn opt_str(o: Option<&str>) -> Option<Seq<char>> {
    match o {
        Some(s) => Some(s@),
        None => None,
    }
}

/// Once an error is found in a prefix of whole entries, the remaining entries
/// add nothing.
proof fn lemma_entries_stop(
    l: Layout,
    call: ClientCall,
    prefix: Option<Seq<char>>,
    vals: Seq<Seq<char>>,
    n: int,
)
    requires
        0 <= n <= vals.len(),
        entry_words(l, prefix) > 0,
        n % (entry_words(l, prefix) as int) == 0,
        (vals.len() as int) % (entry_words(l, prefix) as int) == 0,
        entries_spec(l, call, prefix, vals.subrange(0, n)).1 is Some,
    ensures
        entries_spec(l, call, prefix, vals) == entries_spec(l, call, prefix, vals.subrange(0, n)),
    decreases vals.len() - n,
{
    let w = entry_words(l, prefix) as int;
    if n < vals.len() {
        assert(n + w <= vals.len()) by (nonlinear_arith)
            requires
                n % w == 0,
                (vals.len() as int) % w == 0,
                n < vals.len(),
                w > 0,
        {
        }
        let next = vals.subrange(0, n + w);
        assert(next.subrange(0, next.len() - w) =~= vals.subrange(0, n));
        assert((n + w) % w == 0) by (nonlinear_arith)
            requires
                n % w == 0,
                w > 0,
        {
        }
        lemma_entries_stop(l, call, prefix, vals, n + w);
    } else {
        assert(vals.subrange(0, n) =~= vals);
    }
}

/// The events and the result of an answer.
pub type Handled = (Seq<(ClientCall, Seq<Seq<char>>, i64)>, Result<(), ClientErrorView>);

/// Events and the first error, as a result.
pub open spec fn as_result(r: (Seq<(ClientCall, Seq<Seq<char>>, i64)>, Option<ClientErrorView>)) -> Handled {
    (
        r.0,
        match r.1 {
            Some(e) => Err(e),
            None => Ok(()),
        },
    )
}

/// An answer with no event and an error.
pub open spec fn failed(e: ClientErrorView) -> Handled {
    (Seq::empty(), Err(e))
}

/// An answer with one event and no error.
pub open spec fn one(call: ClientCall) -> Handled {
    (seq![(call, Seq::empty(), 0i64)], Ok(()))
}

/// The reports of unknown resources, in order, up to the first UUID holding
/// a NUL character: `(call, label, uuid)` each.
pub open spec fn unknowns_spec(us: Seq<(ClientCall, Seq<char>, Seq<char>)>) -> (
    Seq<(ClientCall, Seq<Seq<char>>, i64)>,
    Option<ClientErrorView>,
)
    decreases us.len(),
{
    if us.len() == 0 {
        (Seq::empty(), None)
    } else {
        let (evs, err) = unknowns_spec(us.drop_last());
        if err is Some {
            (evs, err)
        } else {
            let (call, label, uuid) = us.last();
            if has_nul(uuid) {
                (
                    evs,
                    Some(ClientErrorView::InvalidInput(label + " contains an invalid NUL byte"@)),
                )
            } else {
                (evs.push((call, seq![uuid], 0i64)), None)
            }
        }
    }
}

/// The common handling of an answer: `401` reports an unauthorized user when
/// `auth` holds, `404` reports the unknown resources when there are, `409`
/// reports an existing resource when `exists` holds, any other code but
/// `200` is an invalid response, and `200` is handled by `ok`.
pub open spec fn guarded(
    code: u16,
    resp: Seq<char>,
    auth: bool,
    unknowns: Option<Seq<(ClientCall, Seq<char>, Seq<char>)>>,
    exists: bool,
    ok: Handled,
) -> Handled {
    if auth && code == 401 {
        one(ClientCall::ErrorUnauthorized)
    } else if code == 404 && unknowns is Some {
        as_result(unknowns_spec(unknowns->0))
    } else if exists && code == 409 {
        one(ClientCall::ErrorAlreadyExist)
    } else if code != 200 {
        failed(ClientErrorView::InvalidData(resp))
    } else {
        ok
    }
}

/// The error of an answer whose tokens cannot be read.
pub open spec fn unterminated() -> ClientErrorView {
    ClientErrorView::InvalidData("unterminated info message"@)
}

/// A listing answer: the head word, then whole entries of `layout`.
pub open spec fn listing_ok(
    resp: Seq<char>,
    head: Seq<char>,
    layout: Layout,
    call: ClientCall,
    prefix: Option<Seq<char>>,
    head_msg: Seq<char>,
    count_msg: Seq<char>,
) -> Handled {
    match response_tokens_spec(resp) {
        None => failed(unterminated()),
        Some(t) => if t.len() == 0 || t[0] != head {
            failed(ClientErrorView::InvalidData(head_msg))
        } else if (t.len() - 1) % (entry_words(layout, prefix) as int) != 0 {
            failed(ClientErrorView::InvalidData(count_msg))
        } else {
            as_result(entries_spec(layout, call, prefix, t.drop_first()))
        },
    }
}

/// An answer describing one resource: the head word and `n - 1` fields.
pub open spec fn single_ok(
    resp: Seq<char>,
    head: Seq<char>,
    n: nat,
    layout: Layout,
    call: ClientCall,
    msg: Seq<char>,
) -> Handled {
    match response_tokens_spec(resp) {
        None => failed(unterminated()),
        Some(t) => if t.len() != n || t[0] != head {
            failed(ClientErrorView::InvalidData(msg))
        } else {
            match entry_spec(layout, call, t.drop_first()) {
                Ok(ev) => (seq![ev], Ok(())),
                Err(e) => failed(e),
            }
        },
    }
}

/// Unknown user `u`.
pub open spec fn unknown_user_of(u: Seq<char>) -> Seq<(ClientCall, Seq<char>, Seq<char>)> {
    seq![(ClientCall::ErrorUnknownUser, "target user UUID"@, u)]
}

/// Unknown team `t`.
pub open spec fn unknown_team_of(t: Seq<char>) -> Seq<(ClientCall, Seq<char>, Seq<char>)> {
    seq![(ClientCall::ErrorUnknownTeam, "team UUID"@, t)]
}

/// Unknown channel `c`, then team `t`.
pub open spec fn unknown_channel_of(t: Seq<char>, c: Seq<char>) -> Seq<
    (ClientCall, Seq<char>, Seq<char>),
> {
    seq![(ClientCall::ErrorUnknownChannel, "channel UUID"@, c), (ClientCall::ErrorUnknownTeam, "team UUID"@, t)]
}

/// Unknown thread `th`, then channel `c`, then team `t`.
pub open spec fn unknown_thread_of(t: Seq<char>, c: Seq<char>, th: Seq<char>) -> Seq<
    (ClientCall, Seq<char>, Seq<char>),
> {
    seq![
        (ClientCall::ErrorUnknownThread, "thread UUID"@, th),
        (ClientCall::ErrorUnknownChannel, "channel UUID"@, c),
        (ClientCall::ErrorUnknownTeam, "team UUID"@, t),
    ]
}

/// What the answer `resp` with code `code` to the pending request `p`
/// prints and whether it is accepted.
pub open spec fn pending_events(p: Option<PendingView>, code: u16, resp: Seq<char>) -> Handled {
    match p {
        None => if code != 200 {
            failed(ClientErrorView::InvalidData(resp))
        } else {
            (Seq::empty(), Ok(()))
        },
        Some(PendingView::Login { user_name }) => guarded(
            code,
            resp,
            true,
            None,
            false,
            match response_tokens_spec(resp) {
                None => failed(unterminated()),
                Some(t) => if t.len() == 0 {
                    failed(ClientErrorView::InvalidData("missing UUID in login response"@))
                } else {
                    (Seq::empty(), Ok(()))
                },
            },
        ),
        Some(PendingView::Logout) => guarded(code, resp, true, None, false, (Seq::empty(), Ok(()))),
        Some(PendingView::Users) => guarded(
            code,
            resp,
            true,
            None,
            false,
            listing_ok(
                resp,
                "USERS"@,
                Layout::User,
                ClientCall::PrintUsers,
                None,
                "invalid USERS response payload"@,
                "invalid USERS response entry count"@,
            ),
        ),
        Some(PendingView::User { user_uuid }) => guarded(
            code,
            resp,
            true,
            Some(unknown_user_of(user_uuid)),
            false,
            single_ok(resp, "USER"@, 4, Layout::User, ClientCall::PrintUser, "invalid USER response payload"@),
        ),
        Some(PendingView::Send { user_uuid, message_body }) => guarded(
            code,
            resp,
            true,
            Some(unknown_user_of(user_uuid)),
            false,
            (Seq::empty(), Ok(())),
        ),
        Some(PendingView::Messages { user_uuid }) => guarded(
            code,
            resp,
            true,
            Some(unknown_user_of(user_uuid)),
            false,
            listing_ok(
                resp,
                "MESSAGES"@,
                Layout::Message,
                ClientCall::PrivateMessagePrintMessages,
                None,
                "invalid MESSAGES response payload"@,
                "invalid MESSAGES response entry count"@,
            ),
        ),
        Some(PendingView::Subscribe { team_uuid }) => guarded(
            code,
            resp,
            true,
            Some(unknown_team_of(team_uuid)),
            false,
            single_ok(
                resp,
                "SUBSCRIBED"@,
                3,
                Layout::Subscription,
                ClientCall::PrintSubscribed,
                "invalid SUBSCRIBED response payload"@,
            ),
        ),
        Some(PendingView::Subscribed { team_uuid }) => guarded(
            code,
            resp,
            true,
            match team_uuid {
                Some(t) => Some(unknown_team_of(t)),
                None => None,
            },
            false,
            match response_tokens_spec(resp) {
                None => failed(unterminated()),
                Some(t) => if t.len() > 0 && t[0] == "TEAMS"@ {
                    listing_ok(
                        resp,
                        "TEAMS"@,
                        Layout::Team,
                        ClientCall::PrintTeams,
                        None,
                        "invalid TEAMS response payload"@,
                        "invalid TEAMS response payload"@,
                    )
                } else if t.len() > 0 && t[0] == "USERS"@ {
                    listing_ok(
                        resp,
                        "USERS"@,
                        Layout::User,
                        ClientCall::PrintUsers,
                        None,
                        "invalid USERS response payload"@,
                        "invalid USERS response payload"@,
                    )
                } else {
                    failed(ClientErrorView::InvalidData("invalid SUBSCRIBED response payload"@))
                },
            },
        ),
        Some(PendingView::Unsubscribe { team_uuid }) => guarded(
            code,
            resp,
            true,
            Some(unknown_team_of(team_uuid)),
            false,
            single_ok(
                resp,
                "UNSUBSCRIBED"@,
                3,
                Layout::Subscription,
                ClientCall::PrintUnsubscribed,
                "invalid UNSUBSCRIBED response payload"@,
            ),
        ),
        Some(PendingView::Use { team_uuid, channel_uuid, thread_uuid }) => if code == 404 {
            match (thread_uuid, channel_uuid, team_uuid) {
                (Some(th), _, _) => as_result(
                    unknowns_spec(seq![(ClientCall::ErrorUnknownThread, "thread UUID"@, th)]),
                ),
                (None, Some(c), _) => as_result(
                    unknowns_spec(seq![(ClientCall::ErrorUnknownChannel, "channel UUID"@, c)]),
                ),
                (None, None, Some(t)) => as_result(unknowns_spec(unknown_team_of(t))),
                (None, None, None) => failed(
                    ClientErrorView::InvalidData("invalid USE response payload"@),
                ),
            }
        } else if code != 200 {
            failed(ClientErrorView::InvalidData(resp))
        } else {
            (Seq::empty(), Ok(()))
        },
        Some(PendingView::CreateTeam) => guarded(
            code,
            resp,
            true,
            None,
            true,
            single_ok(resp, "TEAM"@, 4, Layout::Team, ClientCall::PrintTeamCreated, "invalid TEAM response payload"@),
        ),
        Some(PendingView::CreateChannel { team_uuid }) => guarded(
            code,
            resp,
            true,
            Some(unknown_team_of(team_uuid)),
            true,
            single_ok(
                resp,
                "CHANNEL"@,
                4,
                Layout::Channel,
                ClientCall::PrintChannelCreated,
                "invalid CHANNEL response payload"@,
            ),
        ),
        Some(PendingView::CreateThread { team_uuid, channel_uuid }) => guarded(
            code,
            resp,
            true,
            Some(unknown_channel_of(team_uuid, channel_uuid)),
            true,
            single_ok(
                resp,
                "THREAD"@,
                6,
                Layout::Thread,
                ClientCall::PrintThreadCreated,
                "invalid THREAD response payload"@,
            ),
        ),
        Some(PendingView::CreateReply { team_uuid, channel_uuid, thread_uuid }) => guarded(
            code,
            resp,
            true,
            Some(unknown_thread_of(team_uuid, channel_uuid, thread_uuid)),
            false,
            single_ok(
                resp,
                "REPLY"@,
                5,
                Layout::Reply,
                ClientCall::PrintReplyCreated,
                "invalid REPLY response payload"@,
            ),
        ),
        Some(PendingView::ListTeams) => guarded(
            code,
            resp,
            true,
            None,
            false,
            listing_ok(
                resp,
                "TEAMS"@,
                Layout::Team,
                ClientCall::PrintTeams,
                None,
                "invalid TEAMS response payload"@,
                "invalid TEAMS response payload"@,
            ),
        ),
        Some(PendingView::ListChannels { team_uuid }) => guarded(
            code,
            resp,
            true,
            Some(unknown_team_of(team_uuid)),
            false,
            listing_ok(
                resp,
                "CHANNELS"@,
                Layout::Channel,
                ClientCall::PrintChannel,
                None,
                "invalid CHANNELS response payload"@,
                "invalid CHANNELS response payload"@,
            ),
        ),
        Some(PendingView::ListThreads { team_uuid, channel_uuid }) => guarded(
            code,
            resp,
            true,
            Some(unknown_channel_of(team_uuid, channel_uuid)),
            false,
            listing_ok(
                resp,
                "THREADS"@,
                Layout::Thread,
                ClientCall::PrintThread,
                None,
                "invalid THREADS response payload"@,
                "invalid THREADS response payload"@,
            ),
        ),
        Some(PendingView::ListReplies { team_uuid, channel_uuid, thread_uuid }) => guarded(
            code,
            resp,
            true,
            Some(unknown_thread_of(team_uuid, channel_uuid, thread_uuid)),
            false,
            listing_ok(
                resp,
                "REPLIES"@,
                Layout::Reply,
                ClientCall::ThreadPrintReplies,
                Some(thread_uuid),
                "invalid REPLIES response payload"@,
                "invalid REPLIES response payload"@,
            ),
        ),
        Some(PendingView::InfoUser) => guarded(
            code,
            resp,
            true,
            None,
            false,
            single_ok(resp, "USER"@, 4, Layout::User, ClientCall::PrintUser, "invalid USER response payload"@),
        ),
        Some(PendingView::InfoTeam { team_uuid }) => guarded(
            code,
            resp,
            true,
            Some(unknown_team_of(team_uuid)),
            false,
            single_ok(resp, "TEAM"@, 4, Layout::Team, ClientCall::PrintTeam, "invalid TEAM response payload"@),
        ),
        Some(PendingView::InfoChannel { team_uuid, channel_uuid }) => guarded(
            code,
            resp,
            true,
            Some(unknown_channel_of(team_uuid, channel_uuid)),
            false,
            single_ok(
                resp,
                "CHANNEL"@,
                4,
                Layout::Channel,
                ClientCall::PrintChannel,
                "invalid CHANNEL response payload"@,
            ),
        ),
        Some(PendingView::InfoThread { team_uuid, channel_uuid, thread_uuid }) => guarded(
            code,
            resp,
            true,
            Some(unknown_thread_of(team_uuid, channel_uuid, thread_uuid)),
            false,
            single_ok(
                resp,
                "THREAD"@,
                6,
                Layout::Thread,
                ClientCall::PrintThread,
                "invalid THREAD response payload"@,
            ),
        ),
    }
}

/// The session after the answer `resp` with code `code`, from session `c`
/// whose pending request has been taken: a login stores the user, a logout
/// forgets it, and a `USE` selects its resource.
pub open spec fn pending_session(c: ClientView, code: u16, resp: Seq<char>) -> ClientView {
    let base = ClientView { pending: None, ..c };
    match c.pending {
        Some(PendingView::Login { user_name }) => if code == 200 && response_tokens_spec(resp) is Some
            && response_tokens_spec(resp)->0.len() > 0 {
            ClientView {
                user_name: Some(user_name),
                user_uuid: Some(response_tokens_spec(resp)->0[0]),
                ..base
            }
        } else {
            base
        },
        Some(PendingView::Logout) => if code == 200 {
            ClientView { user_name: None, user_uuid: None, ..base }
        } else {
            base
        },
        Some(PendingView::Use { team_uuid, channel_uuid, thread_uuid }) => if code == 200 {
            ClientView { team_uuid, channel_uuid, thread_uuid, ..base }
        } else {
            base
        },
        _ => base,
    }
}

/// The session, events and result of the answer `resp` in session `c`: a
/// line without a valid code is refused and leaves the session as it is.
pub open spec fn response_step(c: ClientView, resp: Seq<char>) -> (ClientView, Handled) {
    match response_code_spec(resp) {
        None => (c, failed(response_code_error(resp))),
        Some(code) => (pending_session(c, code, resp), pending_events(c.pending, code, resp)),
    }
}

/// The content of handled answer.
pub open spec fn handled_view(h: (Vec<ClientEvent>, Result<(), ClientError>)) -> Handled {
    (
        h.0@.map_values(|e: ClientEvent| e@),
        match h.1 {
            Ok(()) => Ok(()),
            Err(e) => Err(e@),
        },
    )
}

/// No event, and an error.
fn fail(e: ClientError) -> (r: (Vec<ClientEvent>, Result<(), ClientError>))
    ensures
        handled_view(r) == failed(e@),
{
    let v: Vec<ClientEvent> = Vec::new();
    assert(v@.map_values(|e: ClientEvent| e@) =~= Seq::<(ClientCall, Seq<Seq<char>>, i64)>::empty());
    (v, Err(e))
}

/// No event, and success.
fn done() -> (r: (Vec<ClientEvent>, Result<(), ClientError>))
    ensures
        handled_view(r) == (Seq::<(ClientCall, Seq<Seq<char>>, i64)>::empty(), Ok::<(), ClientErrorView>(())),
{
    let v: Vec<ClientEvent> = Vec::new();
    assert(v@.map_values(|e: ClientEvent| e@) =~= Seq::<(ClientCall, Seq<Seq<char>>, i64)>::empty());
    (v, Ok(()))
}

/// One event without arguments, and success.
fn single_call(call: ClientCall) -> (r: (Vec<ClientEvent>, Result<(), ClientError>))
    ensures
        handled_view(r) == one(call),
{
    let texts: Vec<String> = Vec::new();
    assert(texts.deep_view() =~= Seq::<Seq<char>>::empty());
    let v = vec![client_event(call, texts, 0)];
    assert(v@.map_values(|e: ClientEvent| e@) =~= seq![(call, Seq::<Seq<char>>::empty(), 0i64)]);
    (v, Ok(()))
}

/// An invalid-data error with the given message.
fn invalid(msg: &str) -> (r: ClientError)
    ensures
        r@ == ClientErrorView::InvalidData(msg@),
{
    ClientError::InvalidData(msg.to_owned())
}

/// The view of unknown-resource reports.
pub open spec fn unknowns_view(us: Seq<(ClientCall, &str, String)>) -> Seq<(ClientCall, Seq<char>, Seq<char>)> {
    us.map_values(|u: (ClientCall, &str, String)| (u.0, u.1@, u.2@))
}

/// Reports unknown resources, in order, up to the first UUID holding a NUL
/// character.
fn report_unknowns(us: Vec<(ClientCall, &str, String)>) -> (r: (Vec<ClientEvent>, Result<(), ClientError>))
    ensures
        handled_view(r) == as_result(unknowns_spec(unknowns_view(us@))),
{
    let ghost uv = unknowns_view(us@);
    let mut events: Vec<ClientEvent> = Vec::new();
    let mut i: usize = 0;
    while i < us.len()
        invariant
            i <= us@.len(),
            uv == unknowns_view(us@),
            unknowns_spec(uv.subrange(0, i as int)) == (
                events@.map_values(|e: ClientEvent| e@),
                None::<ClientErrorView>,
            ),
        decreases us@.len() - i,
    {
        assert(uv.subrange(0, i + 1).drop_last() =~= uv.subrange(0, i as int));
        let (call, label, uuid) = (us[i].0, us[i].1, &us[i].2);
        if contains_nul(uuid.as_str()) {
            let msg = joined(label, " contains an invalid NUL byte");
            proof {
                lemma_unknowns_stop(uv, i as int + 1);
            }
            return (events, Err(ClientError::InvalidInput(msg)));
        }
        let texts = vec![uuid.clone()];
        assert(texts.deep_view() =~= seq![uuid@]);
        let ghost before = events@.map_values(|e: ClientEvent| e@);
        events.push(client_event(call, texts, 0));
        i = i + 1;
        assert(events@.map_values(|e: ClientEvent| e@) =~= before.push((call, seq![uuid@], 0i64)));
    }
    assert(uv.subrange(0, i as int) =~= uv);
    (events, Ok(()))
}

/// Once a report fails, the later ones add nothing.
proof fn lemma_unknowns_stop(us: Seq<(ClientCall, Seq<char>, Seq<char>)>, n: int)
    requires
        0 <= n <= us.len(),
        unknowns_spec(us.subrange(0, n)).1 is Some,
    ensures
        unknowns_spec(us) == unknowns_spec(us.subrange(0, n)),
    decreases us.len() - n,
{
    if n < us.len() {
        assert(us.subrange(0, n + 1).drop_last() =~= us.subrange(0, n));
        lemma_unknowns_stop(us, n + 1);
    } else {
        assert(us.subrange(0, n) =~= us);
    }
}

/// Handles a listing answer.
fn listing_response(
    resp: &str,
    head: &str,
    layout: Layout,
    call: ClientCall,
    prefix: Option<&str>,
    head_msg: &str,
    count_msg: &str,
) -> (r: (Vec<ClientEvent>, Result<(), ClientError>))
    requires
        entry_words(layout, opt_str(prefix)) > 0,
        entry_words(layout, opt_str(prefix)) <= 5,
    ensures
        handled_view(r) == listing_ok(resp@, head@, layout, call, opt_str(prefix), head_msg@, count_msg@),
{
    let tokens = match parse_response_tokens(resp) {
        Ok(t) => t,
        Err(e) => {
            return fail(e);
        },
    };
    if tokens.len() == 0 || !str_eq(tokens[0].as_str(), head) {
        return fail(invalid(head_msg));
    }
    let w: usize = match prefix {
        Some(_) => fields_of(layout).len() - 1,
        None => fields_of(layout).len(),
    };
    if (tokens.len() - 1) % w != 0 {
        return fail(invalid(count_msg));
    }
    let r = print_entries(layout, call, prefix, tokens.as_slice(), 1);
    assert(tokens.deep_view().subrange(1, tokens@.len() as int) =~= tokens.deep_view().drop_first());
    r
}

/// Handles an answer describing one resource.
fn single_response(
    resp: &str,
    head: &str,
    n: usize,
    layout: Layout,
    call: ClientCall,
    msg: &str,
) -> (r: (Vec<ClientEvent>, Result<(), ClientError>))
    requires
        n == layout_width(layout) + 1,
    ensures
        handled_view(r) == single_ok(resp@, head@, n as nat, layout, call, msg@),
{
    let tokens = match parse_response_tokens(resp) {
        Ok(t) => t,
        Err(e) => {
            return fail(e);
        },
    };
    if tokens.len() != n || !str_eq(tokens[0].as_str(), head) {
        return fail(invalid(msg));
    }
    let kinds = fields_of(layout);
    assert(tokens.deep_view().subrange(1, 1 + kinds@.len() as int) =~= tokens.deep_view().drop_first());
    match check_entry(&kinds, tokens.as_slice(), 1) {
        Ok((texts, number)) => {
            let v = vec![client_event(call, texts, number)];
            assert(v@.map_values(|e: ClientEvent| e@) =~= seq![v@[0]@]);
            (v, Ok(()))
        },
        Err(e) => fail(e),
    }
}

/// The handling of codes other than `200`; `None` for `200`.
fn guard(
    code: u16,
    resp: &str,
    auth: bool,
    unknowns: Option<Vec<(ClientCall, &str, String)>>,
    exists: bool,
) -> (r: Option<(Vec<ClientEvent>, Result<(), ClientError>)>)
    ensures
        r is None <==> code == 200,
        r matches Some(h) ==> handled_view(h) == guarded(
            code,
            resp@,
            auth,
            match unknowns {
                Some(u) => Some(unknowns_view(u@)),
                None => None,
            },
            exists,
            handled_view(h),
        ),
{
    if auth && code == 401 {
        return Some(single_call(ClientCall::ErrorUnauthorized));
    }
    if code == 404 {
        match unknowns {
            Some(us) => {
                return Some(report_unknowns(us));
            },
            None => {},
        }
    }
    if exists && code == 409 {
        return Some(single_call(ClientCall::ErrorAlreadyExist));
    }
    if code != 200 {
        return Some(fail(ClientError::InvalidData(resp.to_owned())));
    }
    None
}

/// One unknown-resource report.
fn unknown(call: ClientCall, label: &'static str, uuid: String) -> (r: Vec<(ClientCall, &'static str, String)>)
    ensures
        unknowns_view(r@) == seq![(call, label@, uuid@)],
{
    let v = vec![(call, label, uuid)];
    assert(unknowns_view(v@) =~= seq![(call, label@, uuid@)]);
    v
}

/// Reports of an unknown channel, then its team.
fn unknown2(t: String, c: String) -> (r: Vec<(ClientCall, &'static str, String)>)
    ensures
        unknowns_view(r@) == unknown_channel_of(t@, c@),
{
    let v = vec![(ClientCall::ErrorUnknownChannel, "channel UUID", c), (ClientCall::ErrorUnknownTeam, "team UUID", t)];
    assert(unknowns_view(v@) =~= unknown_channel_of(t@, c@));
    v
}

/// Reports of an unknown thread, then its channel, then its team.
fn unknown3(t: String, c: String, th: String) -> (r: Vec<(ClientCall, &'static str, String)>)
    ensures
        unknowns_view(r@) == unknown_thread_of(t@, c@, th@),
{
    let v = vec![
        (ClientCall::ErrorUnknownThread, "thread UUID", th),
        (ClientCall::ErrorUnknownChannel, "channel UUID", c),
        (ClientCall::ErrorUnknownTeam, "team UUID", t),
    ];
    assert(unknowns_view(v@) =~= unknown_thread_of(t@, c@, th@));
    v
}

/// Handles the answer to a pending request on login, logout, users and private messages.
fn handle_auth_answer(
    state: &mut SessionState,
    pending: PendingRequest,
    code: u16,
    response: &str,
) -> (r: (Vec<ClientEvent>, Result<(), ClientError>))
    requires
        old(state).pending_request is None,
        pending is Login || pending is Logout || pending is Users || pending is User || pending is Send || pending is Messages,
    ensures
        handled_view(r) == pending_events(Some(pending@), code, response@),
        final(state)@ == pending_session(
            ClientView { pending: Some(pending@), ..old(state)@ },
            code,
            response@,
        ),
{
    match pending {
        PendingRequest::Login { user_name } => {
            if let Some(h) = guard(code, response, true, None, false) {
                return h;
            }
            match crate::client::protocol::extract_uuid_from_body(response) {
                Ok(user_uuid) => {
                    state.user_name = Some(user_name);
                    state.user_uuid = Some(user_uuid);
                    done()
                },
                Err(e) => fail(e),
            }
        },
        PendingRequest::Logout => {
            if let Some(h) = guard(code, response, true, None, false) {
                return h;
            }
            state.user_uuid = None;
            state.user_name = None;
            done()
        },
        PendingRequest::Users => {
            if let Some(h) = guard(code, response, true, None, false) {
                return h;
            }
            listing_response(
                response,
                "USERS",
                Layout::User,
                ClientCall::PrintUsers,
                None,
                "invalid USERS response payload",
                "invalid USERS response entry count",
            )
        },
        PendingRequest::User { user_uuid } => {
            if let Some(h) = guard(
                code,
                response,
                true,
                Some(unknown(ClientCall::ErrorUnknownUser, "target user UUID", user_uuid)),
                false,
            ) {
                return h;
            }
            single_response(response, "USER", 4, Layout::User, ClientCall::PrintUser, "invalid USER response payload")
        },
        PendingRequest::Send { user_uuid, message_body } => {
            if let Some(h) = guard(
                code,
                response,
                true,
                Some(unknown(ClientCall::ErrorUnknownUser, "target user UUID", user_uuid)),
                false,
            ) {
                return h;
            }
            done()
        },
        PendingRequest::Messages { user_uuid } => {
            if let Some(h) = guard(
                code,
                response,
                true,
                Some(unknown(ClientCall::ErrorUnknownUser, "target user UUID", user_uuid)),
                false,
            ) {
                return h;
            }
            listing_response(
                response,
                "MESSAGES",
                Layout::Message,
                ClientCall::PrivateMessagePrintMessages,
                None,
                "invalid MESSAGES response payload",
                "invalid MESSAGES response entry count",
            )
        },
        _ => done(),
    }
}

/// Handles the answer to a pending request on subscriptions and `USE`.
fn handle_context_answer(
    state: &mut SessionState,
    pending: PendingRequest,
    code: u16,
    response: &str,
) -> (r: (Vec<ClientEvent>, Result<(), ClientError>))
    requires
        old(state).pending_request is None,
        pending is Subscribe || pending is Subscribed || pending is Unsubscribe || pending is Use,
    ensures
        handled_view(r) == pending_events(Some(pending@), code, response@),
        final(state)@ == pending_session(
            ClientView { pending: Some(pending@), ..old(state)@ },
            code,
            response@,
        ),
{
    match pending {
        PendingRequest::Subscribe { team_uuid } => {
            if let Some(h) = guard(
                code,
                response,
                true,
                Some(unknown(ClientCall::ErrorUnknownTeam, "team UUID", team_uuid)),
                false,
            ) {
                return h;
            }
            single_response(
                response,
                "SUBSCRIBED",
                3,
                Layout::Subscription,
                ClientCall::PrintSubscribed,
                "invalid SUBSCRIBED response payload",
            )
        },
        PendingRequest::Subscribed { team_uuid } => {
            let unknowns = match team_uuid {
                Some(t) => Some(unknown(ClientCall::ErrorUnknownTeam, "team UUID", t)),
                None => None,
            };
            if let Some(h) = guard(code, response, true, unknowns, false) {
                return h;
            }
            let tokens = match parse_response_tokens(response) {
                Ok(t) => t,
                Err(e) => {
                    return fail(e);
                },
            };
            if tokens.len() > 0 && str_eq(tokens[0].as_str(), "TEAMS") {
                listing_response(
                    response,
                    "TEAMS",
                    Layout::Team,
                    ClientCall::PrintTeams,
                    None,
                    "invalid TEAMS response payload",
                    "invalid TEAMS response payload",
                )
            } else if tokens.len() > 0 && str_eq(tokens[0].as_str(), "USERS") {
                listing_response(
                    response,
                    "USERS",
                    Layout::User,
                    ClientCall::PrintUsers,
                    None,
                    "invalid USERS response payload",
                    "invalid USERS response payload",
                )
            } else {
                fail(invalid("invalid SUBSCRIBED response payload"))
            }
        },
        PendingRequest::Unsubscribe { team_uuid } => {
            if let Some(h) = guard(
                code,
                response,
                true,
                Some(unknown(ClientCall::ErrorUnknownTeam, "team UUID", team_uuid)),
                false,
            ) {
                return h;
            }
            single_response(
                response,
                "UNSUBSCRIBED",
                3,
                Layout::Subscription,
                ClientCall::PrintUnsubscribed,
                "invalid UNSUBSCRIBED response payload",
            )
        },
        PendingRequest::Use { team_uuid, channel_uuid, thread_uuid } => {
            if code == 404 {
                match (thread_uuid, channel_uuid, team_uuid) {
                    (Some(th), _, _) => report_unknowns(
                        unknown(ClientCall::ErrorUnknownThread, "thread UUID", th),
                    ),
                    (None, Some(c), _) => report_unknowns(
                        unknown(ClientCall::ErrorUnknownChannel, "channel UUID", c),
                    ),
                    (None, None, Some(t)) => report_unknowns(
                        unknown(ClientCall::ErrorUnknownTeam, "team UUID", t),
                    ),
                    (None, None, None) => fail(invalid("invalid USE response payload")),
                }
            } else if code != 200 {
                fail(ClientError::InvalidData(response.to_owned()))
            } else {
                state.context.team_uuid = team_uuid;
                state.context.channel_uuid = channel_uuid;
                state.context.thread_uuid = thread_uuid;
                done()
            }
        },
        _ => done(),
    }
}

/// Handles the answer to a pending request on creations.
fn handle_create_answer(
    state: &mut SessionState,
    pending: PendingRequest,
    code: u16,
    response: &str,
) -> (r: (Vec<ClientEvent>, Result<(), ClientError>))
    requires
        old(state).pending_request is None,
        pending is CreateTeam || pending is CreateChannel || pending is CreateThread || pending is CreateReply,
    ensures
        handled_view(r) == pending_events(Some(pending@), code, response@),
        final(state)@ == pending_session(
            ClientView { pending: Some(pending@), ..old(state)@ },
            code,
            response@,
        ),
{
    match pending {
        PendingRequest::CreateTeam => {
            if let Some(h) = guard(code, response, true, None, true) {
                return h;
            }
            single_response(response, "TEAM", 4, Layout::Team, ClientCall::PrintTeamCreated, "invalid TEAM response payload")
        },
        PendingRequest::CreateChannel { team_uuid } => {
            if let Some(h) = guard(
                code,
                response,
                true,
                Some(unknown(ClientCall::ErrorUnknownTeam, "team UUID", team_uuid)),
                true,
            ) {
                return h;
            }
            single_response(
                response,
                "CHANNEL",
                4,
                Layout::Channel,
                ClientCall::PrintChannelCreated,
                "invalid CHANNEL response payload",
            )
        },
        PendingRequest::CreateThread { team_uuid, channel_uuid } => {
            if let Some(h) = guard(code, response, true, Some(unknown2(team_uuid, channel_uuid)), true) {
                return h;
            }
            single_response(
                response,
                "THREAD",
                6,
                Layout::Thread,
                ClientCall::PrintThreadCreated,
                "invalid THREAD response payload",
            )
        },
        PendingRequest::CreateReply { team_uuid, channel_uuid, thread_uuid } => {
            if let Some(h) = guard(
                code,
                response,
                true,
                Some(unknown3(team_uuid, channel_uuid, thread_uuid)),
                false,
            ) {
                return h;
            }
            single_response(
                response,
                "REPLY",
                5,
                Layout::Reply,
                ClientCall::PrintReplyCreated,
                "invalid REPLY response payload",
            )
        },
        _ => done(),
    }
}

/// Handles the answer to a pending request on listings.
fn handle_list_answer(
    state: &mut SessionState,
    pending: PendingRequest,
    code: u16,
    response: &str,
) -> (r: (Vec<ClientEvent>, Result<(), ClientError>))
    requires
        old(state).pending_request is None,
        pending is ListTeams || pending is ListChannels || pending is ListThreads || pending is ListReplies,
    ensures
        handled_view(r) == pending_events(Some(pending@), code, response@),
        final(state)@ == pending_session(
            ClientView { pending: Some(pending@), ..old(state)@ },
            code,
            response@,
        ),
{
    match pending {
        PendingRequest::ListTeams => {
            if let Some(h) = guard(code, response, true, None, false) {
                return h;
            }
            listing_response(
                response,
                "TEAMS",
                Layout::Team,
                ClientCall::PrintTeams,
                None,
                "invalid TEAMS response payload",
                "invalid TEAMS response payload",
            )
        },
        PendingRequest::ListChannels { team_uuid } => {
            if let Some(h) = guard(
                code,
                response,
                true,
                Some(unknown(ClientCall::ErrorUnknownTeam, "team UUID", team_uuid)),
                false,
            ) {
                return h;
            }
            listing_response(
                response,
                "CHANNELS",
                Layout::Channel,
                ClientCall::PrintChannel,
                None,
                "invalid CHANNELS response payload",
                "invalid CHANNELS response payload",
            )
        },
        PendingRequest::ListThreads { team_uuid, channel_uuid } => {
            if let Some(h) = guard(code, response, true, Some(unknown2(team_uuid, channel_uuid)), false) {
                return h;
            }
            listing_response(
                response,
                "THREADS",
                Layout::Thread,
                ClientCall::PrintThread,
                None,
                "invalid THREADS response payload",
                "invalid THREADS response payload",
            )
        },
        PendingRequest::ListReplies { team_uuid, channel_uuid, thread_uuid } => {
            let th = thread_uuid.clone();
            if let Some(h) = guard(
                code,
                response,
                true,
                Some(unknown3(team_uuid, channel_uuid, thread_uuid)),
                false,
            ) {
                return h;
            }
            listing_response(
                response,
                "REPLIES",
                Layout::Reply,
                ClientCall::ThreadPrintReplies,
                Some(th.as_str()),
                "invalid REPLIES response payload",
                "invalid REPLIES response payload",
            )
        },
        _ => done(),
    }
}

/// Handles the answer to a pending request on resource details.
fn handle_info_answer(
    state: &mut SessionState,
    pending: PendingRequest,
    code: u16,
    response: &str,
) -> (r: (Vec<ClientEvent>, Result<(), ClientError>))
    requires
        old(state).pending_request is None,
        pending is InfoUser || pending is InfoTeam || pending is InfoChannel || pending is InfoThread,
    ensures
        handled_view(r) == pending_events(Some(pending@), code, response@),
        final(state)@ == pending_session(
            ClientView { pending: Some(pending@), ..old(state)@ },
            code,
            response@,
        ),
{
    match pending {
        PendingRequest::InfoUser => {
            if let Some(h) = guard(code, response, true, None, false) {
                return h;
            }
            single_response(response, "USER", 4, Layout::User, ClientCall::PrintUser, "invalid USER response payload")
        },
        PendingRequest::InfoTeam { team_uuid } => {
            if let Some(h) = guard(
                code,
                response,
                true,
                Some(unknown(ClientCall::ErrorUnknownTeam, "team UUID", team_uuid)),
                false,
            ) {
                return h;
            }
            single_response(response, "TEAM", 4, Layout::Team, ClientCall::PrintTeam, "invalid TEAM response payload")
        },
        PendingRequest::InfoChannel { team_uuid, channel_uuid } => {
            if let Some(h) = guard(code, response, true, Some(unknown2(team_uuid, channel_uuid)), false) {
                return h;
            }
            single_response(
                response,
                "CHANNEL",
                4,
                Layout::Channel,
                ClientCall::PrintChannel,
                "invalid CHANNEL response payload",
            )
        },
        PendingRequest::InfoThread { team_uuid, channel_uuid, thread_uuid } => {
            if let Some(h) = guard(
                code,
                response,
                true,
                Some(unknown3(team_uuid, channel_uuid, thread_uuid)),
                false,
            ) {
                return h;
            }
            single_response(
                response,
                "THREAD",
                6,
                Layout::Thread,
                ClientCall::PrintThread,
                "invalid THREAD response payload",
            )
        },
        _ => done(),
    }
}

/// Handles the answer to the pending request `pending`.
fn handle_pending(
    state: &mut SessionState,
    pending: Option<PendingRequest>,
    code: u16,
    response: &str,
) -> (r: (Vec<ClientEvent>, Result<(), ClientError>))
    requires
        old(state).pending_request is None,
    ensures
        handled_view(r) == pending_events(
            match pending {
                Some(p) => Some(p@),
                None => None,
            },
            code,
            response@,
        ),
        final(state)@ == pending_session(
            ClientView {
                pending: match pending {
                    Some(p) => Some(p@),
                    None => None,
                },
                ..old(state)@
            },
            code,
            response@,
        ),
{
    match pending {
        None => {
            if code != 200 {
                fail(ClientError::InvalidData(response.to_owned()))
            } else {
                done()
            }
        },
        Some(p) => match p {
            PendingRequest::Login { .. } | PendingRequest::Logout | PendingRequest::Users
            | PendingRequest::User { .. } | PendingRequest::Send { .. }
            | PendingRequest::Messages { .. } => handle_auth_answer(state, p, code, response),
            PendingRequest::Subscribe { .. } | PendingRequest::Subscribed { .. }
            | PendingRequest::Unsubscribe { .. } | PendingRequest::Use { .. } =>
                handle_context_answer(state, p, code, response),
            PendingRequest::CreateTeam | PendingRequest::CreateChannel { .. }
            | PendingRequest::CreateThread { .. } | PendingRequest::CreateReply { .. } =>
                handle_create_answer(state, p, code, response),
            PendingRequest::ListTeams | PendingRequest::ListChannels { .. }
            | PendingRequest::ListThreads { .. } | PendingRequest::ListReplies { .. } =>
                handle_list_answer(state, p, code, response),
            PendingRequest::InfoUser | PendingRequest::InfoTeam { .. }
            | PendingRequest::InfoChannel { .. } | PendingRequest::InfoThread { .. } =>
                handle_info_answer(state, p, code, response),
        },
    }
}

/// Handle a server response for the current pending request: the calls of
/// the client log it leads to, in order, and whether it was accepted. The
/// pending request is done once the response has a valid code.
pub fn handle_response_line(state: &mut SessionState, response: &str) -> (r: (
    Vec<ClientEvent>,
    Result<(), ClientError>,
))
    ensures
        (final(state)@, handled_view(r)) == response_step(old(state)@, response@),
{
    let code = match parse_response_code(response) {
        Ok(c) => c,
        Err(e) => {
            return fail(e);
        },
    };
    let pending = state.pending_request.take();
    handle_pending(state, pending, code, response)
}

} // verus!
