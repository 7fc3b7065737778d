//! Request lines sent by the client, and parsing of the response and info
//! lines sent by the server.
use vstd::prelude::*;

use crate::client::types::{ClientError, ClientErrorView};
use crate::text::{
    chars_eq, chars_of, escape_chars, escape_spec, parse_i64, parse_i64_spec, parse_u16,
    parse_u16_spec, push_quoted, push_str, quoted_spec, split_first_ws, split_first_ws_spec,
    string_of, sub_chars, tokenize_quoted, tokenize_spec, trim_chars, trim_spec,
};

verus! {

/// Server-side info notifications understood by the client.
pub enum InfoMessage {
    NewMessage { sender_uuid: String, message_body: String },
    NewTeam { team_uuid: String, team_name: String, team_description: String },
    UserLoggedIn { user_uuid: String, user_name: String },
    UserLoggedOut { user_uuid: String, user_name: String },
    NewChannel {
        team_uuid: String,
        channel_uuid: String,
        channel_name: String,
        channel_description: String,
    },
    NewThread {
        team_uuid: String,
        channel_uuid: String,
        thread_uuid: String,
        user_uuid: String,
        thread_timestamp: i64,
        thread_title: String,
        thread_body: String,
    },
    NewReply { team_uuid: String, thread_uuid: String, user_uuid: String, reply_body: String },
}

/// The content of an info message.
pub enum InfoView {
    NewMessage { sender_uuid: Seq<char>, message_body: Seq<char> },
    NewTeam { team_uuid: Seq<char>, team_name: Seq<char>, team_description: Seq<char> },
    UserLoggedIn { user_uuid: Seq<char>, user_name: Seq<char> },
    UserLoggedOut { user_uuid: Seq<char>, user_name: Seq<char> },
    NewChannel {
        team_uuid: Seq<char>,
        channel_uuid: Seq<char>,
        channel_name: Seq<char>,
        channel_description: Seq<char>,
    },
    NewThread {
        team_uuid: Seq<char>,
        channel_uuid: Seq<char>,
        thread_uuid: Seq<char>,
        user_uuid: Seq<char>,
        thread_timestamp: i64,
        thread_title: Seq<char>,
        thread_body: Seq<char>,
    },
    NewReply {
        team_uuid: Seq<char>,
        thread_uuid: Seq<char>,
        user_uuid: Seq<char>,
        reply_body: Seq<char>,
    },
}

impl View for InfoMessage {
    type V = InfoView;

    open spec fn view(&self) -> InfoView {
        match self {
            InfoMessage::NewMessage { sender_uuid, message_body } => InfoView::NewMessage {
                sender_uuid: sender_uuid@,
                message_body: message_body@,
            },
            InfoMessage::NewTeam { team_uuid, team_name, team_description } => InfoView::NewTeam {
                team_uuid: team_uuid@,
                team_name: team_name@,
                team_description: team_description@,
            },
            InfoMessage::UserLoggedIn { user_uuid, user_name } => InfoView::UserLoggedIn {
                user_uuid: user_uuid@,
                user_name: user_name@,
            },
            InfoMessage::UserLoggedOut { user_uuid, user_name } => InfoView::UserLoggedOut {
                user_uuid: user_uuid@,
                user_name: user_name@,
            },
            InfoMessage::NewChannel {
                team_uuid,
                channel_uuid,
                channel_name,
                channel_description,
            } => InfoView::NewChannel {
                team_uuid: team_uuid@,
                channel_uuid: channel_uuid@,
                channel_name: channel_name@,
                channel_description: channel_description@,
            },
            InfoMessage::NewThread {
                team_uuid,
                channel_uuid,
                thread_uuid,
                user_uuid,
                thread_timestamp,
                thread_title,
                thread_body,
            } => InfoView::NewThread {
                team_uuid: team_uuid@,
                channel_uuid: channel_uuid@,
                thread_uuid: thread_uuid@,
                user_uuid: user_uuid@,
                thread_timestamp: *thread_timestamp,
                thread_title: thread_title@,
                thread_body: thread_body@,
            },
            InfoMessage::NewReply { team_uuid, thread_uuid, user_uuid, reply_body } =>
                InfoView::NewReply {
                team_uuid: team_uuid@,
                thread_uuid: thread_uuid@,
                user_uuid: user_uuid@,
                reply_body: reply_body@,
            },
        }
    }
}

// ---------------------------------------------------------------------------
// Request lines
// ---------------------------------------------------------------------------

/// The quoted arguments of a request, each preceded by a space.
pub open spec fn request_args_spec(args: Seq<Seq<char>>) -> Seq<char>
    decreases args.len(),
{
    if args.len() == 0 {
        Seq::empty()
    } else {
        request_args_spec(args.drop_last()) + seq![' '] + quoted_spec(args.last())
    }
}

/// The request line `C100 <name> "<arg>" ... CRLF`.
pub open spec fn request_spec(name: Seq<char>, args: Seq<Seq<char>>) -> Seq<char> {
    seq!['C', '1', '0', '0', ' '] + name + request_args_spec(args) + seq!['\r', '\n']
}

/// Builds the request line for command `name` with the given arguments.
fn build_request(name: &str, args: &[&str]) -> (r: String)
    ensures
        r@ == request_spec(name@, args.deep_view()),
{
    let mut out: Vec<char> = Vec::new();
    out.push('C');
    out.push('1');
    out.push('0');
    out.push('0');
    out.push(' ');
    push_str(&mut out, name);
    let ghost prefix = out@;
    let mut i: usize = 0;
    while i < args.len()
        invariant
            i <= args@.len(),
            out@ == prefix + request_args_spec(args.deep_view().subrange(0, i as int)),
        decreases args@.len() - i,
    {
        proof {
            assert(args.deep_view().subrange(0, i + 1).drop_last() =~= args.deep_view().subrange(
                0,
                i as int,
            ));
        }
        out.push(' ');
        push_quoted(&mut out, args[i]);
        i = i + 1;
        assert(out@ =~= prefix + request_args_spec(args.deep_view().subrange(0, i as int)));
    }
    assert(args.deep_view().subrange(0, i as int) =~= args.deep_view());
    out.push('\r');
    out.push('\n');
    assert(out@ =~= request_spec(name@, args.deep_view()));
    string_of(out.as_slice())
}

/// Escape a request argument for the wire protocol.
pub fn quote_net_argument(value: &str) -> (r: String)
    ensures
        r@ == escape_spec(value@),
{
    let v = chars_of(value);
    let e = escape_chars(v.as_slice());
    string_of(e.as_slice())
}

/// Build a `LOGIN` request line.
pub fn build_login_request(user_name: &str) -> (r: String)
    ensures
        r@ == request_spec("LOGIN"@, seq![user_name@]),
{
    let args = [user_name];
    assert(args.deep_view() =~= seq![user_name@]);
    build_request("LOGIN", &args)
}

/// Build a `LOGOUT` request line.
pub fn build_logout_request() -> (r: String)
    ensures
        r@ == request_spec("LOGOUT"@, seq![]),
{
    let args: [&str; 0] = [];
    assert(args.deep_view() =~= Seq::<Seq<char>>::empty());
    build_request("LOGOUT", &args)
}

/// Build a `USERS` request line.
pub fn build_users_request() -> (r: String)
    ensures
        r@ == request_spec("USERS"@, seq![]),
{
    let args: [&str; 0] = [];
    assert(args.deep_view() =~= Seq::<Seq<char>>::empty());
    build_request("USERS", &args)
}

/// Build a `USER` request line.
pub fn build_user_request(user_uuid: &str) -> (r: String)
    ensures
        r@ == request_spec("USER"@, seq![user_uuid@]),
{
    let args = [user_uuid];
    assert(args.deep_view() =~= seq![user_uuid@]);
    build_request("USER", &args)
}

/// Build a `SEND` request line.
pub fn build_send_request(user_uuid: &str, message_body: &str) -> (r: String)
    ensures
        r@ == request_spec("SEND"@, seq![user_uuid@, message_body@]),
{
    let args = [user_uuid, message_body];
    assert(args.deep_view() =~= seq![user_uuid@, message_body@]);
    build_request("SEND", &args)
}

/// Build a `MESSAGES` request line.
pub fn build_messages_request(user_uuid: &str) -> (r: String)
    ensures
        r@ == request_spec("MESSAGES"@, seq![user_uuid@]),
{
    let args = [user_uuid];
    assert(args.deep_view() =~= seq![user_uuid@]);
    build_request("MESSAGES", &args)
}

/// Build a `SUBSCRIBE` request line.
pub fn build_subscribe_request(team_uuid: &str) -> (r: String)
    ensures
        r@ == request_spec("SUBSCRIBE"@, seq![team_uuid@]),
{
    let args = [team_uuid];
    assert(args.deep_view() =~= seq![team_uuid@]);
    build_request("SUBSCRIBE", &args)
}

/// Build a `SUBSCRIBED` request line.
pub fn build_subscribed_request(team_uuid: Option<&str>) -> (r: String)
    ensures
        team_uuid matches Some(t) ==> r@ == request_spec("SUBSCRIBED"@, seq![t@]),
        team_uuid is None ==> r@ == request_spec("SUBSCRIBED"@, seq![]),
{
    match team_uuid {
        Some(team_uuid) => {
            let args = [team_uuid];
            assert(args.deep_view() =~= seq![team_uuid@]);
            build_request("SUBSCRIBED", &args)
        },
        None => {
            let args: [&str; 0] = [];
            assert(args.deep_view() =~= Seq::<Seq<char>>::empty());
            build_request("SUBSCRIBED", &args)
        },
    }
}

/// Build a `UNSUBSCRIBE` request line.
pub fn build_unsubscribe_request(team_uuid: &str) -> (r: String)
    ensures
        r@ == request_spec("UNSUBSCRIBE"@, seq![team_uuid@]),
{
    let args = [team_uuid];
    assert(args.deep_view() =~= seq![team_uuid@]);
    build_request("UNSUBSCRIBE", &args)
}

/// Build a `USE` request line.
pub fn build_use_request(args: &[String]) -> (r: String)
    ensures
        r@ == request_spec("USE"@, args.deep_view()),
{
    let mut refs: Vec<&str> = Vec::new();
    let mut i: usize = 0;
    while i < args.len()
        invariant
            i <= args@.len(),
            refs.deep_view() == args.deep_view().subrange(0, i as int),
        decreases args@.len() - i,
    {
        let ghost before = refs.deep_view();
        let a: &str = args[i].as_str();
        refs.push(a);
        assert(refs.deep_view() =~= before.push(a@));
        i = i + 1;
        assert(refs.deep_view() =~= args.deep_view().subrange(0, i as int));
    }
    assert(args.deep_view().subrange(0, i as int) =~= args.deep_view());
    build_request("USE", refs.as_slice())
}

/// Build a `CREATE_TEAM` request line.
pub fn build_create_team_request(team_name: &str, team_description: &str) -> (r: String)
    ensures
        r@ == request_spec("CREATE_TEAM"@, seq![team_name@, team_description@]),
{
    let args = [team_name, team_description];
    assert(args.deep_view() =~= seq![team_name@, team_description@]);
    build_request("CREATE_TEAM", &args)
}

/// Build a `CREATE_CHAN` request line.
pub fn build_create_channel_request(channel_name: &str, channel_description: &str) -> (r: String)
    ensures
        r@ == request_spec("CREATE_CHAN"@, seq![channel_name@, channel_description@]),
{
    let args = [channel_name, channel_description];
    assert(args.deep_view() =~= seq![channel_name@, channel_description@]);
    build_request("CREATE_CHAN", &args)
}

/// Build a `CREATE_THREAD` request line.
pub fn build_create_thread_request(thread_title: &str, thread_body: &str) -> (r: String)
    ensures
        r@ == request_spec("CREATE_THREAD"@, seq![thread_title@, thread_body@]),
{
    let args = [thread_title, thread_body];
    assert(args.deep_view() =~= seq![thread_title@, thread_body@]);
    build_request("CREATE_THREAD", &args)
}

/// Build a `CREATE_REP` request line.
pub fn build_create_reply_request(comment_body: &str) -> (r: String)
    ensures
        r@ == request_spec("CREATE_REP"@, seq![comment_body@]),
{
    let args = [comment_body];
    assert(args.deep_view() =~= seq![comment_body@]);
    build_request("CREATE_REP", &args)
}

/// Build a `LIST_TEAMS` request line.
pub fn build_list_teams_request() -> (r: String)
    ensures
        r@ == request_spec("LIST_TEAMS"@, seq![]),
{
    let args: [&str; 0] = [];
    assert(args.deep_view() =~= Seq::<Seq<char>>::empty());
    build_request("LIST_TEAMS", &args)
}

/// Build a `LIST_CHANS` request line.
pub fn build_list_channels_request() -> (r: String)
    ensures
        r@ == request_spec("LIST_CHANS"@, seq![]),
{
    let args: [&str; 0] = [];
    assert(args.deep_view() =~= Seq::<Seq<char>>::empty());
    build_request("LIST_CHANS", &args)
}

/// Build a `LIST_THREADS` request line.
pub fn build_list_threads_request() -> (r: String)
    ensures
        r@ == request_spec("LIST_THREADS"@, seq![]),
{
    let args: [&str; 0] = [];
    assert(args.deep_view() =~= Seq::<Seq<char>>::empty());
    build_request("LIST_THREADS", &args)
}

/// Build a `LIST_REPS` request line.
pub fn build_list_replies_request() -> (r: String)
    ensures
        r@ == request_spec("LIST_REPS"@, seq![]),
{
    let args: [&str; 0] = [];
    assert(args.deep_view() =~= Seq::<Seq<char>>::empty());
    build_request("LIST_REPS", &args)
}

/// Build a `INFO_USER` request line.
pub fn build_info_user_request() -> (r: String)
    ensures
        r@ == request_spec("INFO_USER"@, seq![]),
{
    let args: [&str; 0] = [];
    assert(args.deep_view() =~= Seq::<Seq<char>>::empty());
    build_request("INFO_USER", &args)
}

/// Build a `INFO_TEAM` request line.
pub fn build_info_team_request() -> (r: String)
    ensures
        r@ == request_spec("INFO_TEAM"@, seq![]),
{
    let args: [&str; 0] = [];
    assert(args.deep_view() =~= Seq::<Seq<char>>::empty());
    build_request("INFO_TEAM", &args)
}

/// Build a `INFO_CHAN` request line.
pub fn build_info_channel_request() -> (r: String)
    ensures
        r@ == request_spec("INFO_CHAN"@, seq![]),
{
    let args: [&str; 0] = [];
    assert(args.deep_view() =~= Seq::<Seq<char>>::empty());
    build_request("INFO_CHAN", &args)
}

/// Build a `INFO_THREAD` request line.
pub fn build_info_thread_request() -> (r: String)
    ensures
        r@ == request_spec("INFO_THREAD"@, seq![]),
{
    let args: [&str; 0] = [];
    assert(args.deep_view() =~= Seq::<Seq<char>>::empty());
    build_request("INFO_THREAD", &args)
}

// ---------------------------------------------------------------------------
// Response and info lines
// ---------------------------------------------------------------------------

/// Number of bytes of the UTF-8 encoding of `c`.
pub open spec fn utf8_width(c: char) -> nat {
    let u = c as u32;
    if u < 0x80 {
        1
    } else if u < 0x800 {
        2
    } else if u < 0x10000 {
        3
    } else {
        4
    }
}

/// Number of bytes of the UTF-8 encoding of `s`, which `str::len` returns.
pub open spec fn utf8_len(s: Seq<char>) -> nat
    decreases s.len(),
{
    if s.len() == 0 {
        0
    } else {
        utf8_len(s.drop_last()) + utf8_width(s.last())
    }
}

/// Byte length of the UTF-8 encoding of `s`.
fn utf8_byte_len(s: &[char]) -> (r: u64)
    requires
        s@.len() <= u32::MAX,
    ensures
        r == utf8_len(s@),
{
    let mut n: u64 = 0;
    let mut i: usize = 0;
    while i < s.len()
        invariant
            i <= s@.len() <= u32::MAX,
            n == utf8_len(s@.subrange(0, i as int)),
            n <= 4 * i,
        decreases s@.len() - i,
    {
        proof {
            assert(s@.subrange(0, i + 1).drop_last() =~= s@.subrange(0, i as int));
        }
        let u = s[i] as u32;
        let w: u64 = if u < 0x80 {
            1
        } else if u < 0x800 {
            2
        } else if u < 0x10000 {
            3
        } else {
            4
        };
        n = n + w;
        i = i + 1;
    }
    assert(s@.subrange(0, i as int) =~= s@);
    n
}

/// The first whitespace-separated word of `s`, which
/// `split_whitespace().next()` yields; `None` when `s` is blank.
pub open spec fn first_word(s: Seq<char>) -> Option<Seq<char>> {
    let w = split_first_ws_spec(crate::text::trim_start_spec(s)).0;
    if w.len() == 0 {
        None
    } else {
        Some(w)
    }
}

/// The code that `parse_response_code` reads from a response line.
pub open spec fn response_code_spec(response: Seq<char>) -> Option<u16> {
    match first_word(response) {
        Some(h) => if utf8_len(h) == 4 && h[0] == 'R' {
            parse_u16_spec(h.drop_first())
        } else {
            None
        },
        None => None,
    }
}

/// The error `parse_response_code` gives for a line without a valid code.
pub open spec fn response_code_error(response: Seq<char>) -> ClientErrorView {
    match first_word(response) {
        None => ClientErrorView::InvalidData("empty server response"@),
        Some(h) => if utf8_len(h) == 4 && h[0] == 'R' {
            ClientErrorView::InvalidData("invalid response code: "@ + h)
        } else {
            ClientErrorView::InvalidData("invalid response header: "@ + h)
        },
    }
}

/// The text `prefix` followed by the characters of `v`.
fn prefixed(prefix: &str, v: &[char]) -> (r: String)
    ensures
        r@ == prefix@ + v@,
{
    let mut out = chars_of(prefix);
    crate::text::push_all(&mut out, v);
    string_of(out.as_slice())
}

/// Removes leading whitespace.
fn trim_start_chars(s: &[char]) -> (r: Vec<char>)
    ensures
        r@ == crate::text::trim_start_spec(s@),
{
    let n = s.len();
    let mut i: usize = 0;
    assert(s@.subrange(0, n as int) =~= s@);
    while i < n && crate::text::is_whitespace(s[i])
        invariant
            i <= n == s@.len(),
            crate::text::trim_start_spec(s@) == crate::text::trim_start_spec(
                s@.subrange(i as int, n as int),
            ),
        decreases n - i,
    {
        assert(s@.subrange(i as int, n as int).drop_first() =~= s@.subrange(i + 1, n as int));
        i = i + 1;
    }
    sub_chars(s, i, n)
}

/// Extract the numeric response code from a server response line: the
/// first word must be four bytes, `R` and a number.
pub fn parse_response_code(response: &str) -> (r: Result<u16, ClientError>)
    ensures
        r is Ok == response_code_spec(response@) is Some,
        r matches Ok(c) ==> c == response_code_spec(response@)->0,
        r matches Err(e) ==> e@ == response_code_error(response@),
{
    let chars = chars_of(response);
    let rest = trim_start_chars(chars.as_slice());
    let (header, _) = split_first_ws(rest.as_slice());
    if header.len() == 0 {
        return Err(ClientError::InvalidData(string_of_str("empty server response")));
    }
    if header.len() > 4 || utf8_byte_len(header.as_slice()) != 4 || header[0] != 'R' {
        proof {
            if header@.len() > 4 {
                lemma_utf8_len_ge(header@);
            }
        }
        return Err(ClientError::InvalidData(prefixed("invalid response header: ", header.as_slice())));
    }
    let digits = sub_chars(header.as_slice(), 1, header.len());
    assert(digits@ =~= header@.drop_first());
    match parse_u16(digits.as_slice()) {
        Some(code) => Ok(code),
        None => Err(ClientError::InvalidData(prefixed("invalid response code: ", header.as_slice()))),
    }
}

/// A string holds at least as many bytes as characters.
proof fn lemma_utf8_len_ge(s: Seq<char>)
    ensures
        utf8_len(s) >= s.len(),
    decreases s.len(),
{
    if s.len() > 0 {
        lemma_utf8_len_ge(s.drop_last());
    }
}

/// Builds a `String` from a string slice.
pub fn string_of_str(s: &str) -> (r: String)
    ensures
        r@ == s@,
{
    let v = chars_of(s);
    string_of(v.as_slice())
}

/// Index of the first `' '` in `s`, if any.
pub open spec fn first_space(s: Seq<char>) -> Option<int>
    decreases s.len(),
{
    if s.len() == 0 {
        None
    } else if s[0] == ' ' {
        Some(0)
    } else {
        match first_space(s.drop_first()) {
            Some(i) => Some(i + 1),
            None => None,
        }
    }
}

/// The body of a response line: what follows its first space, trimmed.
pub open spec fn response_body(s: Seq<char>) -> Seq<char> {
    match first_space(s) {
        Some(i) => trim_spec(s.subrange(i + 1, s.len() as int)),
        None => Seq::empty(),
    }
}

/// The tokens of a response line, or `None` when a quote is left open.
pub open spec fn response_tokens_spec(s: Seq<char>) -> Option<Seq<Seq<char>>> {
    let b = response_body(s);
    if b.len() == 0 {
        Some(Seq::empty())
    } else {
        tokenize_spec(b)
    }
}

/// Finds the first space of `s`.
fn find_space(s: &[char]) -> (r: Option<usize>)
    ensures
        r matches Some(i) ==> first_space(s@) == Some(i as int) && i < s@.len(),
        r is None ==> first_space(s@) is None,
    decreases s@.len(),
{
    if s.len() == 0 {
        return None;
    }
    if s[0] == ' ' {
        return Some(0);
    }
    let rest = sub_chars(s, 1, s.len());
    assert(rest@ =~= s@.drop_first());
    match find_space(rest.as_slice()) {
        Some(i) => Some(i + 1),
        None => None,
    }
}

/// Tokenize a text with the response grammar.
pub fn tokenize_body(input: &str) -> (r: Result<Vec<String>, ClientError>)
    ensures
        r is Ok == tokenize_spec(input@) is Some,
        r matches Ok(t) ==> t.deep_view() == tokenize_spec(input@)->0,
        r matches Err(e) ==> e@ == ClientErrorView::InvalidData("unterminated info message"@),
{
    match tokenize_quoted(input) {
        Some(t) => Ok(t),
        None => Err(ClientError::InvalidData(string_of_str("unterminated info message"))),
    }
}

/// Tokenize a server response body while preserving quoted payloads.
pub fn parse_response_tokens(response: &str) -> (r: Result<Vec<String>, ClientError>)
    ensures
        r is Ok == response_tokens_spec(response@) is Some,
        r matches Ok(t) ==> t.deep_view() == response_tokens_spec(response@)->0,
        r matches Err(e) ==> e@ == ClientErrorView::InvalidData("unterminated info message"@),
{
    let chars = chars_of(response);
    let body = match find_space(chars.as_slice()) {
        Some(i) => {
            assert(i < chars.len());
            let rest = sub_chars(chars.as_slice(), i + 1, chars.len());
            trim_chars(rest.as_slice())
        },
        None => Vec::new(),
    };
    assert(body@ =~= response_body(response@));
    if body.len() == 0 {
        let empty: Vec<String> = Vec::new();
        assert(empty.deep_view() =~= Seq::<Seq<char>>::empty());
        return Ok(empty);
    }
    let text = string_of(body.as_slice());
    tokenize_body(text.as_str())
}

/// Extract the first token from a response body as a UUID.
pub fn extract_uuid_from_body(response: &str) -> (r: Result<String, ClientError>)
    ensures
        r is Ok == (response_tokens_spec(response@) is Some && response_tokens_spec(
            response@,
        )->0.len() > 0),
        r matches Ok(u) ==> u@ == response_tokens_spec(response@)->0[0],
        r matches Err(e) ==> e@ == (if response_tokens_spec(response@) is None {
            ClientErrorView::InvalidData("unterminated info message"@)
        } else {
            ClientErrorView::InvalidData("missing UUID in login response"@)
        }),
{
    let tokens = parse_response_tokens(response)?;
    if tokens.len() == 0 {
        return Err(ClientError::InvalidData(string_of_str("missing UUID in login response")));
    }
    let u = tokens[0].clone();
    Ok(u)
}

/// How an info line is understood.
pub enum InfoParse {
    /// Not an `I100` line, no event name, or an unknown event.
    Ignored,
    /// A notification the client acts on.
    Parsed(InfoView),
    /// A known event with a malformed payload, or an open quote.
    Invalid,
}

/// The header and body of an info line.
pub open spec fn info_split(line: Seq<char>) -> (Seq<char>, Seq<char>) {
    let (h, b) = split_first_ws_spec(trim_spec(line));
    (
        h,
        match b {
            Some(x) => x,
            None => Seq::empty(),
        },
    )
}

/// The meaning of the tokens of an `I100` line.
pub open spec fn info_tokens_spec(t: Seq<Seq<char>>) -> InfoParse {
    if t.len() == 0 {
        InfoParse::Ignored
    } else if t[0] == "NEW_MESSAGE"@ {
        if t.len() == 2 {
            InfoParse::Parsed(InfoView::NewMessage { sender_uuid: Seq::empty(), message_body: t[1] })
        } else if t.len() == 3 {
            InfoParse::Parsed(InfoView::NewMessage { sender_uuid: t[1], message_body: t[2] })
        } else {
            InfoParse::Invalid
        }
    } else if t[0] == "NEW_TEAM"@ {
        if t.len() == 4 {
            InfoParse::Parsed(
                InfoView::NewTeam { team_uuid: t[1], team_name: t[2], team_description: t[3] },
            )
        } else {
            InfoParse::Invalid
        }
    } else if t[0] == "USER_LOGGED_IN"@ {
        if t.len() == 3 {
            InfoParse::Parsed(InfoView::UserLoggedIn { user_uuid: t[1], user_name: t[2] })
        } else {
            InfoParse::Invalid
        }
    } else if t[0] == "USER_LOGGED_OUT"@ {
        if t.len() == 3 {
            InfoParse::Parsed(InfoView::UserLoggedOut { user_uuid: t[1], user_name: t[2] })
        } else {
            InfoParse::Invalid
        }
    } else if t[0] == "NEW_CHANNEL"@ {
        if t.len() == 5 {
            InfoParse::Parsed(
                InfoView::NewChannel {
                    team_uuid: t[1],
                    channel_uuid: t[2],
                    channel_name: t[3],
                    channel_description: t[4],
                },
            )
        } else {
            InfoParse::Invalid
        }
    } else if t[0] == "NEW_THREAD"@ {
        if t.len() == 8 && parse_i64_spec(t[5]) is Some {
            InfoParse::Parsed(
                InfoView::NewThread {
                    team_uuid: t[1],
                    channel_uuid: t[2],
                    thread_uuid: t[3],
                    user_uuid: t[4],
                    thread_timestamp: parse_i64_spec(t[5])->0,
                    thread_title: t[6],
                    thread_body: t[7],
                },
            )
        } else {
            InfoParse::Invalid
        }
    } else if t[0] == "NEW_REPLY"@ {
        if t.len() == 5 {
            InfoParse::Parsed(
                InfoView::NewReply {
                    team_uuid: t[1],
                    thread_uuid: t[2],
                    user_uuid: t[3],
                    reply_body: t[4],
                },
            )
        } else {
            InfoParse::Invalid
        }
    } else {
        InfoParse::Ignored
    }
}

/// The meaning of an info line.
pub open spec fn info_parse_spec(line: Seq<char>) -> InfoParse {
    let (h, b) = info_split(line);
    if h != "I100"@ {
        InfoParse::Ignored
    } else {
        match tokenize_spec(b) {
            None => InfoParse::Invalid,
            Some(t) => info_tokens_spec(t),
        }
    }
}

/// Whether `s` holds the characters of `lit`.
fn is_text(s: &String, lit: &str) -> (r: bool)
    ensures
        r == (s@ == lit@),
{
    let a = chars_of(s.as_str());
    let b = chars_of(lit);
    chars_eq(a.as_slice(), b.as_slice())
}

/// The error for a malformed info payload.
fn invalid_info(message: &str) -> (r: Result<Option<InfoMessage>, ClientError>)
    ensures
        r matches Err(e) && e@ == ClientErrorView::InvalidData(message@),
{
    Err(ClientError::InvalidData(string_of_str(message)))
}

/// Parse an asynchronous info message emitted by the server.
pub fn parse_info_message(line: &str) -> (r: Result<Option<InfoMessage>, ClientError>)
    ensures
        r matches Ok(None) ==> info_parse_spec(line@) is Ignored,
        r matches Ok(Some(m)) ==> info_parse_spec(line@) == InfoParse::Parsed(m@),
        r is Err ==> info_parse_spec(line@) is Invalid,
{
    let chars = chars_of(line);
    let trimmed = trim_chars(chars.as_slice());
    let (header, body) = split_first_ws(trimmed.as_slice());
    let body = match body {
        Some(b) => b,
        None => Vec::new(),
    };
    assert(body@ =~= info_split(line@).1);
    let i100 = chars_of("I100");
    if !chars_eq(header.as_slice(), i100.as_slice()) {
        return Ok(None);
    }
    let body_text = string_of(body.as_slice());
    let tokens = tokenize_body(body_text.as_str())?;
    let ghost t = tokens.deep_view();
    if tokens.len() == 0 {
        return Ok(None);
    }
    assert(t[0] == tokens[0]@);
    let n = tokens.len();
    if is_text(&tokens[0], "NEW_MESSAGE") {
        if n == 2 {
            return Ok(
                Some(
                    InfoMessage::NewMessage {
                        sender_uuid: String::new(),
                        message_body: tokens[1].clone(),
                    },
                ),
            );
        }
        if n == 3 {
            return Ok(
                Some(
                    InfoMessage::NewMessage {
                        sender_uuid: tokens[1].clone(),
                        message_body: tokens[2].clone(),
                    },
                ),
            );
        }
        return invalid_info("invalid NEW_MESSAGE payload");
    }
    if is_text(&tokens[0], "NEW_TEAM") {
        if n != 4 {
            return invalid_info("invalid NEW_TEAM payload");
        }
        return Ok(
            Some(
                InfoMessage::NewTeam {
                    team_uuid: tokens[1].clone(),
                    team_name: tokens[2].clone(),
                    team_description: tokens[3].clone(),
                },
            ),
        );
    }
    if is_text(&tokens[0], "USER_LOGGED_IN") {
        if n != 3 {
            return invalid_info("invalid USER_LOGGED_IN payload");
        }
        return Ok(
            Some(
                InfoMessage::UserLoggedIn {
                    user_uuid: tokens[1].clone(),
                    user_name: tokens[2].clone(),
                },
            ),
        );
    }
    if is_text(&tokens[0], "USER_LOGGED_OUT") {
        if n != 3 {
            return invalid_info("invalid USER_LOGGED_OUT payload");
        }
        return Ok(
            Some(
                InfoMessage::UserLoggedOut {
                    user_uuid: tokens[1].clone(),
                    user_name: tokens[2].clone(),
                },
            ),
        );
    }
    if is_text(&tokens[0], "NEW_CHANNEL") {
        if n != 5 {
            return invalid_info("invalid NEW_CHANNEL payload");
        }
        return Ok(
            Some(
                InfoMessage::NewChannel {
                    team_uuid: tokens[1].clone(),
                    channel_uuid: tokens[2].clone(),
                    channel_name: tokens[3].clone(),
                    channel_description: tokens[4].clone(),
                },
            ),
        );
    }
    if is_text(&tokens[0], "NEW_THREAD") {
        if n != 8 {
            return invalid_info("invalid NEW_THREAD payload");
        }
        let ts_chars = chars_of(tokens[5].as_str());
        let thread_timestamp = match parse_i64(ts_chars.as_slice()) {
            Some(v) => v,
            None => return invalid_info("invalid NEW_THREAD timestamp payload"),
        };
        return Ok(
            Some(
                InfoMessage::NewThread {
                    team_uuid: tokens[1].clone(),
                    channel_uuid: tokens[2].clone(),
                    thread_uuid: tokens[3].clone(),
                    user_uuid: tokens[4].clone(),
                    thread_timestamp,
                    thread_title: tokens[6].clone(),
                    thread_body: tokens[7].clone(),
                },
            ),
        );
    }
    if is_text(&tokens[0], "NEW_REPLY") {
        if n != 5 {
            return invalid_info("invalid NEW_REPLY payload");
        }
        return Ok(
            Some(
                InfoMessage::NewReply {
                    team_uuid: tokens[1].clone(),
                    thread_uuid: tokens[2].clone(),
                    user_uuid: tokens[3].clone(),
                    reply_body: tokens[4].clone(),
                },
            ),
        );
    }
    Ok(None)
}

} // verus!
