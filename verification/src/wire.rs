//! Laws that tie the two ends of the wire protocol together: what the client
//! writes, the server reads back, and what the server answers, the client
//! reads back.
use vstd::prelude::*;

use crate::client::protocol::{
    first_space, first_word, info_parse_spec, response_code_spec, utf8_len, utf8_width, info_split, request_args_spec, request_spec, response_body,
    response_tokens_spec, InfoParse, InfoView,
};
use crate::server::handlers::info_line_spec;
use crate::server::protocol::{request_accepted, request_split, request_tokens, response_spec};
use crate::text::{
    first_ws, is_white_space, lemma_first_ws, lemma_tok_run_append, lemma_tok_run_quoted,
    pad3_spec, quoted_spec, split_first_ws_spec, tok_finish, tok_init, tok_run, tok_step,
    tokenize_spec, trim_end_spec, trim_spec, trim_start_spec, digits_spec, lemma_digits_len,
    all_digits, digit_char, digit_value, digits_value, parse_int_spec, parse_u16_spec,
    int_text, parse_i64_spec,
};

verus! {

/// A command word: non-empty, without whitespace, quotes or backslashes.
pub open spec fn is_command_word(w: Seq<char>) -> bool {
    &&& w.len() > 0
    &&& forall|i: int|
        0 <= i < w.len() ==> !is_white_space(#[trigger] w[i]) && w[i] != '"' && w[i] != '\\'
}

/// Arguments that survive tokenization: none of them is empty.
pub open spec fn all_non_empty(args: Seq<Seq<char>>) -> bool {
    forall|i: int| 0 <= i < args.len() ==> (#[trigger] args[i]).len() > 0
}

/// Reading a plain word outside quotes appends it to the pending token.
proof fn lemma_tok_run_plain(tokens: Seq<Seq<char>>, current: Seq<char>, w: Seq<char>)
    requires
        forall|i: int|
            0 <= i < w.len() ==> !is_white_space(#[trigger] w[i]) && w[i] != '"' && w[i] != '\\',
    ensures
        tok_run((tokens, current, false, false), w, true) == (tokens, current + w, false, false),
    decreases w.len(),
{
    if w.len() == 0 {
        assert(current + w =~= current);
    } else {
        let v = w.drop_last();
        assert forall|i: int|
            0 <= i < v.len() implies !is_white_space(#[trigger] v[i]) && v[i] != '"' && v[i]
            != '\\' by {
            assert(v[i] == w[i]);
        }
        lemma_tok_run_plain(tokens, current, v);
        assert(!is_white_space(w[w.len() - 1]));
        assert((current + v).push(w.last()) =~= current + w);
    }
}

/// Reading the space-separated quoted arguments after a non-empty pending
/// token yields that token followed by the arguments.
proof fn lemma_tok_run_args(tokens: Seq<Seq<char>>, current: Seq<char>, args: Seq<Seq<char>>)
    requires
        current.len() > 0,
        all_non_empty(args),
    ensures
        ({
            let r = tok_run((tokens, current, false, false), request_args_spec(args), true);
            &&& !r.2
            &&& !r.3
            &&& r.1.len() > 0
            &&& tok_finish(r) == tokens.push(current) + args
        }),
    decreases args.len(),
{
    let st = (tokens, current, false, false);
    if args.len() == 0 {
        assert(request_args_spec(args) =~= Seq::<char>::empty());
        assert(tokens.push(current) + args =~= tokens.push(current));
    } else {
        let prev = args.drop_last();
        let last = args.last();
        assert forall|i: int| 0 <= i < prev.len() implies (#[trigger] prev[i]).len() > 0 by {
            assert(prev[i] == args[i]);
        }
        assert(args[args.len() - 1].len() > 0);
        lemma_tok_run_args(tokens, current, prev);
        let r0 = tok_run(st, request_args_spec(prev), true);
        lemma_tok_run_append(st, request_args_spec(prev) + seq![' '], quoted_spec(last), true);
        lemma_tok_run_append(st, request_args_spec(prev), seq![' '], true);
        let e: Seq<char> = Seq::empty();
        assert(seq![' '].drop_last() =~= e);
        assert(tok_run(r0, e, true) == r0);
        assert(tok_run(r0, seq![' '], true) == tok_step(r0, ' ', true));
        let r1 = (r0.0.push(r0.1), e, false, false);
        assert(tok_run(r0, seq![' '], true) == r1);
        lemma_tok_run_quoted(r0.0.push(r0.1), e, last);
        assert(e + last =~= last);
        assert(request_args_spec(args) == request_args_spec(prev) + seq![' '] + quoted_spec(
            last,
        ));
        assert(tokens.push(current) + args =~= (tokens.push(current) + prev).push(last));
    }
}

/// Whitespace-free text starting a sequence moves the first whitespace of
/// the whole by its length.
proof fn lemma_first_ws_prefix(a: Seq<char>, b: Seq<char>)
    requires
        forall|i: int| 0 <= i < a.len() ==> !is_white_space(#[trigger] a[i]),
    ensures
        first_ws(a + b) == match first_ws(b) {
            Some(i) => Some(i + a.len()),
            None => None::<int>,
        },
    decreases a.len(),
{
    if a.len() == 0 {
        assert(a + b =~= b);
    } else {
        assert(!is_white_space(a[0]));
        assert((a + b).drop_first() =~= a.drop_first() + b);
        assert forall|i: int| 0 <= i < a.drop_first().len() implies !is_white_space(
            #[trigger] a.drop_first()[i],
        ) by {
            assert(a.drop_first()[i] == a[i + 1]);
        }
        lemma_first_ws_prefix(a.drop_first(), b);
    }
}

/// Trimming text that starts with a non-whitespace character and ends with a
/// non-whitespace character followed by CRLF removes the CRLF only.
proof fn lemma_trim_crlf(x: Seq<char>)
    requires
        x.len() > 0,
        !is_white_space(x[0]),
        !is_white_space(x.last()),
    ensures
        trim_spec(x + seq!['\r', '\n']) == x,
{
    let s = x + seq!['\r', '\n'];
    assert(s[0] == x[0]);
    assert(trim_start_spec(s) == s);
    assert(s.drop_last() =~= x.push('\r'));
    assert(x.push('\r').drop_last() =~= x);
    assert(is_white_space('\n'));
    assert(is_white_space('\r'));
    assert(trim_end_spec(s) == trim_end_spec(x.push('\r')));
    assert(trim_end_spec(x.push('\r')) == trim_end_spec(x));
    assert(trim_end_spec(x) == x);
}

/// A line that trims to `C100 <name> "<arg>" ...` is accepted, and its
/// tokens are the name followed by the arguments.
proof fn lemma_request_from_trimmed(line: Seq<char>, name: Seq<char>, args: Seq<Seq<char>>)
    requires
        is_command_word(name),
        all_non_empty(args),
        trim_spec(line) == seq!['C', '1', '0', '0', ' '] + name + request_args_spec(args),
    ensures
        request_accepted(line),
        request_tokens(line) == seq![name] + args,
{
    let head: Seq<char> = seq!['C', '1', '0', '0'];
    let x = trim_spec(line);
    let body = name + request_args_spec(args);
    assert(x =~= head + (seq![' '] + body));
    assert forall|i: int| 0 <= i < head.len() implies !is_white_space(#[trigger] head[i]) by {}
    lemma_first_ws_prefix(head, seq![' '] + body);
    assert(first_ws(seq![' '] + body) == Some(0int));
    assert(first_ws(x) == Some(4int));
    assert(x.subrange(0, 4) =~= head);
    assert(x.subrange(5, x.len() as int) =~= body);
    assert(head =~= "C100"@) by {
        reveal_strlit("C100");
    }
    assert(request_split(line) == (head, Some(body)));
    let e: Seq<char> = Seq::empty();
    let ee: Seq<Seq<char>> = Seq::empty();
    lemma_tok_run_append(tok_init(), name, request_args_spec(args), true);
    lemma_tok_run_plain(ee, e, name);
    assert(e + name =~= name);
    lemma_tok_run_args(ee, name, args);
    assert(ee.push(name) =~= seq![name]);
}

/// The last character of `C100 <name> "<arg>" ...` is the last of the name or
/// a quote, so no whitespace.
proof fn lemma_request_text_end(name: Seq<char>, args: Seq<Seq<char>>)
    requires
        is_command_word(name),
    ensures
        ({
            let x = seq!['C', '1', '0', '0', ' '] + name + request_args_spec(args);
            &&& x.len() > 0
            &&& !is_white_space(x[0])
            &&& !is_white_space(x.last())
        }),
{
    let x = seq!['C', '1', '0', '0', ' '] + name + request_args_spec(args);
    if args.len() == 0 {
        assert(request_args_spec(args) =~= Seq::<char>::empty());
        assert(x.last() == name.last());
        assert(!is_white_space(name[name.len() - 1]));
    } else {
        assert(request_args_spec(args) == request_args_spec(args.drop_last()) + seq![' ']
            + quoted_spec(args.last()));
        assert(x.last() == '"');
    }
}

/// Text without leading or trailing whitespace trims to itself.
proof fn lemma_trim_plain(x: Seq<char>)
    requires
        x.len() > 0,
        !is_white_space(x[0]),
        !is_white_space(x.last()),
    ensures
        trim_spec(x) == x,
{
    assert(trim_start_spec(x) == x);
    assert(trim_end_spec(x) == x);
}

/// What the client writes, the server reads back: a request line built from
/// a command word and non-empty arguments is accepted, and its tokens are the
/// command word followed by the arguments.
pub proof fn lemma_request_round_trip(name: Seq<char>, args: Seq<Seq<char>>)
    requires
        is_command_word(name),
        all_non_empty(args),
    ensures
        request_accepted(request_spec(name, args)),
        request_tokens(request_spec(name, args)) == seq![name] + args,
{
    let x = seq!['C', '1', '0', '0', ' '] + name + request_args_spec(args);
    assert(request_spec(name, args) =~= x + seq!['\r', '\n']);
    lemma_request_text_end(name, args);
    lemma_trim_crlf(x);
    lemma_request_from_trimmed(request_spec(name, args), name, args);
}

/// The same without the line end, as `C100 <name> <quoted args joined by
/// spaces>` with a single space after the name, even with no arguments: the
/// line is accepted, and its tokens are the name followed by the arguments.
pub proof fn lemma_request_text_round_trip(name: Seq<char>, args: Seq<Seq<char>>)
    requires
        is_command_word(name),
        all_non_empty(args),
    ensures
        request_accepted("C100 "@ + name + " "@ + join_quoted(args)),
        request_tokens("C100 "@ + name + " "@ + join_quoted(args)) == seq![name] + args,
{
    let line = "C100 "@ + name + " "@ + join_quoted(args);
    let x = seq!['C', '1', '0', '0', ' '] + name + request_args_spec(args);
    assert("C100 "@ =~= seq!['C', '1', '0', '0', ' ']) by {
        reveal_strlit("C100 ");
    }
    assert(" "@ =~= seq![' ']) by {
        reveal_strlit(" ");
    }
    lemma_request_text_end(name, args);
    if args.len() > 0 {
        lemma_join_quoted_args(args);
        assert(line =~= x);
        lemma_trim_plain(x);
    } else {
        assert(join_quoted(args) =~= Seq::<char>::empty());
        assert(request_args_spec(args) =~= Seq::<char>::empty());
        assert(line =~= x.push(' '));
        assert(trim_start_spec(line) == line);
        assert(is_white_space(' '));
        assert(line.drop_last() =~= x);
        assert(trim_end_spec(line) == trim_end_spec(x));
        assert(trim_end_spec(x) == x);
    }
    lemma_request_from_trimmed(line, name, args);
}

/// Quoted words joined by single spaces, as the server writes a response body.
pub open spec fn join_quoted(args: Seq<Seq<char>>) -> Seq<char>
    decreases args.len(),
{
    if args.len() == 0 {
        Seq::empty()
    } else if args.len() == 1 {
        quoted_spec(args[0])
    } else {
        join_quoted(args.drop_last()) + seq![' '] + quoted_spec(args.last())
    }
}

/// A body of quoted words is the first word followed by the others, each
/// after a space.
proof fn lemma_join_quoted_split(args: Seq<Seq<char>>)
    requires
        args.len() > 0,
    ensures
        join_quoted(args) == quoted_spec(args[0]) + request_args_spec(args.drop_first()),
    decreases args.len(),
{
    if args.len() == 1 {
        assert(args.drop_first() =~= Seq::<Seq<char>>::empty());
        assert(request_args_spec(args.drop_first()) =~= Seq::<char>::empty());
        assert(quoted_spec(args[0]) + Seq::<char>::empty() =~= quoted_spec(args[0]));
    } else {
        let prev = args.drop_last();
        lemma_join_quoted_split(prev);
        assert(prev.drop_first() =~= args.drop_first().drop_last());
        assert(args.drop_first().last() == args.last());
        assert(request_args_spec(args.drop_first()) == request_args_spec(
            args.drop_first().drop_last(),
        ) + seq![' '] + quoted_spec(args.drop_first().last()));
        assert(join_quoted(args) =~= quoted_spec(args[0]) + request_args_spec(
            args.drop_first(),
        ));
    }
}

/// A response whose body is at least one non-empty word, quoted and joined by
/// spaces, tokenizes to those words.
#[verifier::rlimit(90)]
#[verifier::spinoff_prover]
proof fn lemma_response_words(code: u16, args: Seq<Seq<char>>)
    requires
        args.len() > 0,
        all_non_empty(args),
    ensures
        response_tokens_spec(response_spec(code, Some(join_quoted(args)))) == Some(args),
{
    let body = join_quoted(args);
    let digits = pad3_spec(code as nat);
    lemma_digits_len(code as nat);
    lemma_join_quoted_split(args);
    let rest = args.drop_first();
    assert forall|i: int| 0 <= i < rest.len() implies (#[trigger] rest[i]).len() > 0 by {
        assert(rest[i] == args[i + 1]);
    }
    let s = response_spec(code, Some(body));
    let head = seq!['R'] + digits;
    assert(s =~= head + (seq![' '] + (body + seq!['\r', '\n'])));
    // no space among R and the digits
    assert forall|i: int| 0 <= i < head.len() implies #[trigger] head[i] != ' ' by {
        lemma_pad3_digits(code as nat);
    }
    lemma_first_space_prefix(head, seq![' '] + (body + seq!['\r', '\n']));
    assert(first_space(seq![' '] + (body + seq!['\r', '\n'])) == Some(0int));
    assert(first_space(s) == Some(head.len() as int));
    assert(s.subrange(head.len() as int + 1, s.len() as int) =~= body + seq!['\r', '\n']);
    // body starts and ends with a quote
    assert(body[0] == '"');
    if args.len() == 1 {
        assert(body.last() == '"');
    } else {
        assert(body.last() == '"');
    }
    lemma_trim_crlf(body);
    assert(response_body(s) == body);
    // tokenize
    let e: Seq<char> = Seq::empty();
    let ee: Seq<Seq<char>> = Seq::empty();
    lemma_tok_run_append(tok_init(), quoted_spec(args[0]), request_args_spec(rest), true);
    lemma_tok_run_quoted(ee, e, args[0]);
    assert(e + args[0] =~= args[0]);
    lemma_tok_run_args(ee, args[0], rest);
    assert(ee.push(args[0]) + rest =~= args);
}

/// A prefix without spaces moves the first space of the whole by its length.
proof fn lemma_first_space_prefix(a: Seq<char>, b: Seq<char>)
    requires
        forall|i: int| 0 <= i < a.len() ==> #[trigger] a[i] != ' ',
    ensures
        first_space(a + b) == match first_space(b) {
            Some(i) => Some(i + a.len()),
            None => None::<int>,
        },
    decreases a.len(),
{
    if a.len() == 0 {
        assert(a + b =~= b);
    } else {
        assert((a + b).drop_first() =~= a.drop_first() + b);
        assert forall|i: int| 0 <= i < a.drop_first().len() implies #[trigger] a.drop_first()[i]
            != ' ' by {
            assert(a.drop_first()[i] == a[i + 1]);
        }
        lemma_first_space_prefix(a.drop_first(), b);
    }
}

/// The padded code is made of digits, hence holds no space.
proof fn lemma_pad3_digits(n: nat)
    ensures
        forall|i: int| 0 <= i < pad3_spec(n).len() ==> #[trigger] pad3_spec(n)[i] != ' ',
{
    lemma_digits_no_space(n);
}

/// Decimal digits hold no space.
proof fn lemma_digits_no_space(n: nat)
    ensures
        forall|i: int| 0 <= i < digits_spec(n).len() ==> '0' <= #[trigger] digits_spec(n)[i] <= '9',
    decreases n,
{
    if n >= 10 {
        lemma_digits_no_space(n / 10);
        lemma_digit_char_range(n % 10);
        let p = digits_spec(n / 10);
        assert forall|i: int| 0 <= i < digits_spec(n).len() implies '0' <= #[trigger] digits_spec(
            n,
        )[i] <= '9' by {
            if i < p.len() {
                assert(digits_spec(n)[i] == p[i]);
            }
        }
    } else {
        lemma_digit_char_range(n);
    }
}

/// A digit character lies between `'0'` and `'9'`.
proof fn lemma_digit_char_range(d: nat)
    requires
        d < 10,
    ensures
        '0' <= crate::text::digit_char(d) <= '9',
{
    let c = crate::text::digit_char(d);
    assert((('0' as u32) + d) as u32 as char == c);
    assert(c as u32 == 48 + d);
}


/// A space followed by quoted words joined by spaces is the words, each after
/// a space.
proof fn lemma_join_quoted_args(words: Seq<Seq<char>>)
    requires
        words.len() > 0,
    ensures
        seq![' '] + join_quoted(words) == request_args_spec(words),
    decreases words.len(),
{
    let prev = words.drop_last();
    if words.len() == 1 {
        assert(prev =~= Seq::<Seq<char>>::empty());
        assert(request_args_spec(prev) =~= Seq::<char>::empty());
        assert(seq![' '] + join_quoted(words) =~= request_args_spec(words));
    } else {
        lemma_join_quoted_args(prev);
        assert(seq![' '] + join_quoted(words) =~= request_args_spec(words));
    }
}

/// An info line `I100 <event> "<word>" ... CRLF` splits into the header
/// `I100` and the event word followed by the words, each after a space.
proof fn lemma_info_line_split(event: Seq<char>, words: Seq<Seq<char>>)
    requires
        is_command_word(event),
        words.len() > 0,
    ensures
        info_split(info_line_spec("I100 "@ + event + " "@, words)) == (
            "I100"@,
            event + request_args_spec(words),
        ),
{
    let head: Seq<char> = seq!['I', '1', '0', '0'];
    assert(head =~= "I100"@) by {
        reveal_strlit("I100");
    }
    assert("I100 "@ =~= head + seq![' ']) by {
        reveal_strlit("I100 ");
    }
    assert(" "@ =~= seq![' ']) by {
        reveal_strlit(" ");
    }
    lemma_join_quoted_args(words);
    let body = event + request_args_spec(words);
    let x = head + seq![' '] + body;
    let line = info_line_spec("I100 "@ + event + " "@, words);
    assert(line =~= x + seq!['\r', '\n']);
    let last = words.last();
    assert(request_args_spec(words) == request_args_spec(words.drop_last()) + seq![' ']
        + quoted_spec(last));
    assert(x.last() == '"');
    lemma_trim_crlf(x);
    assert(x =~= head + (seq![' '] + body));
    assert forall|i: int| 0 <= i < head.len() implies !is_white_space(#[trigger] head[i]) by {}
    lemma_first_ws_prefix(head, seq![' '] + body);
    assert(first_ws(seq![' '] + body) == Some(0int));
    assert(first_ws(x) == Some(4int));
    assert(x.subrange(0, 4) =~= head);
    assert(x.subrange(5, x.len() as int) =~= body);
}

/// What the server sends as an info line, the client reads back: the line
/// `I100 <event> "<word>" ... CRLF` built from an event word and non-empty
/// words has the header `I100` and a body that tokenizes to the event word
/// followed by the words.
pub proof fn lemma_info_line_round_trip(event: Seq<char>, words: Seq<Seq<char>>)
    requires
        is_command_word(event),
        words.len() > 0,
        all_non_empty(words),
    ensures
        info_split(info_line_spec("I100 "@ + event + " "@, words)).0 == "I100"@,
        tokenize_spec(info_split(info_line_spec("I100 "@ + event + " "@, words)).1) == Some(
            seq![event] + words,
        ),
{
    lemma_info_line_split(event, words);
    let e: Seq<char> = Seq::empty();
    let ee: Seq<Seq<char>> = Seq::empty();
    lemma_tok_run_append(tok_init(), event, request_args_spec(words), true);
    lemma_tok_run_plain(ee, e, event);
    assert(e + event =~= event);
    lemma_tok_run_args(ee, event, words);
    assert(ee.push(event) =~= seq![event]);
}

/// With an empty first word, the line's body tokenizes to the event word and
/// the second word: an empty quoted word leaves no token.
proof fn lemma_info_line_empty_first(event: Seq<char>, second: Seq<char>)
    requires
        is_command_word(event),
        second.len() > 0,
    ensures
        tokenize_spec(info_split(info_line_spec("I100 "@ + event + " "@, seq![Seq::empty(), second])).1)
            == Some(seq![event, second]),
{
    let e: Seq<char> = Seq::empty();
    let ee: Seq<Seq<char>> = Seq::empty();
    let words = seq![e, second];
    lemma_info_line_split(event, words);
    assert(words.drop_last() =~= seq![e]);
    assert(seq![e].drop_last() =~= ee);
    assert(request_args_spec(ee) =~= e);
    let sp = seq![' '];
    assert(request_args_spec(seq![e]) =~= sp + quoted_spec(e));
    let body = event + request_args_spec(words);
    assert(body =~= event + sp + quoted_spec(e) + sp + quoted_spec(second));
    lemma_tok_run_plain(ee, e, event);
    assert(e + event =~= event);
    let s0 = (ee, event, false, false);
    let s1 = (seq![event], e, false, false);
    lemma_tok_run_append(tok_init(), event, sp, true);
    assert(sp.drop_last() =~= e);
    assert(tok_run(s0, e, true) == s0);
    assert(tok_run(s0, sp, true) == tok_step(s0, ' ', true));
    assert(ee.push(event) =~= seq![event]);
    assert(tok_run(tok_init(), event + sp, true) == s1);
    lemma_tok_run_append(tok_init(), event + sp, quoted_spec(e), true);
    lemma_tok_run_quoted(seq![event], e, e);
    assert(e + e =~= e);
    lemma_tok_run_append(tok_init(), event + sp + quoted_spec(e), sp, true);
    assert(tok_run(s1, e, true) == s1);
    assert(tok_run(s1, sp, true) == tok_step(s1, ' ', true));
    lemma_tok_run_append(tok_init(), event + sp + quoted_spec(e) + sp, quoted_spec(second), true);
    lemma_tok_run_quoted(seq![event], e, second);
    assert(e + second =~= second);
    assert(seq![event].push(second) =~= seq![event, second]);
}

/// A private-message notice is read back as that message: the client parses
/// the line the server sends to the recipient into the sender's identifier
/// and the body, whenever the body is not empty.
pub proof fn lemma_private_message_round_trip(sender_uuid: Seq<char>, message_body: Seq<char>)
    requires
        message_body.len() > 0,
    ensures
        info_parse_spec(info_line_spec("I100 NEW_MESSAGE "@, seq![sender_uuid, message_body]))
            == InfoParse::Parsed(InfoView::NewMessage { sender_uuid, message_body }),
{
    let event = "NEW_MESSAGE"@;
    assert(event =~= seq!['N', 'E', 'W', '_', 'M', 'E', 'S', 'S', 'A', 'G', 'E']) by {
        reveal_strlit("NEW_MESSAGE");
    }
    assert("I100 NEW_MESSAGE "@ =~= "I100 "@ + event + " "@) by {
        reveal_strlit("I100 NEW_MESSAGE ");
        reveal_strlit("I100 ");
        reveal_strlit(" ");
    }
    let words = seq![sender_uuid, message_body];
    assert forall|i: int| 0 <= i < event.len() implies !is_white_space(#[trigger] event[i])
        && event[i] != '"' && event[i] != '\\' by {}
    lemma_info_line_split(event, words);
    if sender_uuid.len() > 0 {
        assert(all_non_empty(words));
        lemma_info_line_round_trip(event, words);
        let t = seq![event] + words;
        assert(t =~= seq![event, sender_uuid, message_body]);
    } else {
        assert(sender_uuid =~= Seq::<char>::empty());
        lemma_info_line_empty_first(event, message_body);
    }
}


/// What the server answers, the client reads back: a response whose body is
/// non-empty words, quoted and joined by spaces, tokenizes to those words; an
/// empty list of words reads back as an empty list.
pub proof fn lemma_response_round_trip(code: u16, args: Seq<Seq<char>>)
    requires
        all_non_empty(args),
    ensures
        response_tokens_spec(response_spec(code, Some(join_quoted(args)))) == Some(args),
{
    if args.len() > 0 {
        lemma_response_words(code, args);
    } else {
        let head = seq!['R'] + pad3_spec(code as nat);
        let tail: Seq<char> = seq![' ', '\r', '\n'];
        let s = response_spec(code, Some(join_quoted(args)));
        assert(join_quoted(args) =~= Seq::<char>::empty());
        assert(s =~= head + tail);
        assert forall|i: int| 0 <= i < head.len() implies #[trigger] head[i] != ' ' by {
            lemma_pad3_digits(code as nat);
        }
        lemma_first_space_prefix(head, tail);
        assert(first_space(tail) == Some(0int));
        assert(s.subrange(head.len() as int + 1, s.len() as int) =~= seq!['\r', '\n']);
        assert(is_white_space('\n'));
        assert(is_white_space('\r'));
        let crlf: Seq<char> = seq!['\r', '\n'];
        assert(trim_start_spec(crlf) == trim_start_spec(crlf.drop_first()));
        assert(trim_start_spec(crlf.drop_first()) == trim_start_spec(crlf.drop_first().drop_first()));
        assert(crlf.drop_first().drop_first() =~= Seq::<char>::empty());
        assert(response_body(s).len() == 0);
        assert(args =~= Seq::<Seq<char>>::empty());
    }
}

/// A response without a body reads back as an empty list of words.
pub proof fn lemma_response_without_body(code: u16)
    ensures
        response_tokens_spec(response_spec(code, None)) == Some(Seq::<Seq<char>>::empty()),
{
    let head = seq!['R'] + pad3_spec(code as nat);
    let crlf: Seq<char> = seq!['\r', '\n'];
    let s = response_spec(code, None);
    assert(s =~= head + crlf);
    assert forall|i: int| 0 <= i < head.len() implies #[trigger] head[i] != ' ' by {
        lemma_pad3_digits(code as nat);
    }
    lemma_first_space_prefix(head, crlf);
    assert(crlf.drop_first().drop_first() =~= Seq::<char>::empty());
    assert(first_space(crlf.drop_first().drop_first()) is None);
    assert(crlf.drop_first()[0] == '\n');
    assert(first_space(crlf.drop_first()) is None);
    assert(first_space(crlf) is None);
}

/// A digit character's value is the digit.
proof fn lemma_digit_value_char(d: nat)
    requires
        d < 10,
    ensures
        digit_value(digit_char(d)) == d,
        '0' <= digit_char(d) <= '9',
{
    lemma_digit_char_range(d);
    let c = digit_char(d);
    assert(c as u32 == 48 + d);
}

/// The decimal digits of `n` read back as `n`.
proof fn lemma_digits_value_of(n: nat)
    ensures
        all_digits(digits_spec(n)),
        digits_value(digits_spec(n)) == n,
    decreases n,
{
    lemma_digits_no_space(n);
    let d = digits_spec(n);
    if n < 10 {
        lemma_digit_value_char(n);
        assert(d.drop_last() =~= Seq::<char>::empty());
        assert(digits_value(d.drop_last()) == 0);
        assert(d.last() == digit_char(n));
        assert(digits_value(d) == digits_value(d.drop_last()) * 10 + digit_value(d.last()));
    } else {
        lemma_digits_value_of(n / 10);
        lemma_digit_value_char(n % 10);
        assert(d.drop_last() =~= digits_spec(n / 10));
        assert(d.last() == digit_char(n % 10));
        assert(digits_value(d) == digits_value(d.drop_last()) * 10 + digit_value(d.last()));
        assert((n / 10) * 10 + n % 10 == n);
    }
}

/// A leading zero does not change the value of a run of digits.
proof fn lemma_leading_zero(x: Seq<char>)
    requires
        all_digits(x),
    ensures
        all_digits(seq!['0'] + x),
        digits_value(seq!['0'] + x) == digits_value(x),
    decreases x.len(),
{
    let z = seq!['0'] + x;
    assert forall|i: int| 0 <= i < z.len() implies crate::text::is_digit(#[trigger] z[i]) by {
        if i > 0 {
            assert(z[i] == x[i - 1]);
        }
    }
    if x.len() == 0 {
        assert(z.drop_last() =~= Seq::<char>::empty());
        assert(digit_value('0') == 0);
        assert(digits_value(z.drop_last()) == 0);
        assert(z.last() == '0');
        assert(digits_value(z) == digits_value(z.drop_last()) * 10 + digit_value(z.last()));
    } else {
        let p = x.drop_last();
        assert forall|i: int| 0 <= i < p.len() implies crate::text::is_digit(#[trigger] p[i]) by {
            assert(p[i] == x[i]);
        }
        lemma_leading_zero(p);
        assert(z.drop_last() =~= seq!['0'] + p);
        assert(z.last() == x.last());
        assert(digits_value(z) == digits_value(z.drop_last()) * 10 + digit_value(z.last()));
        assert(digits_value(x) == digits_value(p) * 10 + digit_value(x.last()));
    }
}

/// The code of a response is read back from it: for any code below 1000,
/// with or without a body, the client reads the code the server wrote.
pub proof fn lemma_response_code_round_trip(code: u16, body: Option<Seq<char>>)
    requires
        code < 1000,
    ensures
        response_code_spec(response_spec(code, body)) == Some(code),
{
    let n = code as nat;
    let p = pad3_spec(n);
    lemma_digits_len(n);
    lemma_digits_value_of(n);
    if n < 10 {
        lemma_leading_zero(digits_spec(n));
        lemma_leading_zero(seq!['0'] + digits_spec(n));
        assert(p =~= seq!['0'] + (seq!['0'] + digits_spec(n)));
    } else if n < 100 {
        lemma_leading_zero(digits_spec(n));
    } else {
        assert(digits_spec(n).len() == 3) by {
            lemma_digits_len(n / 10);
            assert(digits_spec(n) == digits_spec(n / 10).push(digit_char(n % 10)));
        }
    }
    assert(p.len() == 3);
    assert(all_digits(p));
    assert(digits_value(p) == n);
    let head = seq!['R'] + p;
    let tail: Seq<char> = match body {
        Some(t) => seq![' '] + t + seq!['\r', '\n'],
        None => seq!['\r', '\n'],
    };
    let s = response_spec(code, body);
    assert(s =~= head + tail);
    assert(is_white_space(tail[0]));
    assert forall|i: int| 0 <= i < head.len() implies !is_white_space(#[trigger] head[i]) by {
        if i > 0 {
            assert(head[i] == p[i - 1]);
            assert(crate::text::is_digit(p[i - 1]));
        }
    }
    assert(trim_start_spec(s) == s);
    lemma_first_ws_prefix(head, tail);
    assert(first_ws(tail) == Some(0int));
    assert(s.subrange(0, 4) =~= head);
    assert(first_word(s) == Some(head));
    assert forall|i: int| 0 <= i < head.len() implies utf8_width(#[trigger] head[i]) == 1 by {
        if i > 0 {
            assert(head[i] == p[i - 1]);
            assert(crate::text::is_digit(p[i - 1]));
        }
    }
    assert(head.drop_last().drop_last().drop_last().drop_last() =~= Seq::<char>::empty());
    assert(utf8_len(head) == 4) by {
        reveal_with_fuel(utf8_len, 5);
        assert(head.drop_last().last() == head[2]);
        assert(head.drop_last().drop_last().last() == head[1]);
        assert(head.drop_last().drop_last().drop_last().last() == head[0]);
    }
    assert(head.drop_first() =~= p);
    assert(parse_int_spec(p, false) == Some(n as int));
}



/// The decimal text of an integer reads back as that integer.
pub proof fn lemma_int_text_reads_back(n: i64)
    ensures
        parse_i64_spec(int_text(n as int)) == Some(n),
        int_text(n as int).len() > 0,
{
    if n < 0 {
        let m = (-(n as int)) as nat;
        lemma_digits_value_of(m);
        lemma_digits_len(m);
        let d = digits_spec(m);
        assert(d.len() > 0) by {
            if m >= 10 {
                assert(d == digits_spec(m / 10).push(digit_char(m % 10)));
            }
        }
        let s = int_text(n as int);
        assert(s == seq!['-'] + d);
        assert(s.drop_first() =~= d);
        assert(parse_int_spec(s, true) == Some(-(m as int)));
    } else {
        let m = n as nat;
        lemma_digits_value_of(m);
        let d = digits_spec(m);
        assert(d.len() > 0) by {
            if m >= 10 {
                assert(d == digits_spec(m / 10).push(digit_char(m % 10)));
            }
        }
        assert(crate::text::is_digit(d[0]));
        assert(parse_int_spec(d, true) == Some(m as int));
    }
}

} // verus!
