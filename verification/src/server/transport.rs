//! Splitting of the bytes read from a client into request lines.
use vstd::prelude::*;

use crate::text::{chars_of, string_of};

verus! {

/// Result of a non-blocking read attempt from a client socket.
pub enum ReadLinesResult {
    /// The peer closed the connection.
    Disconnected,
    /// No data was ready to be read.
    WouldBlock,
    /// One or more complete lines were read.
    Lines(Vec<String>),
}

/// `s` without its trailing carriage returns and line feeds.
pub open spec fn trim_crlf_end(s: Seq<char>) -> Seq<char>
    decreases s.len(),
{
    if s.len() > 0 && (s.last() == '\r' || s.last() == '\n') {
        trim_crlf_end(s.drop_last())
    } else {
        s
    }
}

/// The complete lines found so far and the pending text, after reading `s`:
/// each line feed ends a line, which is kept without its trailing carriage
/// returns unless it is then empty.
pub open spec fn line_run(s: Seq<char>) -> (Seq<Seq<char>>, Seq<char>)
    decreases s.len(),
{
    if s.len() == 0 {
        (Seq::empty(), Seq::empty())
    } else {
        let (lines, pending) = line_run(s.drop_last());
        if s.last() == '\n' {
            let line = trim_crlf_end(pending);
            if line.len() > 0 {
                (lines.push(line), Seq::empty())
            } else {
                (lines, Seq::empty())
            }
        } else {
            (lines, pending.push(s.last()))
        }
    }
}

/// The characters of `s` without its trailing carriage returns and line feeds.
fn trim_crlf_chars(s: &Vec<char>) -> (r: Vec<char>)
    ensures
        r@ == trim_crlf_end(s@),
{
    let mut n: usize = s.len();
    assert(s@.subrange(0, n as int) =~= s@);
    while n > 0 && (s[n - 1] == '\r' || s[n - 1] == '\n')
        invariant
            n <= s@.len(),
            trim_crlf_end(s@) == trim_crlf_end(s@.subrange(0, n as int)),
        decreases n,
    {
        assert(s@.subrange(0, n as int).drop_last() =~= s@.subrange(0, n - 1));
        n = n - 1;
    }
    let mut out: Vec<char> = Vec::new();
    let mut i: usize = 0;
    while i < n
        invariant
            i <= n <= s@.len(),
            out@ == s@.subrange(0, i as int),
        decreases n - i,
    {
        out.push(s[i]);
        i = i + 1;
        assert(out@ =~= s@.subrange(0, i as int));
    }
    proof {
        if n > 0 {
            assert(s@.subrange(0, n as int).last() == s@[n - 1]);
        }
    }
    out
}

/// Removes every complete line from `input_buffer` and returns the non-empty
/// ones, without their line ends; the text after the last line feed stays.
pub fn take_lines(input_buffer: &mut String) -> (r: Vec<String>)
    ensures
        r.deep_view() == line_run(old(input_buffer)@).0,
        final(input_buffer)@ == line_run(old(input_buffer)@).1,
{
    let chars = chars_of(input_buffer.as_str());
    let mut lines: Vec<String> = Vec::new();
    let mut pending: Vec<char> = Vec::new();
    let mut i: usize = 0;
    while i < chars.len()
        invariant
            i <= chars@.len(),
            (lines.deep_view(), pending@) == line_run(chars@.subrange(0, i as int)),
        decreases chars@.len() - i,
    {
        assert(chars@.subrange(0, i + 1).drop_last() =~= chars@.subrange(0, i as int));
        let c = chars[i];
        if c == '\n' {
            let line = trim_crlf_chars(&pending);
            if line.len() > 0 {
                let ghost before = lines.deep_view();
                let text = string_of(line.as_slice());
                lines.push(text);
                assert(lines.deep_view() =~= before.push(line@));
            }
            pending = Vec::new();
        } else {
            pending.push(c);
        }
        i = i + 1;
        assert(pending@ =~= line_run(chars@.subrange(0, i as int)).1);
    }
    assert(chars@.subrange(0, i as int) =~= chars@);
    *input_buffer = string_of(pending.as_slice());
    lines
}

} // verus!
