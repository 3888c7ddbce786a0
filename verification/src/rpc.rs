//! LSP base-protocol framing (`Content-Length` headers + JSON body).

use crate::text::{
    begins_with, chars_of, decimal, decimal_reads_back, decimal_text, end_trimmed, parse_number,
    parse_unsigned, start_trimmed, strip_prefix, trim, trim_end, trim_start,
};
use vstd::prelude::*;
use vstd::slice::slice_subrange;
use vstd::utf8::{
    decode_utf8, encode_utf8, encode_utf8_decode_utf8, encode_utf8_valid_utf8, is_ascii_chars,
    is_ascii_chars_encode_utf8, valid_utf8,
};

verus! {

/// Why no message could be read.
#[derive(Debug, PartialEq, Eq, Clone, Copy, Structural)]
pub enum ReadError {
    /// A header line is not UTF-8.
    InvalidUtf8,
    /// The headers ended without a usable `Content-Length`.
    MissingLength,
    /// The input ended within the body.
    UnexpectedEof,
}

/// What comes of reading one message.
pub enum Frame {
    /// The input ended before a body began.
    End,
    /// The body, and the input that follows it.
    Message { body: Seq<u8>, rest: Seq<u8> },
    Failed(ReadError),
}

/// How many bytes the first line takes, its newline included.
pub open spec fn line_len(b: Seq<u8>) -> nat
    decreases b.len(),
{
    if b.len() == 0 {
        0
    } else if b[0] == 10 {
        1
    } else {
        1 + line_len(b.drop_first())
    }
}

/// The length that the headers give once a further header line is read.
pub open spec fn header_length(len: Option<nat>, line: Seq<char>) -> Option<nat> {
    match strip_prefix(line, "Content-Length:"@) {
        Some(v) => parse_unsigned(trim(v), usize::MAX as nat),
        None => len,
    }
}

/// What comes of reading one message from the input, where the headers before
/// it gave the length `len`.
pub open spec fn read_frame(b: Seq<u8>, len: Option<nat>) -> Frame
    decreases b.len(),
    via read_frame_decreases
{
    let n = line_len(b) as int;
    let line = trim_end(decode_utf8(b.take(n)));
    if b.len() == 0 {
        Frame::End
    } else if !valid_utf8(b.take(n)) {
        Frame::Failed(ReadError::InvalidUtf8)
    } else if line.len() > 0 {
        read_frame(b.skip(n), header_length(len, line))
    } else {
        match len {
            None => Frame::Failed(ReadError::MissingLength),
            Some(k) => if k <= b.len() - n {
                Frame::Message {
                    body: b.skip(n).take(k as int),
                    rest: b.skip(n).skip(k as int),
                }
            } else {
                Frame::Failed(ReadError::UnexpectedEof)
            },
        }
    }
}

#[via_fn]
proof fn read_frame_decreases(b: Seq<u8>, len: Option<nat>) {
    lemma_line_len(b);
}

pub proof fn lemma_line_len(b: Seq<u8>)
    ensures
        line_len(b) <= b.len(),
        b.len() > 0 ==> line_len(b) > 0,
    decreases b.len(),
{
    if b.len() > 0 && b[0] != 10 {
        lemma_line_len(b.drop_first());
    }
}

/// The header lines of one message, read line by line.
pub struct Headers {
    content_length: Option<usize>,
}

impl View for Headers {
    type V = Option<nat>;

    closed spec fn view(&self) -> Option<nat> {
        match self.content_length {
            Some(n) => Some(n as nat),
            None => None,
        }
    }
}

impl Headers {
    pub fn new() -> (r: Headers)
        ensures
            r@ is None,
    {
        Headers { content_length: None }
    }

    /// Takes the next line in. Returns whether it was the blank line that ends
    /// the headers.
    pub fn line(&mut self, line: &str) -> (done: bool)
        ensures
            done == (trim_end(line@).len() == 0),
            final(self)@ == (if done {
                old(self)@
            } else {
                header_length(old(self)@, trim_end(line@))
            }),
    {
        let c = chars_of(line);
        let hi = end_trimmed(&c, 0, c.len());
        proof {
            assert(c@.subrange(0, c@.len() as int) =~= c@);
        }
        if hi == 0 {
            return true;
        }
        let name = chars_of("Content-Length:");
        if begins_with(&c, 0, hi, &name) {
            let from: usize = name.len();
            let lo = start_trimmed(&c, from, hi);
            let end = end_trimmed(&c, lo, hi);
            proof {
                let t = trim_end(line@);
                assert(t.skip(from as int) =~= c@.subrange(from as int, hi as int));
            }
            self.content_length = match parse_number(&c, lo, end, usize::MAX as u64) {
                Some(n) => Some(n as usize),
                None => None,
            };
        }
        false
    }

    /// How long the body is.
    pub fn length(&self) -> (r: Result<usize, ReadError>)
        ensures
            match (r, self@) {
                (Ok(n), Some(m)) => n == m,
                (Err(e), None) => e == ReadError::MissingLength,
                _ => false,
            },
    {
        match self.content_length {
            Some(n) => Ok(n),
            None => Err(ReadError::MissingLength),
        }
    }
}

/// `std::str::from_utf8` gives the text that the bytes encode, and an error
/// exactly where they are not UTF-8.
#[verifier::external_body]
fn utf8_text(bytes: &[u8]) -> (r: Option<&str>)
    ensures
        match r {
            Some(s) => valid_utf8(bytes@) && s@ == decode_utf8(bytes@),
            None => !valid_utf8(bytes@),
        },
{
    std::str::from_utf8(bytes).ok()
}

fn line_end(input: &[u8], from: usize) -> (r: usize)
    requires
        from <= input@.len(),
    ensures
        from <= r <= input@.len(),
        r - from == line_len(input@.skip(from as int)),
{
    let mut i: usize = from;
    while i < input.len()
        invariant
            from <= i <= input@.len(),
            line_len(input@.skip(from as int)) == i - from + line_len(input@.skip(i as int)),
        decreases input@.len() - i,
    {
        proof {
            assert(input@.skip(i as int).drop_first() =~= input@.skip(i + 1));
        }
        if input[i] == 10 {
            return i + 1;
        }
        i = i + 1;
    }
    i
}

/// Reads one framed message from the front of the input. Returns its body and
/// how many bytes were taken, or `None` on clean EOF.
pub fn read_message(input: &[u8]) -> (r: Result<Option<(Vec<u8>, usize)>, ReadError>)
    ensures
        match r {
            Ok(Some((body, used))) => used <= input@.len() && read_frame(input@, None) == (
            Frame::Message { body: body@, rest: input@.skip(used as int) }),
            Ok(None) => read_frame(input@, None) is End,
            Err(e) => read_frame(input@, None) == Frame::Failed(e),
        },
{
    let mut headers = Headers::new();
    let mut at: usize = 0;
    proof {
        assert(input@.skip(0) =~= input@);
    }
    loop
        invariant
            at <= input@.len(),
            read_frame(input@, None) == read_frame(input@.skip(at as int), headers@),
        decreases input@.len() - at,
    {
        let ghost b = input@.skip(at as int);
        if at >= input.len() {
            return Ok(None);
        }
        let end = line_end(input, at);
        let line = slice_subrange(input, at, end);
        proof {
            lemma_line_len(b);
            assert(line@ =~= b.take(end - at));
            assert(b.skip(end - at) =~= input@.skip(end as int));
        }
        let text = match utf8_text(line) {
            Some(text) => text,
            None => {
                return Err(ReadError::InvalidUtf8);
            },
        };
        if headers.line(text) {
            let len = match headers.length() {
                Ok(len) => len,
                Err(e) => {
                    return Err(e);
                },
            };
            if len > input.len() - end {
                return Err(ReadError::UnexpectedEof);
            }
            let body = slice_subrange(input, end, end + len);
            proof {
                assert(body@ =~= b.skip(end - at).take(len as int));
                assert(input@.skip(end + len) =~= b.skip(end - at).skip(len as int));
            }
            return Ok(Some((vstd::slice::slice_to_vec(body), end + len)));
        }
        at = end;
    }
}

/// The bytes of a framed message.
pub open spec fn frame(body: Seq<u8>) -> Seq<u8> {
    encode_utf8("Content-Length: "@ + decimal(body.len()) + "\r\n\r\n"@) + body
}

/// Frames a message.
pub fn write_message(body: &[u8]) -> (r: Vec<u8>)
    ensures
        r@ == frame(body@),
{
    let mut header = "Content-Length: ".to_owned();
    let len = decimal_text(body.len() as u64);
    header.append(len.as_str());
    header.append("\r\n\r\n");
    let mut out = header.as_str().as_bytes_vec();
    let mut i: usize = 0;
    while i < body.len()
        invariant
            i <= body@.len(),
            out@ == encode_utf8(header@) + body@.take(i as int),
        decreases body@.len() - i,
    {
        out.push(body[i]);
        i = i + 1;
        proof {
            assert(body@.take(i as int) =~= body@.take(i - 1).push(body@[i - 1]));
        }
    }
    proof {
        assert(body@.take(i as int) =~= body@);
    }
    out
}

proof fn lemma_first_line(line: Seq<u8>, rest: Seq<u8>)
    requires
        line.len() > 0,
        line.last() == 10,
        forall|i: int| 0 <= i < line.len() - 1 ==> line[i] != 10,
    ensures
        line_len(line + rest) == line.len(),
    decreases line.len(),
{
    let b = line + rest;
    assert(b[0] == line[0]);
    if line.len() > 1 {
        lemma_first_line(line.drop_first(), rest);
        assert(b.drop_first() =~= line.drop_first() + rest);
    }
}

/// Reading back what was written gives the body that was written, and leaves
/// what follows it.
pub proof fn written_message_reads_back(body: Seq<u8>, rest: Seq<u8>)
    requires
        body.len() <= usize::MAX,
    ensures
        read_frame(frame(body) + rest, None) == (Frame::Message { body, rest }),
{
    let n = decimal(body.len());
    let tag = "Content-Length:"@;
    let name = "Content-Length: "@;
    let crlf = "\r\n"@;
    let line1 = name + n + crlf;
    let whole = name + n + "\r\n\r\n"@;
    reveal_strlit("Content-Length: ");
    reveal_strlit("Content-Length:");
    reveal_strlit("\r\n\r\n");
    reveal_strlit("\r\n");
    decimal_reads_back(body.len());
    assert(whole =~= line1 + crlf);
    assert(is_ascii_chars(n)) by {
        assert forall|i: int| 0 <= i < n.len() implies 0 <= #[trigger] n[i] as nat <= 127 by {
            assert('0' <= n[i] <= '9');
        }
    }
    assert(is_ascii_chars(line1));
    assert(is_ascii_chars(whole));
    is_ascii_chars_encode_utf8(line1);
    is_ascii_chars_encode_utf8(crlf);
    is_ascii_chars_encode_utf8(whole);
    let e1 = encode_utf8(line1);
    let e2 = encode_utf8(crlf);
    let input = frame(body) + rest;
    let after = e2 + (body + rest);
    assert(encode_utf8(whole) =~= e1 + e2);
    assert(input =~= e1 + after);
    // The header line.
    assert forall|i: int| 0 <= i < e1.len() - 1 implies e1[i] != 10 by {
        if name.len() <= i < name.len() + n.len() {
            assert('0' <= n[i - name.len()] <= '9');
        }
    }
    lemma_first_line(e1, after);
    encode_utf8_valid_utf8(line1);
    encode_utf8_decode_utf8(line1);
    assert(input.take(e1.len() as int) =~= e1);
    assert(input.skip(e1.len() as int) =~= after);
    let shown = name + n;
    assert(trim_end(line1) == shown) by {
        assert(line1.drop_last().drop_last() =~= shown);
        assert(line1.last() == '\n');
        assert(line1.drop_last().last() == '\r');
        assert(shown.last() == n.last());
        assert('0' <= n[n.len() - 1] <= '9');
        reveal_with_fuel(trim_end, 3);
    }
    assert(tag =~= shown.subrange(0, tag.len() as int));
    assert(header_length(None, shown) == Some(body.len())) by {
        let v = shown.skip(tag.len() as int);
        assert(v.drop_first() =~= n);
        assert(v[0] == ' ');
        assert('0' <= n[0] <= '9');
        assert('0' <= n[n.len() - 1] <= '9');
        reveal_with_fuel(trim_start, 2);
        assert(trim_start(v) == n);
        assert(trim_end(n) == n);
        assert(strip_prefix(shown, tag) == Some(v));
    }
    // The blank line.
    lemma_first_line(e2, body + rest);
    encode_utf8_valid_utf8(crlf);
    encode_utf8_decode_utf8(crlf);
    assert(after.take(e2.len() as int) =~= e2);
    assert(after.skip(e2.len() as int) =~= body + rest);
    assert(trim_end(crlf).len() == 0) by {
        assert(crlf.drop_last().last() == '\r');
        reveal_with_fuel(trim_end, 3);
    }
    assert((body + rest).take(body.len() as int) =~= body);
    assert((body + rest).skip(body.len() as int) =~= rest);
    reveal_with_fuel(read_frame, 3);
}

/// The bytes of framed messages, one after the other.
pub open spec fn frames(bodies: Seq<Seq<u8>>) -> Seq<u8>
    decreases bodies.len(),
{
    if bodies.len() == 0 {
        Seq::empty()
    } else {
        frame(bodies[0]) + frames(bodies.drop_first())
    }
}

/// The bodies that are read from the input, one message after the other, until
/// there is none.
pub open spec fn bodies_in(b: Seq<u8>) -> Seq<Seq<u8>>
    decreases b.len(),
    via bodies_in_decreases
{
    match read_frame(b, None) {
        Frame::Message { body, rest } => seq![body] + bodies_in(rest),
        _ => Seq::empty(),
    }
}

#[via_fn]
proof fn bodies_in_decreases(b: Seq<u8>) {
    lemma_rest_is_shorter(b, None);
}

proof fn lemma_rest_is_shorter(b: Seq<u8>, len: Option<nat>)
    ensures
        read_frame(b, len) matches Frame::Message { body, rest } ==> rest.len() < b.len(),
    decreases b.len(),
{
    let n = line_len(b) as int;
    lemma_line_len(b);
    if b.len() > 0 && trim_end(decode_utf8(b.take(n))).len() > 0 {
        lemma_rest_is_shorter(b.skip(n), header_length(len, trim_end(decode_utf8(b.take(n)))));
    }
}

/// From messages that were written one after the other, their bodies are read
/// back in that order.
pub proof fn written_messages_read_back(bodies: Seq<Seq<u8>>)
    requires
        forall|i: int| 0 <= i < bodies.len() ==> (#[trigger] bodies[i]).len() <= usize::MAX,
    ensures
        bodies_in(frames(bodies)) == bodies,
    decreases bodies.len(),
{
    if bodies.len() == 0 {
        assert(read_frame(Seq::empty(), None) is End);
    } else {
        let rest = bodies.drop_first();
        assert forall|i: int| 0 <= i < rest.len() implies (#[trigger] rest[i]).len()
            <= usize::MAX by {
            assert(rest[i] == bodies[i + 1]);
        }
        written_messages_read_back(rest);
        written_message_reads_back(bodies[0], frames(rest));
        assert(bodies =~= seq![bodies[0]] + rest);
    }
}

} // verus!
