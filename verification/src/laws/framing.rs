//! How messages are framed.

use crate::rpc::{frame, header_length, line_len, read_frame, Frame, ReadError};
use crate::text::{decimal, parse_unsigned, trim, trim_end};
use vstd::prelude::*;
use vstd::utf8::{decode_utf8, encode_utf8, encode_utf8_decode_utf8, valid_utf8};

verus! {

/// A line ends with the first newline; where there is none, with the input.
pub proof fn lines_end_at_the_first_newline(b: Seq<u8>)
    ensures
        line_len(b) <= b.len(),
        forall|i: int| 0 <= i < line_len(b) - 1 ==> #[trigger] b[i] != 10,
        b.len() > 0 ==> line_len(b) > 0 && (b[line_len(b) - 1] == 10 || line_len(b) == b.len()),
    decreases b.len(),
{
    if b.len() > 0 && b[0] != 10 {
        let rest = b.drop_first();
        lines_end_at_the_first_newline(rest);
        assert forall|i: int| 0 <= i < line_len(b) - 1 implies #[trigger] b[i] != 10 by {
            if i > 0 {
                assert(b[i] == rest[i - 1]);
            }
        }
        if rest.len() > 0 {
            assert(b[line_len(b) - 1] == rest[line_len(rest) - 1]);
        }
    }
}

/// Whether these bytes are one line with its newline, or the end of the input
/// without one.
pub open spec fn is_line(line: Seq<u8>, rest: Seq<u8>) -> bool {
    &&& line.len() > 0
    &&& forall|i: int| 0 <= i < line.len() - 1 ==> #[trigger] line[i] != 10
    &&& line.last() == 10 || rest.len() == 0
}

proof fn lemma_line(line: Seq<u8>, rest: Seq<u8>)
    requires
        is_line(line, rest),
    ensures
        line_len(line + rest) == line.len(),
        (line + rest).take(line.len() as int) == line,
        (line + rest).skip(line.len() as int) == rest,
{
    let b = line + rest;
    lines_end_at_the_first_newline(b);
    let n = line_len(b) as int;
    if n < line.len() {
        assert(b[n - 1] == line[n - 1]);
    }
    if n > line.len() {
        assert(b[line.len() - 1] == line[line.len() - 1]);
    }
    assert(b.take(line.len() as int) =~= line);
    assert(b.skip(line.len() as int) =~= rest);
}

/// A header line says how long the body is where it begins with
/// `Content-Length:`, whatever white space is around the number and whatever was
/// said before. Any other header line is passed over. Bytes that are no text are
/// an error, and where the input ends among the headers there is no message.
pub proof fn headers_are_read(
    line: Seq<u8>,
    rest: Seq<u8>,
    len: Option<nat>,
    value: Seq<char>,
)
    requires
        is_line(line, rest),
    ensures
        ({
            let text = trim_end(decode_utf8(line));
            let read = read_frame(line + rest, len);
            &&& !valid_utf8(line) ==> read == Frame::Failed(ReadError::InvalidUtf8)
            &&& valid_utf8(line) && text == "Content-Length:"@ + value ==> read == read_frame(
                rest,
                parse_unsigned(trim(value), usize::MAX as nat),
            )
            &&& valid_utf8(line) && text.len() > 0 && !"Content-Length:"@.is_prefix_of(text)
                ==> read == read_frame(rest, len)
        }),
        read_frame(Seq::empty(), len) == Frame::End,
{
    lemma_line(line, rest);
    reveal_strlit("Content-Length:");
    let tag = "Content-Length:"@;
    let text = trim_end(decode_utf8(line));
    if text == tag + value {
        assert(text.subrange(0, tag.len() as int) =~= tag);
        assert(text.skip(tag.len() as int) =~= value);
    }
}

/// A blank line ends the headers. The body follows it and is as long as they say,
/// and what follows the body is left. Where they do not say how long it is, or
/// less than that follows, that is an error.
pub proof fn bodies_follow_a_blank_line(
    line: Seq<u8>,
    body: Seq<u8>,
    rest: Seq<u8>,
    len: nat,
)
    requires
        is_line(line, body + rest),
        valid_utf8(line),
        trim_end(decode_utf8(line)).len() == 0,
    ensures
        len == body.len() ==> read_frame(line + (body + rest), Some(len)) == (Frame::Message {
            body,
            rest,
        }),
        len > body.len() + rest.len() ==> read_frame(line + (body + rest), Some(len))
            == Frame::Failed(ReadError::UnexpectedEof),
        read_frame(line + (body + rest), None) == Frame::Failed(ReadError::MissingLength),
{
    lemma_line(line, body + rest);
    if len == body.len() {
        assert((body + rest).take(len as int) =~= body);
        assert((body + rest).skip(len as int) =~= rest);
    }
}

/// A message is written as a header with the length of its body, a blank line,
/// and the body.
pub proof fn messages_are_written_with_their_length(body: Seq<u8>)
    ensures
        ({
            let header = frame(body).take(frame(body).len() - body.len());
            &&& frame(body).len() > body.len()
            &&& frame(body).skip(frame(body).len() - body.len()) == body
            &&& decode_utf8(header) == "Content-Length: "@ + decimal(body.len())
                + "\r\n\r\n"@
        }),
{
    let text = "Content-Length: "@ + decimal(body.len()) + "\r\n\r\n"@;
    let header = encode_utf8(text);
    assert(frame(body).take(header.len() as int) =~= header);
    assert(frame(body).skip(header.len() as int) =~= body);
    encode_utf8_decode_utf8(text);
    reveal_strlit("\r\n\r\n");
    assert(text.len() > 0);
    if header.len() == 0 {
        assert(header =~= encode_utf8(Seq::empty()));
        encode_utf8_decode_utf8(Seq::empty());
    }
}

/// A header that begins with `Content-Length:` says how long the body is, and
/// where what follows is no number the length is unknown again. Any other header
/// leaves the length as it was.
pub proof fn lengths_are_taken_from_headers(len: Option<nat>, line: Seq<char>, value: Seq<char>)
    ensures
        line == "Content-Length:"@ + value ==> header_length(len, line) == parse_unsigned(
            trim(value),
            usize::MAX as nat,
        ),
        !"Content-Length:"@.is_prefix_of(line) ==> header_length(len, line) == len,
{
    let tag = "Content-Length:"@;
    if line == tag + value {
        assert(line.subrange(0, tag.len() as int) =~= tag);
        assert(line.skip(tag.len() as int) =~= value);
    }
}

} // verus!
