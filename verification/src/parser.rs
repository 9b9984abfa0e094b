//! The response grammar: a status line is `("+OK" | "-ERR") SP statustext`
//! followed by the line terminator; a multi-line payload is a sequence of
//! content lines closed by a line holding exactly a single dot and the
//! terminator. Content lines are returned with the terminator stripped and
//! decoded as text. Dot-stuffed lines pass through unchanged: only the
//! literal three-byte terminator line closes a payload.

use vstd::prelude::*;
use vstd::utf8::{
    valid_utf8, decode_utf8, encode_utf8, is_ascii_chars, is_ascii_chars_encode_utf8,
    encode_utf8_valid_utf8, valid_utf8_concat,
};
use crate::errors::ProtocolError;
use crate::text::is_prefix_of;
use crate::codec::bytes_to_string;

verus! {

pub const DOT: u8 = 0x2E;
pub const CR: u8 = 0x0D;
pub const LF: u8 = 0x0A;

/// The bytes of the positive status token and its separator, `"+OK "`.
pub open spec fn positive_prefix() -> Seq<u8> {
    seq![0x2bu8, 0x4fu8, 0x4bu8, 0x20u8]
}

/// The bytes of the negative status token and its separator, `"-ERR "`.
pub open spec fn negative_prefix() -> Seq<u8> {
    seq![0x2du8, 0x45u8, 0x52u8, 0x52u8, 0x20u8]
}

/// A positive or negative status indicator.
#[derive(Debug, Clone, Copy, PartialEq, Eq, Structural)]
pub enum Status {
    Positive,
    Negative,
}

/// One decoded response: a status, its status text, and, for multi-line
/// commands, the ordered content lines.
#[derive(Debug)]
pub struct Response {
    pub status: Status,
    pub text: String,
    pub lines: Vec<String>,
}

impl Response {
    /// A negative response never carries content lines.
    pub open spec fn wf(self) -> bool {
        self.status is Negative ==> self.lines@.len() == 0
    }
}

/// The text of one raw line: its bytes with the two trailing terminator
/// bytes stripped, decoded as UTF-8; `None` where the line is shorter than
/// the terminator or not valid text.
pub open spec fn line_content(l: Seq<u8>) -> Option<Seq<char>> {
    if l.len() >= 2 && valid_utf8(l.subrange(0, l.len() - 2)) {
        Some(decode_utf8(l.subrange(0, l.len() - 2)))
    } else {
        None
    }
}

/// The line that closes a multi-line payload: exactly one dot and the
/// terminator.
pub open spec fn is_terminator_line(l: Seq<u8>) -> bool {
    l == seq![DOT, CR, LF]
}

/// What decoding a status line yields: the status and the status text.
pub open spec fn spec_decode_status_line(line: Seq<u8>) -> Result<(Status, Seq<char>), ProtocolError> {
    if line.len() < 2 {
        Err(ProtocolError::MalformedStatusLine)
    } else {
        let body = line.subrange(0, line.len() - 2);
        if is_prefix_of(positive_prefix(), body) {
            if valid_utf8(body.skip(4)) {
                Ok((Status::Positive, decode_utf8(body.skip(4))))
            } else {
                Err(ProtocolError::Encoding)
            }
        } else if is_prefix_of(negative_prefix(), body) {
            if valid_utf8(body.skip(5)) {
                Ok((Status::Negative, decode_utf8(body.skip(5))))
            } else {
                Err(ProtocolError::Encoding)
            }
        } else {
            Err(ProtocolError::MalformedStatusLine)
        }
    }
}

/// What decoding a multi-line payload yields: the content lines up to the
/// first terminator line, and how many raw lines were consumed (terminator
/// included).
pub open spec fn spec_decode_multiline(lines: Seq<Seq<u8>>) -> Result<(Seq<Seq<char>>, int), ProtocolError>
    decreases lines.len(),
{
    if lines.len() == 0 {
        Err(ProtocolError::UnterminatedResponse)
    } else if is_terminator_line(lines[0]) {
        Ok((Seq::<Seq<char>>::empty(), 1))
    } else {
        match line_content(lines[0]) {
            None => Err(ProtocolError::Encoding),
            Some(c) => match spec_decode_multiline(lines.skip(1)) {
                Ok(p) => Ok((seq![c] + p.0, p.1 + 1)),
                Err(e) => Err(e),
            },
        }
    }
}

/// Strips the two trailing terminator bytes and decodes the rest as text.
pub fn parse_to_utf8_without_crlf(buffer: &Vec<u8>) -> (r: Result<String, ProtocolError>)
    ensures
        match r {
            Ok(s) => line_content(buffer@) == Some(s@),
            Err(e) => line_content(buffer@) is None && e is Encoding,
        },
{
    if buffer.len() < 2 {
        return Err(ProtocolError::Encoding);
    }
    let end = buffer.len() - 2;
    let stripped = vstd::slice::slice_to_vec(&buffer.as_slice()[0..end]);
    match bytes_to_string(stripped) {
        Some(s) => Ok(s),
        None => Err(ProtocolError::Encoding),
    }
}

/// Does the stripped line body start with the positive token and separator?
fn has_positive_prefix(body: &[u8]) -> (r: bool)
    ensures
        r == is_prefix_of(positive_prefix(), body@),
{
    if body.len() < 4 {
        return false;
    }
    let r = body[0] == 0x2b && body[1] == 0x4f && body[2] == 0x4b && body[3] == 0x20;
    proof {
        if r {
            assert(body@.subrange(0, 4) =~= positive_prefix());
        } else {
            assert(body@.subrange(0, 4)[0] == body@[0]);
            assert(body@.subrange(0, 4)[1] == body@[1]);
            assert(body@.subrange(0, 4)[2] == body@[2]);
            assert(body@.subrange(0, 4)[3] == body@[3]);
        }
    }
    r
}

/// Does the stripped line body start with the negative token and separator?
fn has_negative_prefix(body: &[u8]) -> (r: bool)
    ensures
        r == is_prefix_of(negative_prefix(), body@),
{
    if body.len() < 5 {
        return false;
    }
    let r = body[0] == 0x2d && body[1] == 0x45 && body[2] == 0x52 && body[3] == 0x52
        && body[4] == 0x20;
    proof {
        if r {
            assert(body@.subrange(0, 5) =~= negative_prefix());
        } else {
            assert(body@.subrange(0, 5)[0] == body@[0]);
            assert(body@.subrange(0, 5)[1] == body@[1]);
            assert(body@.subrange(0, 5)[2] == body@[2]);
            assert(body@.subrange(0, 5)[3] == body@[3]);
            assert(body@.subrange(0, 5)[4] == body@[4]);
        }
    }
    r
}

/// Decodes one status line. Returns a response without content lines; the
/// grammar and the resulting status and text are fixed by
/// `spec_decode_status_line`.
pub fn decode_status_line(line: &Vec<u8>) -> (r: Result<Response, ProtocolError>)
    ensures
        match r {
            Ok(resp) => spec_decode_status_line(line@) matches Ok(p) && p.0 == resp.status
                && p.1 == resp.text@ && resp.lines@.len() == 0 && resp.wf(),
            Err(e) => spec_decode_status_line(line@) matches Err(e2) && e == e2,
        },
{
    if line.len() < 2 {
        return Err(ProtocolError::MalformedStatusLine);
    }
    let end = line.len() - 2;
    let body = &line.as_slice()[0..end];
    if has_positive_prefix(body) {
        let text_bytes = vstd::slice::slice_to_vec(&body[4..body.len()]);
        proof {
            assert(text_bytes@ =~= line@.subrange(0, line@.len() - 2).skip(4));
        }
        match bytes_to_string(text_bytes) {
            Some(s) => Ok(Response { status: Status::Positive, text: s, lines: Vec::new() }),
            None => Err(ProtocolError::Encoding),
        }
    } else if has_negative_prefix(body) {
        let text_bytes = vstd::slice::slice_to_vec(&body[5..body.len()]);
        proof {
            assert(text_bytes@ =~= line@.subrange(0, line@.len() - 2).skip(5));
        }
        match bytes_to_string(text_bytes) {
            Some(s) => Ok(Response { status: Status::Negative, text: s, lines: Vec::new() }),
            None => Err(ProtocolError::Encoding),
        }
    } else {
        Err(ProtocolError::MalformedStatusLine)
    }
}

/// A status line whose decode succeeds is, as a whole, valid text.
pub proof fn lemma_status_ok_line_content(line: Seq<u8>)
    requires
        spec_decode_status_line(line) is Ok,
    ensures
        line_content(line) is Some,
{
    let body = line.subrange(0, line.len() - 2);
    if is_prefix_of(positive_prefix(), body) {
        let pchars = seq!['+', 'O', 'K', ' '];
        assert(is_ascii_chars(pchars)) by {
            assert(pchars[0] == '+' && pchars[1] == 'O' && pchars[2] == 'K' && pchars[3] == ' ');
        }
        is_ascii_chars_encode_utf8(pchars);
        assert(encode_utf8(pchars) =~= positive_prefix());
        encode_utf8_valid_utf8(pchars);
        assert(body =~= body.subrange(0, 4) + body.skip(4));
        valid_utf8_concat(positive_prefix(), body.skip(4));
    } else if is_prefix_of(negative_prefix(), body) {
        let nchars = seq!['-', 'E', 'R', 'R', ' '];
        assert(is_ascii_chars(nchars)) by {
            assert(nchars[0] == '-' && nchars[1] == 'E' && nchars[2] == 'R' && nchars[3] == 'R'
                && nchars[4] == ' ');
        }
        is_ascii_chars_encode_utf8(nchars);
        assert(encode_utf8(nchars) =~= negative_prefix());
        encode_utf8_valid_utf8(nchars);
        assert(body =~= body.subrange(0, 5) + body.skip(5));
        valid_utf8_concat(negative_prefix(), body.skip(5));
    }
}

/// Law: for any raw line ending in the terminator, decoding yields a
/// positive status exactly when the line begins with the positive token and
/// separator and its remainder is valid text, and the status text is that
/// remainder with the terminator stripped. Symmetrically for the negative
/// token.
pub proof fn lemma_status_line_grammar(line: Seq<u8>)
    requires
        line.len() >= 2,
        line[line.len() - 2] == CR,
        line[line.len() - 1] == LF,
    ensures
        (spec_decode_status_line(line) matches Ok(p) && p.0 is Positive) <==> (is_prefix_of(
            positive_prefix(),
            line,
        ) && valid_utf8(line.subrange(4, line.len() - 2))),
        spec_decode_status_line(line) matches Ok(p) ==> (p.0 is Positive ==> p.1 == decode_utf8(
            line.subrange(4, line.len() - 2),
        )),
        (spec_decode_status_line(line) matches Ok(p) && p.0 is Negative) <==> (is_prefix_of(
            negative_prefix(),
            line,
        ) && valid_utf8(line.subrange(5, line.len() - 2))),
        spec_decode_status_line(line) matches Ok(p) ==> (p.0 is Negative ==> p.1 == decode_utf8(
            line.subrange(5, line.len() - 2),
        )),
{
    let body = line.subrange(0, line.len() - 2);
    if is_prefix_of(positive_prefix(), line) {
        assert(line[3] == 0x20u8);
        assert(line.len() >= 6) by {
            if line.len() < 6 {
                assert(line[line.len() - 2] == CR);
            }
        }
        assert(body.subrange(0, 4) =~= line.subrange(0, 4));
        assert(body.skip(4) =~= line.subrange(4, line.len() - 2));
    }
    if is_prefix_of(positive_prefix(), body) {
        assert(line.subrange(0, 4) =~= body.subrange(0, 4));
        assert(body.skip(4) =~= line.subrange(4, line.len() - 2));
    }
    if is_prefix_of(negative_prefix(), line) {
        assert(line[4] == 0x20u8);
        assert(line.len() >= 7) by {
            if line.len() < 7 {
                assert(line[line.len() - 2] == CR);
            }
        }
        assert(body.subrange(0, 5) =~= line.subrange(0, 5));
        assert(body.skip(5) =~= line.subrange(5, line.len() - 2));
    }
    if is_prefix_of(negative_prefix(), body) {
        assert(line.subrange(0, 5) =~= body.subrange(0, 5));
        assert(body.skip(5) =~= line.subrange(5, line.len() - 2));
    }
}

/// Unrolls the multi-line decode across a prefix of non-terminator,
/// decodable lines.
proof fn lemma_decode_multiline_prefix(lines: Seq<Seq<u8>>, k: int)
    requires
        0 <= k <= lines.len(),
        forall|j: int| 0 <= j < k ==> !is_terminator_line(#[trigger] lines[j]) && line_content(
            lines[j],
        ) is Some,
    ensures
        match spec_decode_multiline(lines.skip(k)) {
            Ok(p) => spec_decode_multiline(lines) == Ok::<(Seq<Seq<char>>, int), ProtocolError>(
                (Seq::new(k as nat, |j: int| line_content(lines[j]).unwrap()) + p.0, p.1 + k),
            ),
            Err(e) => spec_decode_multiline(lines) == Err::<(Seq<Seq<char>>, int), ProtocolError>(
                e,
            ),
        },
    decreases k,
{
    if k == 0 {
        assert(lines.skip(0) =~= lines);
        match spec_decode_multiline(lines) {
            Ok(p) => {
                assert(Seq::new(0nat, |j: int| line_content(lines[j]).unwrap()) + p.0 =~= p.0);
            },
            Err(_) => {},
        }
    } else {
        let rest = lines.skip(1);
        assert(forall|j: int| 0 <= j < k - 1 ==> rest[j] == lines[j + 1]);
        lemma_decode_multiline_prefix(rest, k - 1);
        assert(rest.skip(k - 1) =~= lines.skip(k));
        let c0 = line_content(lines[0]).unwrap();
        match spec_decode_multiline(lines.skip(k)) {
            Ok(p) => {
                assert(seq![c0] + (Seq::new((k - 1) as nat, |j: int| line_content(rest[j]).unwrap())
                    + p.0) =~= Seq::new(k as nat, |j: int| line_content(lines[j]).unwrap()) + p.0);
            },
            Err(_) => {},
        }
    }
}

/// Law: for a payload of content lines that are decodable and none of which
/// is the terminator line, followed by the terminator line, decoding
/// returns exactly those content lines in order, each with its terminator
/// stripped, and consumes exactly the lines up to and including the
/// terminator.
pub proof fn lemma_decode_multiline_exact(lines: Seq<Seq<u8>>, n: int)
    requires
        0 <= n < lines.len(),
        forall|j: int| 0 <= j < n ==> !is_terminator_line(#[trigger] lines[j]) && line_content(
            lines[j],
        ) is Some,
        is_terminator_line(lines[n]),
    ensures
        spec_decode_multiline(lines) == Ok::<(Seq<Seq<char>>, int), ProtocolError>(
            (Seq::new(n as nat, |j: int| line_content(lines[j]).unwrap()), n + 1),
        ),
{
    lemma_decode_multiline_prefix(lines, n);
    assert(lines.skip(n)[0] == lines[n]);
    assert(Seq::new(n as nat, |j: int| line_content(lines[j]).unwrap())
        + Seq::<Seq<char>>::empty() =~= Seq::new(
        n as nat,
        |j: int| line_content(lines[j]).unwrap(),
    ));
}

/// Law: decoding a captured multi-line payload is a function of the raw
/// bytes alone; decoding two equal captures yields equal results.
pub proof fn lemma_decode_multiline_deterministic(a: Seq<Seq<u8>>, b: Seq<Seq<u8>>)
    requires
        a == b,
    ensures
        spec_decode_multiline(a) == spec_decode_multiline(b),
{
}

/// Checks for the line that closes a multi-line payload.
fn is_terminator(line: &Vec<u8>) -> (r: bool)
    ensures
        r == is_terminator_line(line@),
{
    let r = line.len() == 3 && line[0] == DOT && line[1] == CR && line[2] == LF;
    proof {
        if r {
            assert(line@ =~= seq![DOT, CR, LF]);
        } else {
            if line@ == seq![DOT, CR, LF] {
                assert(line@.len() == 3);
                assert(line@[0] == DOT && line@[1] == CR && line@[2] == LF);
            }
        }
    }
    r
}

/// Decodes a multi-line payload from `lines`, beginning at index `start`:
/// content lines up to the first terminator line, and the number of raw
/// lines consumed (terminator included). Consumes no lines beyond the
/// terminator line.
pub fn decode_multiline_from(lines: &Vec<Vec<u8>>, start: usize) -> (r: Result<
    (Vec<String>, usize),
    ProtocolError,
>)
    requires
        start <= lines@.len(),
    ensures
        ({
            let s = lines.deep_view().skip(start as int);
            match r {
                Ok((content, used)) => spec_decode_multiline(s) matches Ok(p) && content.deep_view()
                    == p.0 && used as int == p.1 && start + used <= lines@.len(),
                Err(e) => spec_decode_multiline(s) matches Err(e2) && e == e2,
            }
        }),
{
    let ghost s = lines.deep_view().skip(start as int);
    let n = lines.len();
    let mut content: Vec<String> = Vec::new();
    let mut i: usize = start;
    while i < n
        invariant
            start <= i <= n,
            n == lines@.len(),
            s == lines.deep_view().skip(start as int),
            forall|j: int| start <= j < i ==> !is_terminator_line(#[trigger] lines.deep_view()[j])
                && line_content(lines.deep_view()[j]) is Some,
            content.deep_view() == Seq::new(
                (i - start) as nat,
                |j: int| line_content(lines.deep_view()[start + j]).unwrap(),
            ),
        decreases n - i,
    {
        let line = &lines[i];
        proof {
            assert(lines.deep_view()[i as int] == line@);
        }
        if is_terminator(line) {
            proof {
                lemma_decode_multiline_prefix(s, i - start);
                assert(s.skip(i - start) =~= lines.deep_view().skip(i as int));
                assert(s.skip(i - start)[0] == lines.deep_view()[i as int]);
                assert(forall|j: int| 0 <= j < i - start ==> s[j] == lines.deep_view()[start + j]);
                assert(content.deep_view() + Seq::<Seq<char>>::empty() =~= Seq::new(
                    (i - start) as nat,
                    |j: int| line_content(s[j]).unwrap(),
                ));
            }
            return Ok((content, i - start + 1));
        }
        match parse_to_utf8_without_crlf(line) {
            Ok(text) => {
                let ghost prev = content.deep_view();
                let ghost tview = text@;
                content.push(text);
                proof {
                    assert(line_content(lines.deep_view()[i as int]) == Some(tview));
                    assert(content.deep_view() =~~= prev.push(tview));
                    assert(content.deep_view() =~~= Seq::new(
                        (i + 1 - start) as nat,
                        |j: int| line_content(lines.deep_view()[start + j]).unwrap(),
                    ));
                }
                i = i + 1;
            },
            Err(_) => {
                proof {
                    lemma_decode_multiline_prefix(s, i - start);
                    assert(forall|j: int| 0 <= j < i - start ==> s[j] == lines.deep_view()[start
                        + j]);
                    assert(s.skip(i - start) =~= lines.deep_view().skip(i as int));
                    assert(s.skip(i - start)[0] == lines.deep_view()[i as int]);
                }
                return Err(ProtocolError::Encoding);
            },
        }
    }
    proof {
        lemma_decode_multiline_prefix(s, n - start);
        assert(forall|j: int| 0 <= j < n - start ==> s[j] == lines.deep_view()[start + j]);
        assert(s.skip(n - start) =~= lines.deep_view().skip(n as int));
        assert(s.skip(n - start).len() == 0);
    }
    Err(ProtocolError::UnterminatedResponse)
}

/// Decodes a whole captured multi-line payload from its first line.
pub fn decode_multiline(lines: &Vec<Vec<u8>>) -> (r: Result<(Vec<String>, usize), ProtocolError>)
    ensures
        match r {
            Ok((content, used)) => spec_decode_multiline(lines.deep_view()) matches Ok(p)
                && content.deep_view() == p.0 && used as int == p.1 && used <= lines@.len(),
            Err(e) => spec_decode_multiline(lines.deep_view()) matches Err(e2) && e == e2,
        },
{
    proof {
        assert(lines.deep_view().skip(0) =~= lines.deep_view());
    }
    decode_multiline_from(lines, 0)
}

} // verus!
