//! The message-body extractor: given the raw lines of one retrieved
//! message, decides whether it is flat or multipart; for multipart
//! messages it locates the quoted boundary token, bounds the alternative
//! parts between consecutive boundary-marker lines (content-type line,
//! then encoding line, then the body), reverses a base64
//! content-transfer-encoding, and picks the last part flagged plain-text.
//! For flat messages the body starts at the first line equal to the
//! one-line lookahead hint and runs to the end of the message.

use vstd::prelude::*;
use vstd::utf8::{valid_utf8, decode_utf8, encode_utf8};
use crate::codec::{b64_decode_of, decode_base64_body, bytes_to_string, push_str};
use crate::errors::ExtractionError;
use crate::session::POP3Client;
use crate::text::{contains_seq, is_prefix_of, contains_bytes, starts_with_bytes, match_at};

verus! {

/// The bytes of a text line on the wire.
pub open spec fn line_bytes(s: Seq<char>) -> Seq<u8> {
    encode_utf8(s)
}

/// The header prefix that declares a multipart message.
pub open spec fn multipart_marker() -> Seq<u8> {
    encode_utf8("Content-Type: multipart/"@)
}

/// The token that introduces a quoted boundary value.
pub open spec fn boundary_decl_marker() -> Seq<u8> {
    encode_utf8("boundary=\""@)
}

/// A double quote, closing the boundary value.
pub open spec fn quote_marker() -> Seq<u8> {
    encode_utf8("\""@)
}

/// The marker of a plain-text part's content-type line.
pub open spec fn plain_text_marker() -> Seq<u8> {
    encode_utf8("text/plain"@)
}

/// The marker of a base64 content-transfer-encoding line.
pub open spec fn base64_marker() -> Seq<u8> {
    encode_utf8("base64"@)
}

/// The two dashes prefixed to the boundary token in a boundary line.
pub open spec fn dashes() -> Seq<u8> {
    encode_utf8("--"@)
}

/// Does the line contain the marker anywhere?
pub open spec fn has_marker(line: Seq<char>, marker: Seq<u8>) -> bool {
    contains_seq(line_bytes(line), marker)
}

/// Does the line declare a multipart content type?
pub open spec fn is_multipart_line(line: Seq<char>) -> bool {
    is_prefix_of(multipart_marker(), line_bytes(line))
}

/// Is any header line a multipart declaration?
pub open spec fn has_multipart_line(lines: Seq<Seq<char>>) -> bool {
    exists|i: int| 0 <= i < lines.len() && is_multipart_line(#[trigger] lines[i])
}

/// The last line carrying a `boundary="` declaration, if any.
pub open spec fn last_boundary_decl(lines: Seq<Seq<char>>) -> Option<int>
    decreases lines.len(),
{
    if lines.len() == 0 {
        None
    } else if has_marker(lines.last(), boundary_decl_marker()) {
        Some(lines.len() - 1)
    } else {
        last_boundary_decl(lines.drop_last())
    }
}

/// The first occurrence of `p` in `s` at or after `i`.
pub open spec fn first_occurrence_from(s: Seq<u8>, p: Seq<u8>, i: int) -> Option<int>
    decreases s.len() + 1 - i when 0 <= i <= s.len() + 1
{
    if i + p.len() > s.len() {
        None
    } else if s.subrange(i, i + p.len() as int) == p {
        Some(i)
    } else {
        first_occurrence_from(s, p, i + 1)
    }
}

/// The boundary token of a boundary declaration line: the bytes between
/// the quote opening the value and the next quote.
pub open spec fn boundary_token(line: Seq<char>) -> Option<Seq<u8>> {
    let b = line_bytes(line);
    match first_occurrence_from(b, boundary_decl_marker(), 0) {
        None => None,
        Some(p) => match first_occurrence_from(b, quote_marker(), p + 10) {
            None => None,
            Some(q) => Some(b.subrange(p + 10, q)),
        },
    }
}

/// The ascending indices of the lines containing the boundary marker.
pub open spec fn marker_indices(lines: Seq<Seq<char>>, marker: Seq<u8>) -> Seq<int>
    decreases lines.len(),
{
    if lines.len() == 0 {
        Seq::empty()
    } else {
        let rest = marker_indices(lines.drop_last(), marker);
        if has_marker(lines.last(), marker) {
            rest.push(lines.len() - 1)
        } else {
            rest
        }
    }
}

/// The concatenation of the lines, in order, with no separator.
pub open spec fn concat_lines(lines: Seq<Seq<char>>) -> Seq<char>
    decreases lines.len(),
{
    if lines.len() == 0 {
        Seq::empty()
    } else {
        lines[0] + concat_lines(lines.skip(1))
    }
}

/// The decoded content of the part bounded by the marker lines `b` and
/// `e`: the line after `b` declares the content type, the next one the
/// transfer encoding, and the lines from `b + 3` up to `e` are the raw
/// body; a base64 body is decoded and re-read as text.
pub open spec fn spec_part_value(lines: Seq<Seq<char>>, b: int, e: int) -> Result<
    Seq<char>,
    ExtractionError,
> {
    if b + 3 > e {
        Err(ExtractionError::MalformedPart)
    } else {
        let raw = concat_lines(lines.subrange(b + 3, e));
        if has_marker(lines[b + 2], base64_marker()) {
            match b64_decode_of(encode_utf8(raw)) {
                None => Err(ExtractionError::Encoding),
                Some(bytes) => if valid_utf8(bytes) {
                    Ok(decode_utf8(bytes))
                } else {
                    Err(ExtractionError::Encoding)
                },
            }
        } else {
            Ok(raw)
        }
    }
}

/// The alternative parts bounded by consecutive marker indices, in order:
/// each with its plain-text flag and decoded content. The final marker
/// index only closes the last part.
pub open spec fn spec_alternatives(lines: Seq<Seq<char>>, idxs: Seq<int>) -> Result<
    Seq<(bool, Seq<char>)>,
    ExtractionError,
>
    decreases idxs.len(),
{
    if idxs.len() <= 1 {
        Ok(Seq::empty())
    } else {
        match spec_part_value(lines, idxs[0], idxs[1]) {
            Err(e) => Err(e),
            Ok(v) => match spec_alternatives(lines, idxs.skip(1)) {
                Err(e) => Err(e),
                Ok(rest) => Ok(
                    seq![(has_marker(lines[idxs[0] + 1], plain_text_marker()), v)] + rest,
                ),
            },
        }
    }
}

/// The last part flagged plain-text.
pub open spec fn last_plain(alts: Seq<(bool, Seq<char>)>) -> Option<(bool, Seq<char>)>
    decreases alts.len(),
{
    if alts.len() == 0 {
        None
    } else if alts.last().0 {
        Some(alts.last())
    } else {
        last_plain(alts.drop_last())
    }
}

/// The first line equal to the lookahead hint.
pub open spec fn first_line_equal(lines: Seq<Seq<char>>, h: Seq<char>) -> Option<int>
    decreases lines.len(),
{
    if lines.len() == 0 {
        None
    } else if lines[0] == h {
        Some(0)
    } else {
        match first_line_equal(lines.skip(1), h) {
            None => None,
            Some(j) => Some(j + 1),
        }
    }
}

/// A flat message's body: everything after the first line equal to the
/// lookahead hint, to the end of the message. The hint line itself marks
/// where the headers end and is not part of the body.
pub open spec fn spec_flat_body(lines: Seq<Seq<char>>, hint: Option<Seq<char>>) -> Result<
    Seq<char>,
    ExtractionError,
> {
    match hint {
        None => Err(ExtractionError::BodyNotFound),
        Some(h) => match first_line_equal(lines, h) {
            None => Err(ExtractionError::BodyNotFound),
            Some(i) => Ok(concat_lines(lines.skip(i + 1))),
        },
    }
}

/// What body extraction yields on a whole message: the plain-text flag and
/// the decoded content, or the extraction error.
pub open spec fn spec_extract(lines: Seq<Seq<char>>, hint: Option<Seq<char>>) -> Result<
    (bool, Seq<char>),
    ExtractionError,
> {
    if has_multipart_line(lines) {
        match last_boundary_decl(lines) {
            None => Err(ExtractionError::MissingBoundary),
            Some(bl) => match boundary_token(lines[bl]) {
                None => Err(ExtractionError::MissingBoundary),
                Some(tok) => match spec_alternatives(
                    lines,
                    marker_indices(lines, dashes() + tok),
                ) {
                    Err(e) => Err(e),
                    Ok(alts) => match last_plain(alts) {
                        None => Err(ExtractionError::NoPlainTextAlternative),
                        Some(p) => Ok(p),
                    },
                },
            },
        }
    } else {
        match spec_flat_body(lines, hint) {
            Err(e) => Err(e),
            Ok(c) => Ok((true, c)),
        }
    }
}

/// Appending one more line extends the concatenation at the end.
proof fn lemma_concat_lines_snoc(s: Seq<Seq<char>>, x: Seq<char>)
    ensures
        concat_lines(s.push(x)) == concat_lines(s) + x,
    decreases s.len(),
{
    if s.len() == 0 {
        assert(s.push(x)[0] == x);
        assert(s.push(x).skip(1) =~= Seq::<Seq<char>>::empty());
        assert(concat_lines(s.push(x).skip(1)) == Seq::<char>::empty());
        assert(concat_lines(s.push(x)) == x + Seq::<char>::empty());
        assert(concat_lines(s) == Seq::<char>::empty());
        assert(x + Seq::<char>::empty() =~= x);
        assert(Seq::<char>::empty() + x =~= x);
        assert(concat_lines(s.push(x)) =~= concat_lines(s) + x);
    } else {
        assert(s.push(x).skip(1) =~= s.skip(1).push(x));
        lemma_concat_lines_snoc(s.skip(1), x);
        assert(s.push(x)[0] == s[0]);
        assert(concat_lines(s.push(x)) == s[0] + (concat_lines(s.skip(1)) + x));
        assert(concat_lines(s) == s[0] + concat_lines(s.skip(1)));
        assert((s[0] + concat_lines(s.skip(1))) + x =~= s[0] + (concat_lines(s.skip(1)) + x));
    }
}

/// One decoded part body: `true` where its content-type names plain text,
/// and the decoded body text.
#[derive(Debug)]
pub struct POP3EmailBody {
    pub is_plain_text: bool,
    pub raw_body: String,
}

/// Is any line of the message a multipart content-type declaration?
pub fn is_multipart_message(buffer: &Vec<String>) -> (r: bool)
    ensures
        r == has_multipart_line(buffer.deep_view()),
{
    let n = buffer.len();
    let mut i: usize = 0;
    while i < n
        invariant
            0 <= i <= n,
            n == buffer@.len(),
            forall|j: int| 0 <= j < i ==> !is_multipart_line(#[trigger] buffer.deep_view()[j]),
        decreases n - i,
    {
        if starts_with_bytes(buffer[i].as_str().as_bytes(), "Content-Type: multipart/".as_bytes())
        {
            proof {
                assert(buffer.deep_view()[i as int] == buffer@[i as int]@);
            }
            return true;
        }
        proof {
            assert(buffer.deep_view()[i as int] == buffer@[i as int]@);
        }
        i = i + 1;
    }
    false
}

/// The first occurrence of `p` in `s` at or after `start`.
fn find_bytes_from(s: &[u8], p: &[u8], start: usize) -> (r: Option<usize>)
    requires
        start <= s@.len(),
    ensures
        match r {
            Some(i) => first_occurrence_from(s@, p@, start as int) == Some(i as int) && start <= i
                && i + p@.len() <= s@.len(),
            None => first_occurrence_from(s@, p@, start as int) is None,
        },
{
    let slen = s.len();
    let plen = p.len();
    if plen > slen || start > slen - plen {
        return None;
    }
    let last = slen - plen;
    let mut i: usize = start;
    while i < last
        invariant
            slen == s@.len(),
            plen == p@.len(),
            plen <= slen,
            last == slen - plen,
            start <= i <= last,
            first_occurrence_from(s@, p@, start as int) == first_occurrence_from(
                s@,
                p@,
                i as int,
            ),
        decreases last - i,
    {
        if match_at(s, p, i) {
            return Some(i);
        }
        i = i + 1;
    }
    if match_at(s, p, last) {
        return Some(last);
    }
    proof {
        assert(first_occurrence_from(s@, p@, last + 1) is None);
    }
    None
}

impl POP3Client {
    /// Extracts the textual body of one retrieved message. For a multipart
    /// message the lookahead hint is ignored; for a flat message it is the
    /// line, obtained from a one-line preview exchange, at which the body
    /// begins, and without it the body cannot be located. The result is
    /// fixed, case by case, by `spec_extract`.
    #[verifier::loop_isolation(false)]
    pub fn try_parsing_email_body(&self, buffer: &Vec<String>, top_hint: Option<&String>) -> (r:
        Result<POP3EmailBody, ExtractionError>)
        ensures
            ({
                let hint = if top_hint is Some {
                    Some(top_hint->Some_0@)
                } else {
                    None::<Seq<char>>
                };
                match r {
                    Ok(b) => spec_extract(buffer.deep_view(), hint) == Ok::<
                        (bool, Seq<char>),
                        ExtractionError,
                    >((b.is_plain_text, b.raw_body@)),
                    Err(e) => spec_extract(buffer.deep_view(), hint) == Err::<
                        (bool, Seq<char>),
                        ExtractionError,
                    >(e),
                }
            }),
    {
        if is_multipart_message(buffer) {
            let bl = match find_last_boundary_decl(buffer) {
                Some(bl) => bl,
                None => {
                    return Err(ExtractionError::MissingBoundary);
                },
            };
            let tok = match extract_boundary_token(buffer[bl].as_str()) {
                Some(tok) => tok,
                None => {
                    return Err(ExtractionError::MissingBoundary);
                },
            };
            let mut marker: Vec<u8> = Vec::new();
            marker.push(0x2d);
            marker.push(0x2d);
            marker.extend_from_slice(tok.as_slice());
            proof {
                let dchars = "--"@;
                reveal_strlit("--");
                vstd::utf8::is_ascii_chars_encode_utf8(dchars);
                assert(marker@ =~= dashes() + tok@);
            }
            let mut alts = match get_body_alternatives(buffer, marker.as_slice()) {
                Ok(a) => a,
                Err(e) => {
                    return Err(e);
                },
            };
            let ghost av = spec_alternatives_of(buffer.deep_view(), marker@)->Ok_0;
            let mut k: usize = alts.len();
            proof {
                assert(av.take(k as int) =~= av);
            }
            while k > 0
                invariant
                    k <= alts@.len(),
                    av == alternatives_view(alts@),
                    last_plain(av) == last_plain(av.take(k as int)),
                decreases k,
            {
                if alts[k - 1].is_plain_text {
                    proof {
                        assert(av.take(k as int).last() == av[k - 1]);
                        assert(last_plain(av) == Some(av[k - 1]));
                    }
                    let alt = alts.remove(k - 1);
                    return Ok(alt);
                }
                proof {
                    assert(av.take(k as int).last() == av[k - 1]);
                    assert(av.take(k as int).drop_last() =~= av.take(k - 1));
                }
                k = k - 1;
            }
            proof {
                assert(av.take(0) =~= Seq::<(bool, Seq<char>)>::empty());
            }
            Err(ExtractionError::NoPlainTextAlternative)
        } else {
            let hint = match top_hint {
                Some(h) => h,
                None => {
                    return Err(ExtractionError::BodyNotFound);
                },
            };
            let n = buffer.len();
            match find_first_equal_line(buffer, hint) {
                Some(i) => {
                    proof {
                        assert(i < n);
                    }
                    let body = concat_from(buffer, i + 1);
                    Ok(POP3EmailBody { is_plain_text: true, raw_body: body })
                },
                None => Err(ExtractionError::BodyNotFound),
            }
        }
    }
}

/// `spec_alternatives` applied to the marker's own index sequence.
pub open spec fn spec_alternatives_of(lines: Seq<Seq<char>>, marker: Seq<u8>) -> Result<
    Seq<(bool, Seq<char>)>,
    ExtractionError,
> {
    spec_alternatives(lines, marker_indices(lines, marker))
}

/// The last line holding a `boundary="` declaration.
fn find_last_boundary_decl(buffer: &Vec<String>) -> (r: Option<usize>)
    ensures
        match r {
            Some(i) => last_boundary_decl(buffer.deep_view()) == Some(i as int) && i
                < buffer@.len(),
            None => last_boundary_decl(buffer.deep_view()) is None,
        },
{
    let n = buffer.len();
    let mut best: Option<usize> = None;
    let mut i: usize = 0;
    while i < n
        invariant
            0 <= i <= n,
            n == buffer@.len(),
            match best {
                Some(b) => last_boundary_decl(buffer.deep_view().take(i as int)) == Some(b as int)
                    && b < i,
                None => last_boundary_decl(buffer.deep_view().take(i as int)) is None,
            },
        decreases n - i,
    {
        let ghost dv = buffer.deep_view();
        proof {
            assert(dv[i as int] == buffer@[i as int]@);
            assert(dv.take(i + 1).drop_last() =~= dv.take(i as int));
            assert(dv.take(i + 1).last() == dv[i as int]);
        }
        if contains_bytes(buffer[i].as_str().as_bytes(), "boundary=\"".as_bytes()) {
            best = Some(i);
        }
        i = i + 1;
    }
    proof {
        assert(buffer.deep_view().take(n as int) =~= buffer.deep_view());
    }
    best
}

/// The boundary token of one declaration line: the bytes between the
/// opening quote and the next quote.
fn extract_boundary_token(line: &str) -> (r: Option<Vec<u8>>)
    ensures
        match r {
            Some(t) => boundary_token(line@) == Some(t@),
            None => boundary_token(line@) is None,
        },
{
    let b = line.as_bytes();
    let blen = b.len();
    match find_bytes_from(b, "boundary=\"".as_bytes(), 0) {
        None => None,
        Some(p) => {
            proof {
                let dchars = "boundary=\""@;
                reveal_strlit("boundary=\"");
                assert(vstd::utf8::is_ascii_chars(dchars));
                vstd::utf8::is_ascii_chars_encode_utf8(dchars);
                assert(boundary_decl_marker().len() == 10);
                assert(p + 10 <= blen);
            }
            let start = p + 10;
            match find_bytes_from(b, "\"".as_bytes(), start) {
                None => None,
                Some(q) => Some(vstd::slice::slice_to_vec(&b[start..q])),
            }
        },
    }
}

/// The first line equal to the lookahead hint.
fn find_first_equal_line(buffer: &Vec<String>, h: &String) -> (r: Option<usize>)
    ensures
        match r {
            Some(i) => first_line_equal(buffer.deep_view(), h@) == Some(i as int) && i
                < buffer@.len(),
            None => first_line_equal(buffer.deep_view(), h@) is None,
        },
{
    let n = buffer.len();
    let mut i: usize = 0;
    proof {
        assert(buffer.deep_view().skip(0) =~= buffer.deep_view());
    }
    while i < n
        invariant
            0 <= i <= n,
            n == buffer@.len(),
            first_line_equal(buffer.deep_view(), h@) == match first_line_equal(
                buffer.deep_view().skip(i as int),
                h@,
            ) {
                None => None::<int>,
                Some(j) => Some(j + i),
            },
        decreases n - i,
    {
        let ghost dv = buffer.deep_view();
        proof {
            assert(dv[i as int] == buffer@[i as int]@);
            assert(dv.skip(i as int)[0] == dv[i as int]);
            assert(dv.skip(i as int).skip(1) =~= dv.skip(i + 1));
        }
        if buffer[i].eq(h) {
            return Some(i);
        }
        i = i + 1;
    }
    proof {
        assert(buffer.deep_view().skip(n as int).len() == 0);
    }
    None
}

/// Concatenates the lines from `start` to the end of the message.
fn concat_from(buffer: &Vec<String>, start: usize) -> (r: String)
    requires
        start <= buffer@.len(),
    ensures
        r@ == concat_lines(buffer.deep_view().skip(start as int)),
{
    let n = buffer.len();
    let mut body = String::new();
    let mut j: usize = start;
    while j < n
        invariant
            start <= j <= n,
            n == buffer@.len(),
            body@ == concat_lines(buffer.deep_view().subrange(start as int, j as int)),
        decreases n - j,
    {
        let ghost dv = buffer.deep_view();
        proof {
            assert(dv[j as int] == buffer@[j as int]@);
            assert(dv.subrange(start as int, j + 1) =~= dv.subrange(start as int, j as int).push(
                dv[j as int],
            ));
            lemma_concat_lines_snoc(dv.subrange(start as int, j as int), dv[j as int]);
        }
        push_str(&mut body, buffer[j].as_str());
        j = j + 1;
    }
    proof {
        assert(buffer.deep_view().subrange(start as int, n as int) =~= buffer.deep_view().skip(
            start as int,
        ));
    }
    body
}

/// Scans the message for the boundary marker and decodes every bounded
/// part, in order, into its plain-text flag and content.
pub fn get_body_alternatives(buffer: &Vec<String>, marker: &[u8]) -> (r: Result<
    Vec<POP3EmailBody>,
    ExtractionError,
>)
    ensures
        match r {
            Ok(alts) => spec_alternatives_of(buffer.deep_view(), marker@) == Ok::<
                Seq<(bool, Seq<char>)>,
                ExtractionError,
            >(alternatives_view(alts@)),
            Err(e) => spec_alternatives_of(buffer.deep_view(), marker@) matches Err(e2) && e == e2,
        },
{
    let ghost dv = buffer.deep_view();
    let n = buffer.len();
    let mut idxs: Vec<usize> = Vec::new();
    let mut i: usize = 0;
    while i < n
        invariant
            0 <= i <= n,
            n == buffer@.len(),
            dv == buffer.deep_view(),
            idxs@.map_values(|u: usize| u as int) == marker_indices(dv.take(i as int), marker@),
            forall|j: int| 0 <= j < idxs@.len() ==> #[trigger] idxs@[j] < i,
            forall|j: int| 0 <= j < idxs@.len() - 1 ==> #[trigger] idxs@[j] < idxs@[j + 1],
        decreases n - i,
    {
        proof {
            assert(dv[i as int] == buffer@[i as int]@);
            assert(dv.take(i + 1).drop_last() =~= dv.take(i as int));
            assert(dv.take(i + 1).last() == dv[i as int]);
        }
        if contains_bytes(buffer[i].as_str().as_bytes(), marker) {
            idxs.push(i);
            proof {
                assert(idxs@.map_values(|u: usize| u as int) =~= marker_indices(
                    dv.take(i as int),
                    marker@,
                ).push(i as int));
            }
        }
        i = i + 1;
    }
    proof {
        assert(dv.take(n as int) =~= dv);
    }
    let ghost ixv = marker_indices(dv, marker@);
    let mut alts: Vec<POP3EmailBody> = Vec::new();
    let mut k: usize = 0;
    let nidx = idxs.len();
    proof {
        assert(ixv.skip(0) =~= ixv);
        assert(alternatives_view(alts@) =~= Seq::<(bool, Seq<char>)>::empty());
        match spec_alternatives(dv, ixv) {
            Ok(rest) => {
                assert(alternatives_view(alts@) + rest =~= rest);
            },
            Err(_) => {},
        }
    }
    while k + 1 < nidx
        invariant
            0 <= k <= nidx,
            nidx == idxs@.len(),
            nidx >= 1 ==> k < nidx,
            dv == buffer.deep_view(),
            n == buffer@.len(),
            ixv == marker_indices(dv, marker@),
            idxs@.map_values(|u: usize| u as int) == ixv,
            forall|j: int| 0 <= j < idxs@.len() ==> #[trigger] idxs@[j] < n,
            forall|j: int| 0 <= j < idxs@.len() - 1 ==> #[trigger] idxs@[j] < idxs@[j + 1],
            match spec_alternatives(dv, ixv.skip(k as int)) {
                Ok(rest) => spec_alternatives(dv, ixv) matches Ok(whole) && whole
                    == alternatives_view(alts@) + rest,
                Err(e) => spec_alternatives(dv, ixv) == Err::<
                    Seq<(bool, Seq<char>)>,
                    ExtractionError,
                >(e),
            },
        decreases nidx - k,
    {
        let b = idxs[k];
        let e = idxs[k + 1];
        proof {
            assert(ixv[k as int] == b as int && ixv[k + 1] == e as int);
            assert(ixv.skip(k as int)[0] == ixv[k as int]);
            assert(ixv.skip(k as int)[1] == ixv[k + 1]);
            assert(ixv.skip(k as int).skip(1) =~= ixv.skip(k + 1));
        }
        if e < 3 || b > e - 3 {
            return Err(ExtractionError::MalformedPart);
        }
        proof {
            assert(dv[b + 1] == buffer@[b + 1]@);
            assert(dv[b + 2] == buffer@[b + 2]@);
        }
        let plain = contains_bytes(buffer[b + 1].as_str().as_bytes(), "text/plain".as_bytes());
        let b64 = contains_bytes(buffer[b + 2].as_str().as_bytes(), "base64".as_bytes());
        let raw = concat_range(buffer, b + 3, e);
        let value: String = if b64 {
            let decoded = match decode_base64_body(raw.as_str().as_bytes()) {
                Ok(d) => d,
                Err(err) => {
                    return Err(err);
                },
            };
            match bytes_to_string(decoded) {
                Some(s) => s,
                None => {
                    return Err(ExtractionError::Encoding);
                },
            }
        } else {
            raw
        };
        let ghost prev = alternatives_view(alts@);
        alts.push(POP3EmailBody { is_plain_text: plain, raw_body: value });
        proof {
            assert(alternatives_view(alts@) =~~= prev.push(
                (plain, alts@.last().raw_body@),
            ));
            let pv = spec_part_value(dv, b as int, e as int);
            assert(pv matches Ok(v) && v == alts@.last().raw_body@);
            match spec_alternatives(dv, ixv.skip(k + 1)) {
                Ok(rest) => {
                    assert(alternatives_view(alts@) + rest =~~= prev + (seq![
                        (has_marker(dv[b + 1], plain_text_marker()), pv->Ok_0),
                    ] + rest));
                },
                Err(_) => {},
            }
        }
        k = k + 1;
    }
    proof {
        if nidx == 0 {
            assert(ixv.skip(0) =~= ixv);
            assert(ixv.len() == 0);
        } else {
            assert(ixv.skip(k as int).len() <= 1);
        }
        assert(spec_alternatives(dv, ixv.skip(k as int)) == Ok::<
            Seq<(bool, Seq<char>)>,
            ExtractionError,
        >(Seq::empty()));
        assert(alternatives_view(alts@) + Seq::<(bool, Seq<char>)>::empty() =~= alternatives_view(
            alts@,
        ));
    }
    Ok(alts)
}

/// The flag/content pairs of decoded parts.
pub open spec fn alternatives_view(alts: Seq<POP3EmailBody>) -> Seq<(bool, Seq<char>)> {
    alts.map_values(|a: POP3EmailBody| (a.is_plain_text, a.raw_body@))
}

/// Concatenates the lines of `buffer` from `start` up to (not including)
/// `end`.
fn concat_range(buffer: &Vec<String>, start: usize, end: usize) -> (r: String)
    requires
        start <= end <= buffer@.len(),
    ensures
        r@ == concat_lines(buffer.deep_view().subrange(start as int, end as int)),
{
    let mut body = String::new();
    let mut j: usize = start;
    while j < end
        invariant
            start <= j <= end <= buffer@.len(),
            body@ == concat_lines(buffer.deep_view().subrange(start as int, j as int)),
        decreases end - j,
    {
        let ghost dv = buffer.deep_view();
        proof {
            assert(dv[j as int] == buffer@[j as int]@);
            assert(dv.subrange(start as int, j + 1) =~= dv.subrange(start as int, j as int).push(
                dv[j as int],
            ));
            lemma_concat_lines_snoc(dv.subrange(start as int, j as int), dv[j as int]);
        }
        push_str(&mut body, buffer[j].as_str());
        j = j + 1;
    }
    body
}

} // verus!
