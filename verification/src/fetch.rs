//! The fetch orchestrator's decision logic, message by message: the
//! mailbox count read from the STAT status text, the last-occurring
//! `Subject:`, `From:` and `Date:` header lines, the content filter, and
//! the record built for a message that passes it. The surrounding loop —
//! one RETR per message number, a TOP lookahead for flat messages, the
//! final QUIT and the handoff to persistence — drives these from outside
//! the library.

use vstd::prelude::*;
use vstd::utf8::{valid_utf8, decode_utf8, encode_utf8};
use crate::codec::bytes_to_string;
use crate::errors::FetchError;
use crate::mime::spec_extract;
use crate::session::POP3Client;
use crate::text::{contains_seq, is_prefix_of, contains_bytes, starts_with_bytes};

verus! {

pub const SP: u8 = 0x20;

/// The `Subject:` header prefix.
pub open spec fn subject_prefix() -> Seq<u8> {
    encode_utf8("Subject:"@)
}

/// The `From:` header prefix.
pub open spec fn from_prefix() -> Seq<u8> {
    encode_utf8("From:"@)
}

/// The `Date:` header prefix.
pub open spec fn date_prefix() -> Seq<u8> {
    encode_utf8("Date:"@)
}

/// The last line starting with the given prefix, if any.
pub open spec fn last_with_prefix(lines: Seq<Seq<char>>, p: Seq<u8>) -> Option<int>
    decreases lines.len(),
{
    if lines.len() == 0 {
        None
    } else if is_prefix_of(p, encode_utf8(lines.last())) {
        Some(lines.len() - 1)
    } else {
        last_with_prefix(lines.drop_last(), p)
    }
}

/// How many leading space bytes the sequence has.
pub open spec fn leading_spaces(s: Seq<u8>) -> int
    decreases s.len(),
{
    if s.len() == 0 || s[0] != SP {
        0int
    } else {
        1 + leading_spaces(s.skip(1))
    }
}

/// A header line's value: its bytes after the first `k` (the field-name
/// prefix), with leading spaces dropped, decoded as text.
pub open spec fn header_value_of(line: Seq<char>, k: int) -> Option<Seq<char>> {
    let rest = encode_utf8(line).skip(k);
    let trimmed = rest.skip(leading_spaces(rest));
    if valid_utf8(trimmed) {
        Some(decode_utf8(trimmed))
    } else {
        None
    }
}

/// Is the byte a decimal digit?
pub open spec fn is_digit(b: u8) -> bool {
    0x30 <= b <= 0x39
}

/// The value of a sequence of decimal digits.
pub open spec fn digits_value(s: Seq<u8>) -> int
    decreases s.len(),
{
    if s.len() == 0 {
        0int
    } else {
        digits_value(s.drop_last()) * 10 + (s.last() - 0x30)
    }
}

/// Ten to the `n`.
pub open spec fn pow10(n: nat) -> int
    decreases n,
{
    if n == 0 {
        1int
    } else {
        10 * pow10((n - 1) as nat)
    }
}

/// A digit sequence's value is below ten to its length.
proof fn lemma_digits_value_bound(s: Seq<u8>)
    requires
        forall|k: int| 0 <= k < s.len() ==> is_digit(#[trigger] s[k]),
    ensures
        0 <= digits_value(s) < pow10(s.len() as nat),
    decreases s.len(),
{
    if s.len() > 0 {
        lemma_digits_value_bound(s.drop_last());
    }
}

/// A numeric token of the status text: a maximal space-free run, wholly
/// made of digits, of at most nineteen digits (so that its value has a
/// machine representation).
pub open spec fn is_numeric_token_at(s: Seq<u8>, i: int, j: int) -> bool {
    &&& 0 <= i < j <= s.len()
    &&& j - i <= 19
    &&& (i == 0 || s[i - 1] == SP)
    &&& (j == s.len() || s[j] == SP)
    &&& forall|k: int| i <= k < j ==> is_digit(#[trigger] s[k])
}

/// Does a numeric token start at `i`?
pub open spec fn numeric_token_starts_at(s: Seq<u8>, i: int) -> bool {
    exists|j: int| is_numeric_token_at(s, i, j)
}

/// Reads the mailbox size from a STAT status text: the value of the first
/// whitespace-delimited numeric token. A run holding a non-digit, or
/// longer than nineteen digits, is not a numeric token.
#[verifier::loop_isolation(false)]
pub fn parse_stat_count(status: &str) -> (r: Option<u64>)
    ensures
        match r {
            Some(v) => exists|i: int, j: int|
                is_numeric_token_at(encode_utf8(status@), i, j) && digits_value(
                    encode_utf8(status@).subrange(i, j),
                ) == v as int && (forall|i2: int|
                    0 <= i2 < i ==> !numeric_token_starts_at(encode_utf8(status@), i2)),
            None => forall|i: int| !numeric_token_starts_at(encode_utf8(status@), i),
        },
{
    let b = status.as_bytes();
    let n = b.len();
    let ghost bs = b@;
    let mut i: usize = 0;
    while i < n
        invariant
            0 <= i <= n,
            n == bs.len(),
            bs == b@,
            forall|i2: int| 0 <= i2 < i ==> !numeric_token_starts_at(bs, i2),
        decreases n - i,
    {
        if b[i] == SP {
            proof {
                assert forall|j: int| !is_numeric_token_at(bs, i as int, j) by {}
            }
            i = i + 1;
            continue ;
        }
        // A token starts at i only if its predecessor is a space or i == 0.
        let token_start_ok = i == 0 || b[i - 1] == SP;
        // Scan the maximal space-free run [i, j).
        let mut j: usize = i;
        let mut all_digits = true;
        while j < n && b[j] != SP
            invariant
                i <= j <= n,
                n == bs.len(),
                bs == b@,
                forall|k: int| i <= k < j ==> bs[k] != SP,
                all_digits == (forall|k: int| i <= k < j ==> is_digit(#[trigger] bs[k])),
            decreases n - j,
        {
            let good = b[j] >= 0x30 && b[j] <= 0x39;
            proof {
                if all_digits && good {
                    assert(forall|k: int| i <= k < j + 1 ==> is_digit(#[trigger] bs[k]));
                }
            }
            all_digits = all_digits && good;
            j = j + 1;
        }
        if token_start_ok && all_digits && j - i <= 19 {
            // The first numeric token: parse its digits.
            proof {
                assert(is_numeric_token_at(bs, i as int, j as int));
            }
            let mut v: u64 = 0;
            let mut k: usize = i;
            while k < j
                invariant
                    i <= k <= j <= n,
                    n == bs.len(),
                    bs == b@,
                    j - i <= 19,
                    forall|m: int| i <= m < j ==> is_digit(#[trigger] bs[m]),
                    v as int == digits_value(bs.subrange(i as int, k as int)),
                    (v as int) < pow10((k - i) as nat),
                decreases j - k,
            {
                proof {
                    assert(bs.subrange(i as int, k + 1).drop_last() =~= bs.subrange(
                        i as int,
                        k as int,
                    ));
                    assert(bs.subrange(i as int, k + 1).last() == bs[k as int]);
                    lemma_digits_value_bound(bs.subrange(i as int, k + 1));
                    assert(pow10(19) == 10000000000000000000) by {
                        reveal_with_fuel(pow10, 20);
                    }
                    assert(pow10((k + 1 - i) as nat) <= pow10(19)) by {
                        lemma_pow10_monotone((k + 1 - i) as nat, 19);
                    }
                }
                v = v * 10 + ((b[k] - 0x30) as u64);
                k = k + 1;
            }
            proof {
                assert(bs == encode_utf8(status@));
                assert(bs.subrange(i as int, j as int) =~= bs.subrange(i as int, k as int));
                assert(is_numeric_token_at(encode_utf8(status@), i as int, j as int));
                assert(digits_value(encode_utf8(status@).subrange(i as int, j as int)) == v as int);
            }
            return Some(v);
        }
        // Not a numeric token: no token can start inside (i, j], and the
        // run [i, j) itself is not numeric.
        proof {
            assert forall|i2: int, j2: int| i <= i2 <= j && 0 <= i2 implies !is_numeric_token_at(
                bs,
                i2,
                j2,
            ) by {
                if is_numeric_token_at(bs, i2, j2) {
                    if i2 > i {
                        assert(bs[i2 - 1] != SP);
                    } else {
                        // i2 == i: the token must end exactly at j.
                        if j2 < j {
                            assert(bs[j2] != SP);
                        }
                        if j2 > j {
                            if (j as int) < n {
                                assert(bs[j as int] == SP);
                                assert(is_digit(bs[j as int]));
                            }
                        }
                        // j2 == j: refused above, by digits or length.
                    }
                }
            }
        }
        i = j;
    }
    proof {
        assert forall|i2: int| !numeric_token_starts_at(bs, i2) by {
            if numeric_token_starts_at(bs, i2) {
                let j2 = choose|j2: int| is_numeric_token_at(bs, i2, j2);
                assert(0 <= i2 < n);
            }
        }
    }
    None
}

/// Ten to the `n` grows with `n`.
proof fn lemma_pow10_monotone(a: nat, b: nat)
    requires
        a <= b,
    ensures
        pow10(a) <= pow10(b),
        pow10(a) >= 1,
    decreases b,
{
    if a < b {
        lemma_pow10_monotone(a, (b - 1) as nat);
    } else if b > 0 {
        lemma_pow10_monotone((a - 1) as nat, (b - 1) as nat);
    }
}

/// One selected message: the header fields handed to persistence.
#[derive(Debug)]
pub struct EmailEntity {
    pub date_received: String,
    pub from: String,
    pub subject: String,
}

/// The last line of the message starting with the given prefix.
pub fn find_last_with_prefix(buffer: &Vec<String>, prefix: &str) -> (r: Option<usize>)
    ensures
        match r {
            Some(i) => last_with_prefix(buffer.deep_view(), encode_utf8(prefix@)) == Some(i as int)
                && i < buffer@.len(),
            None => last_with_prefix(buffer.deep_view(), encode_utf8(prefix@)) is None,
        },
{
    let n = buffer.len();
    let mut best: Option<usize> = None;
    let mut i: usize = 0;
    while i < n
        invariant
            0 <= i <= n,
            n == buffer@.len(),
            match best {
                Some(b) => last_with_prefix(buffer.deep_view().take(i as int), encode_utf8(
                    prefix@,
                )) == Some(b as int) && b < i,
                None => last_with_prefix(buffer.deep_view().take(i as int), encode_utf8(prefix@))
                    is None,
            },
        decreases n - i,
    {
        let ghost dv = buffer.deep_view();
        proof {
            assert(dv[i as int] == buffer@[i as int]@);
            assert(dv.take(i + 1).drop_last() =~= dv.take(i as int));
            assert(dv.take(i + 1).last() == dv[i as int]);
        }
        if starts_with_bytes(buffer[i].as_str().as_bytes(), prefix.as_bytes()) {
            best = Some(i);
        }
        i = i + 1;
    }
    proof {
        assert(buffer.deep_view().take(n as int) =~= buffer.deep_view());
    }
    best
}

/// A line whose index `last_with_prefix` returns does start with the
/// prefix.
proof fn lemma_last_with_prefix_has(lines: Seq<Seq<char>>, p: Seq<u8>)
    ensures
        last_with_prefix(lines, p) matches Some(i) ==> 0 <= i < lines.len() && is_prefix_of(
            p,
            encode_utf8(lines[i]),
        ),
    decreases lines.len(),
{
    if lines.len() > 0 && !is_prefix_of(p, encode_utf8(lines.last())) {
        lemma_last_with_prefix_has(lines.drop_last(), p);
    }
}

/// The value of one header line: its text after the first `k` bytes, with
/// leading spaces dropped.
pub fn header_value(line: &str, k: usize) -> (r: Option<String>)
    requires
        k <= encode_utf8(line@).len(),
    ensures
        match r {
            Some(s) => header_value_of(line@, k as int) == Some(s@),
            None => header_value_of(line@, k as int) is None,
        },
{
    let b = line.as_bytes();
    let n = b.len();
    let ghost bs = b@;
    let mut i: usize = k;
    proof {
        assert(bs.skip(k as int).skip(0) =~= bs.skip(k as int));
    }
    while i < n && b[i] == SP
        invariant
            k <= i <= n,
            n == bs.len(),
            bs == b@,
            leading_spaces(bs.skip(k as int)) == (i - k) + leading_spaces(bs.skip(i as int)),
            forall|m: int| k <= m < i ==> bs[m] == SP,
        decreases n - i,
    {
        proof {
            assert(bs.skip(i as int)[0] == bs[i as int]);
            assert(bs.skip(i as int).skip(1) =~= bs.skip(i + 1));
        }
        i = i + 1;
    }
    proof {
        if i < n {
            assert(bs.skip(i as int)[0] == bs[i as int]);
        }
        assert(leading_spaces(bs.skip(i as int)) == 0);
        assert(bs.skip(k as int).skip(leading_spaces(bs.skip(k as int))) =~= bs.skip(i as int));
    }
    match bytes_to_string(vstd::slice::slice_to_vec(&b[i..n])) {
        Some(s) => Some(s),
        None => None,
    }
}

/// The content filter: a case-sensitive substring test of the keyword
/// against the subject or the body; a message is kept when either side
/// matches.
pub open spec fn spec_filter(subject: Seq<char>, body: Seq<char>, keyword: Seq<char>) -> bool {
    contains_seq(encode_utf8(subject), encode_utf8(keyword)) || contains_seq(
        encode_utf8(body),
        encode_utf8(keyword),
    )
}

/// What processing one retrieved message yields: the record fields (date,
/// from, subject) of a kept message, `None` for one the filter drops, or
/// the failure.
pub open spec fn spec_process(
    lines: Seq<Seq<char>>,
    hint: Option<Seq<char>>,
    keyword: Seq<char>,
) -> Result<Option<(Seq<char>, Seq<char>, Seq<char>)>, FetchError> {
    match last_with_prefix(lines, subject_prefix()) {
        None => Err(FetchError::MissingHeader),
        Some(si) => match last_with_prefix(lines, from_prefix()) {
            None => Err(FetchError::MissingHeader),
            Some(fi) => match last_with_prefix(lines, date_prefix()) {
                None => Err(FetchError::MissingHeader),
                Some(di) => match spec_extract(lines, hint) {
                    Err(e) => Err(FetchError::Extraction(e)),
                    Ok(bp) => match (
                        header_value_of(lines[si], 8),
                        header_value_of(lines[fi], 5),
                        header_value_of(lines[di], 5),
                    ) {
                        (Some(subj), Some(frm), Some(dt)) => if spec_filter(
                            subj,
                            bp.1,
                            keyword,
                        ) {
                            Ok(Some((dt, frm, subj)))
                        } else {
                            Ok(None)
                        },
                        _ => Err(FetchError::Encoding),
                    },
                },
            },
        },
    }
}

impl POP3Client {
    /// Processes one retrieved message: takes the last-occurring
    /// `Subject:`, `From:` and `Date:` header lines, extracts the body,
    /// applies the keyword filter, and builds the record for a kept
    /// message. Each step's outcome, and every failure, is fixed by
    /// `spec_process`.
    pub fn process_message(
        &self,
        lines: &Vec<String>,
        top_hint: Option<&String>,
        keyword: &str,
    ) -> (r: Result<Option<EmailEntity>, FetchError>)
        ensures
            ({
                let hint = if top_hint is Some {
                    Some(top_hint->Some_0@)
                } else {
                    None::<Seq<char>>
                };
                let sp = spec_process(lines.deep_view(), hint, keyword@);
                match r {
                    Ok(Some(rec)) => sp == Ok::<
                        Option<(Seq<char>, Seq<char>, Seq<char>)>,
                        FetchError,
                    >(Some((rec.date_received@, rec.from@, rec.subject@))),
                    Ok(None) => sp == Ok::<Option<(Seq<char>, Seq<char>, Seq<char>)>, FetchError>(
                        None,
                    ),
                    Err(e) => sp == Err::<Option<(Seq<char>, Seq<char>, Seq<char>)>, FetchError>(
                        e,
                    ),
                }
            }),
    {
        let ghost dv = lines.deep_view();
        proof {
            reveal_strlit("Subject:");
            reveal_strlit("From:");
            reveal_strlit("Date:");
            assert(vstd::utf8::is_ascii_chars("Subject:"@));
            assert(vstd::utf8::is_ascii_chars("From:"@));
            assert(vstd::utf8::is_ascii_chars("Date:"@));
            vstd::utf8::is_ascii_chars_encode_utf8("Subject:"@);
            vstd::utf8::is_ascii_chars_encode_utf8("From:"@);
            vstd::utf8::is_ascii_chars_encode_utf8("Date:"@);
            lemma_last_with_prefix_has(dv, subject_prefix());
            lemma_last_with_prefix_has(dv, from_prefix());
            lemma_last_with_prefix_has(dv, date_prefix());
        }
        let si = match find_last_with_prefix(lines, "Subject:") {
            Some(i) => i,
            None => {
                return Err(FetchError::MissingHeader);
            },
        };
        let fi = match find_last_with_prefix(lines, "From:") {
            Some(i) => i,
            None => {
                return Err(FetchError::MissingHeader);
            },
        };
        let di = match find_last_with_prefix(lines, "Date:") {
            Some(i) => i,
            None => {
                return Err(FetchError::MissingHeader);
            },
        };
        let body = match self.try_parsing_email_body(lines, top_hint) {
            Ok(b) => b,
            Err(e) => {
                return Err(FetchError::Extraction(e));
            },
        };
        proof {
            assert(dv[si as int] == lines@[si as int]@);
            assert(dv[fi as int] == lines@[fi as int]@);
            assert(dv[di as int] == lines@[di as int]@);
        }
        let subj = match header_value(lines[si].as_str(), 8) {
            Some(s) => s,
            None => {
                return Err(FetchError::Encoding);
            },
        };
        let frm = match header_value(lines[fi].as_str(), 5) {
            Some(s) => s,
            None => {
                return Err(FetchError::Encoding);
            },
        };
        let dt = match header_value(lines[di].as_str(), 5) {
            Some(s) => s,
            None => {
                return Err(FetchError::Encoding);
            },
        };
        let keep = contains_bytes(subj.as_str().as_bytes(), keyword.as_bytes())
            || contains_bytes(body.raw_body.as_str().as_bytes(), keyword.as_bytes());
        if keep {
            Ok(Some(EmailEntity { date_received: dt, from: frm, subject: subj }))
        } else {
            Ok(None)
        }
    }
}

} // verus!
