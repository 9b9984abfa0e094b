//! Error taxonomy: grammar-level protocol errors, body-extraction errors,
//! session-engine errors, and per-message fetch errors.

use vstd::prelude::*;

verus! {

/// A failure while decoding a protocol response.
#[derive(Debug, Clone, PartialEq, Eq)]
pub enum ProtocolError {
    /// The status line does not match `("+OK" | "-ERR") SP statustext`.
    MalformedStatusLine,
    /// The server answered with a negative status; carries the status text
    /// verbatim.
    NegativeStatus(String),
    /// A line is not valid text.
    Encoding,
    /// A multi-line payload ended without the lone-dot terminator line.
    UnterminatedResponse,
}

/// A failure while extracting a message body.
#[derive(Debug, Clone, PartialEq, Eq)]
pub enum ExtractionError {
    /// A declared-multipart message has no `boundary="..."` header.
    MissingBoundary,
    /// No part of a multipart message is flagged plain-text.
    NoPlainTextAlternative,
    /// The body-start lookahead line does not occur in a flat message.
    BodyNotFound,
    /// A bounded part is too short to hold its content-type line, its
    /// encoding line and a body.
    MalformedPart,
    /// A base64 or text decoding step failed.
    Encoding,
}

/// A failure of one command/response exchange.
#[derive(Debug, Clone, PartialEq, Eq)]
pub enum EngineError {
    /// The command is not valid in the session's current state.
    StateViolation,
    /// The response could not be decoded, or was negative.
    Protocol(ProtocolError),
}

/// A failure while processing one retrieved message.
#[derive(Debug, Clone, PartialEq, Eq)]
pub enum FetchError {
    /// A required header line (`Subject:`, `From:` or `Date:`) is absent.
    MissingHeader,
    /// The message count could not be read from the STAT status text.
    MissingCount,
    /// A header value is not valid text.
    Encoding,
    /// The message body could not be extracted.
    Extraction(ExtractionError),
}

} // verus!
