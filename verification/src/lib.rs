//! A verified POP3-style mail-retrieval client library.
//!
//! The library covers the protocol session engine and the message-body
//! extraction logic: the line-oriented response grammar (status lines and
//! dot-terminated multi-line payloads), the MIME-style multipart
//! decomposition that locates a plain-text alternative and reverses its
//! transport encoding, the session state machine, and the per-message
//! record selection applied by the fetch orchestrator. Transport I/O,
//! argument handling and persistence live outside the library and hand it
//! plain values.

use vstd::prelude::*;

pub mod codec;
pub mod errors;
pub mod fetch;
pub mod mime;
pub mod parser;
pub mod session;
pub mod text;

verus! {

/// Configuration for one fetch run: account identifier, credential, and
/// the storage target handed to the persistence collaborator.
pub struct AppConfig {
    pub username: String,
    pub password: String,
    pub db_name: String,
}

} // verus!
