//! The protocol session engine: a state machine over
//! `Begin → Authorization → Transaction → End`, with a total transition
//! function checked before any command is exchanged. The transport itself
//! (the encrypted byte stream) lives outside the library; callers write the
//! command line, read the raw response lines, and hand them in.

use vstd::prelude::*;
use crate::AppConfig;
use crate::errors::{EngineError, ProtocolError};
use crate::parser::{
    decode_status_line, decode_multiline_from, parse_to_utf8_without_crlf, line_content,
    spec_decode_status_line, spec_decode_multiline, lemma_status_ok_line_content, Status,
};
use crate::text::str_eq;

verus! {

/// The session states.
#[derive(Debug, Clone, Copy, PartialEq, Eq, Structural)]
pub enum POP3State {
    Begin,
    Authorization,
    Transaction,
    End,
}

/// Commands that are only valid in the `Transaction` state.
pub open spec fn requires_transaction(cmd: Seq<char>) -> bool {
    cmd == "STAT"@ || cmd == "LIST"@ || cmd == "UIDL"@ || cmd == "RETR"@ || cmd == "TOP"@
}

/// The authentication commands, valid only in the `Authorization` state.
pub open spec fn is_auth_command(cmd: Seq<char>) -> bool {
    cmd == "USER"@ || cmd == "PASS"@
}

/// The termination command.
pub open spec fn is_quit(cmd: Seq<char>) -> bool {
    cmd == "QUIT"@
}

/// Which command/state pairs the state machine admits.
pub open spec fn state_allows(state: POP3State, cmd: Seq<char>) -> bool {
    if is_auth_command(cmd) {
        state is Authorization
    } else if requires_transaction(cmd) {
        state is Transaction
    } else if is_quit(cmd) {
        state is Authorization || state is Transaction
    } else {
        !(state is End)
    }
}

/// The state after a successful exchange: a positive `PASS` completes
/// authentication; `QUIT` ends the session; no other command moves it.
pub open spec fn next_state(state: POP3State, cmd: Seq<char>) -> POP3State {
    if cmd == "PASS"@ && state is Authorization {
        POP3State::Transaction
    } else if is_quit(cmd) {
        POP3State::End
    } else {
        state
    }
}

/// Whether a command's response is multi-line: `LIST` and `UIDL` only
/// without a parameter, `RETR` and `TOP` always, all others never.
pub open spec fn spec_is_multiline(cmd: Seq<char>, has_param: bool) -> bool {
    if cmd == "LIST"@ || cmd == "UIDL"@ {
        !has_param
    } else {
        cmd == "RETR"@ || cmd == "TOP"@
    }
}

/// Law: in the `Begin` state, a command that requires the `Transaction`
/// state is refused by the state machine rather than sent.
pub proof fn lemma_begin_refuses_transaction_commands(cmd: Seq<char>)
    requires
        requires_transaction(cmd),
    ensures
        !state_allows(POP3State::Begin, cmd),
{
    reveal_strlit("USER");
    reveal_strlit("PASS");
    reveal_strlit("STAT");
    reveal_strlit("LIST");
    reveal_strlit("UIDL");
    reveal_strlit("RETR");
    reveal_strlit("TOP");
}

/// Decides multi-line expectation from the command verb alone.
pub fn is_multiline_command(command: &str, has_param: bool) -> (r: bool)
    ensures
        r == spec_is_multiline(command@, has_param),
{
    if str_eq(command, "LIST") || str_eq(command, "UIDL") {
        !has_param
    } else {
        str_eq(command, "RETR") || str_eq(command, "TOP")
    }
}

/// Is the command admitted in this state?
fn check_state(state: POP3State, command: &str) -> (r: bool)
    ensures
        r == state_allows(state, command@),
{
    if str_eq(command, "USER") || str_eq(command, "PASS") {
        matches!(state, POP3State::Authorization)
    } else if str_eq(command, "STAT") || str_eq(command, "LIST") || str_eq(command, "UIDL")
        || str_eq(command, "RETR") || str_eq(command, "TOP") {
        matches!(state, POP3State::Transaction)
    } else if str_eq(command, "QUIT") {
        matches!(state, POP3State::Authorization) || matches!(state, POP3State::Transaction)
    } else {
        !matches!(state, POP3State::End)
    }
}

/// One protocol session: the authentication/transaction state and the
/// account configuration. The session owns its state for its whole
/// lifetime; every exchange goes through `send_command`.
pub struct POP3Client {
    pub config: AppConfig,
    pub state: POP3State,
}

impl POP3Client {
    /// A fresh session, before the server greeting.
    pub fn new(config: AppConfig) -> (r: POP3Client)
        ensures
            r.state is Begin,
            r.config == config,
    {
        POP3Client { config, state: POP3State::Begin }
    }

    /// Consumes the server greeting line: a positive status moves the
    /// session from `Begin` to `Authorization` and yields the status text;
    /// anything else leaves the session where it was.
    pub fn greet(&mut self, line: &Vec<u8>) -> (r: Result<String, EngineError>)
        ensures
            final(self).config == old(self).config,
            !(old(self).state is Begin) ==> *final(self) == *old(self) && (r matches Err(e) && e
                is StateViolation),
            old(self).state is Begin ==> match r {
                Ok(text) => spec_decode_status_line(line@) matches Ok(p) && p.0 is Positive && p.1
                    == text@ && final(self).state is Authorization,
                Err(e) => *final(self) == *old(self) && match spec_decode_status_line(line@) {
                    Ok(p) => p.0 is Negative && (e matches EngineError::Protocol(
                        ProtocolError::NegativeStatus(t),
                    ) && t@ == p.1),
                    Err(pe) => e == EngineError::Protocol(pe),
                },
            },
    {
        if !matches!(self.state, POP3State::Begin) {
            return Err(EngineError::StateViolation);
        }
        match decode_status_line(line) {
            Ok(resp) => match resp.status {
                Status::Positive => {
                    self.state = POP3State::Authorization;
                    Ok(resp.text)
                },
                Status::Negative => Err(
                    EngineError::Protocol(ProtocolError::NegativeStatus(resp.text)),
                ),
            },
            Err(e) => Err(EngineError::Protocol(e)),
        }
    }

    /// Processes one command exchange against the raw response lines read
    /// from the transport. The state machine is checked before anything
    /// else; a refused command/state pair is a contract violation and
    /// nothing is consumed. On a positive response the result holds the
    /// decoded status line first, then, for multi-line commands, the
    /// content lines; the session moves to `next_state`.
    pub fn send_command(&mut self, command: &str, param: Option<&str>, raw: &Vec<Vec<u8>>) -> (r:
        Result<Vec<String>, EngineError>)
        ensures
            final(self).config == old(self).config,
            !state_allows(old(self).state, command@) ==> *final(self) == *old(self) && (
            r matches Err(e) && e is StateViolation),
            state_allows(old(self).state, command@) ==> ({
                if raw@.len() == 0 {
                    *final(self) == *old(self) && r == Err::<Vec<String>, EngineError>(
                        EngineError::Protocol(ProtocolError::MalformedStatusLine),
                    )
                } else {
                    match spec_decode_status_line(raw.deep_view()[0]) {
                        Err(pe) => *final(self) == *old(self) && r == Err::<Vec<String>, EngineError>(
                            EngineError::Protocol(pe),
                        ),
                        Ok(p) => {
                            if p.0 is Negative {
                                *final(self) == *old(self) && (r matches Err(
                                    EngineError::Protocol(ProtocolError::NegativeStatus(t)),
                                ) && t@ == p.1)
                            } else if spec_is_multiline(command@, param is Some) {
                                match spec_decode_multiline(raw.deep_view().skip(1)) {
                                    Err(pe) => *final(self) == *old(self) && r == Err::<
                                        Vec<String>,
                                        EngineError,
                                    >(EngineError::Protocol(pe)),
                                    Ok(q) => final(self).state == next_state(
                                        old(self).state,
                                        command@,
                                    ) && (r matches Ok(out) && out.deep_view() == seq![
                                        line_content(raw.deep_view()[0]).unwrap(),
                                    ] + q.0),
                                }
                            } else {
                                final(self).state == next_state(old(self).state, command@) && (
                                r matches Ok(out) && out.deep_view() == seq![
                                    line_content(raw.deep_view()[0]).unwrap(),
                                ])
                            }
                        },
                    }
                }
            }),
    {
        if !check_state(self.state, command) {
            return Err(EngineError::StateViolation);
        }
        if raw.len() == 0 {
            return Err(EngineError::Protocol(ProtocolError::MalformedStatusLine));
        }
        let status_line = &raw[0];
        proof {
            assert(raw.deep_view()[0] == status_line@);
        }
        let resp = match decode_status_line(status_line) {
            Ok(resp) => resp,
            Err(e) => {
                return Err(EngineError::Protocol(e));
            },
        };
        if matches!(resp.status, Status::Negative) {
            return Err(EngineError::Protocol(ProtocolError::NegativeStatus(resp.text)));
        }
        proof {
            lemma_status_ok_line_content(status_line@);
        }
        let full0 = match parse_to_utf8_without_crlf(status_line) {
            Ok(s) => s,
            Err(_) => {
                proof {
                    assert(false);
                }
                return Err(EngineError::Protocol(ProtocolError::Encoding));
            },
        };
        let mut out: Vec<String> = Vec::new();
        if is_multiline_command(command, param.is_some()) {
            let (mut content, _used) = match decode_multiline_from(raw, 1) {
                Ok(pair) => pair,
                Err(e) => {
                    return Err(EngineError::Protocol(e));
                },
            };
            let ghost content_view = content.deep_view();
            out.push(full0);
            out.append(&mut content);
            proof {
                assert(out.deep_view() =~~= seq![line_content(raw.deep_view()[0]).unwrap()]
                    + content_view);
            }
        } else {
            out.push(full0);
            proof {
                assert(out.deep_view() =~~= seq![line_content(raw.deep_view()[0]).unwrap()]);
            }
        }
        if str_eq(command, "PASS") && matches!(self.state, POP3State::Authorization) {
            self.state = POP3State::Transaction;
        } else if str_eq(command, "QUIT") {
            self.state = POP3State::End;
        }
        Ok(out)
    }

    /// Terminates the session: valid only from `Authorization` or
    /// `Transaction`; moves the state to `End` whatever the server answers
    /// to `QUIT`. The caller releases the transport afterwards.
    pub fn quit(&mut self) -> (r: Result<(), EngineError>)
        ensures
            final(self).config == old(self).config,
            (old(self).state is Authorization || old(self).state is Transaction)
                ==> final(self).state is End && r is Ok,
            !(old(self).state is Authorization || old(self).state is Transaction)
                ==> *final(self) == *old(self) && (r matches Err(e) && e is StateViolation),
    {
        let terminable = matches!(self.state, POP3State::Authorization)
            || matches!(self.state, POP3State::Transaction);
        if terminable {
            self.state = POP3State::End;
            Ok(())
        } else {
            Err(EngineError::StateViolation)
        }
    }
}

} // verus!
