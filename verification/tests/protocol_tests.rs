use pop3fetch::codec::{base64_round_trip, decode_base64_body, encode_base64_payload};
use pop3fetch::errors::{EngineError, ExtractionError, ProtocolError};
use pop3fetch::fetch::{header_value, parse_stat_count};
use pop3fetch::parser::{decode_multiline, decode_status_line, parse_to_utf8_without_crlf, Status};
use pop3fetch::session::{is_multiline_command, POP3Client, POP3State};
use pop3fetch::AppConfig;

fn line(s: &str) -> Vec<u8> {
    let mut v = s.as_bytes().to_vec();
    v.push(0x0d);
    v.push(0x0a);
    v
}

fn config() -> AppConfig {
    AppConfig {
        username: String::from("user"),
        password: String::from("pass"),
        db_name: String::from("mails.db"),
    }
}

fn client_in_transaction() -> POP3Client {
    let mut c = POP3Client::new(config());
    c.greet(&line("+OK ready")).unwrap();
    c.send_command("USER", Some("user"), &vec![line("+OK send pass")]).unwrap();
    c.send_command("PASS", Some("pass"), &vec![line("+OK logged in")]).unwrap();
    c
}

#[test]
fn parse_to_utf8_without_clrf__with_proper_vector__returns_correctly_parsed_string() {
    let utf8_vector = vec![0x68, 0x6f, 0x6c, 0x61, 0x0d, 0x0a];
    let correct_result_as_string = String::from("hola");
    assert_eq!(parse_to_utf8_without_crlf(&utf8_vector).unwrap(), correct_result_as_string)
}

#[test]
fn parse_to_utf8_without_crlf_rejects_bad_utf8() {
    let utf8_vector = vec![0xff, 0xff, 0x0d, 0x0a];
    assert!(matches!(
        parse_to_utf8_without_crlf(&utf8_vector),
        Err(ProtocolError::Encoding)
    ));
}

#[test]
fn parse_to_utf8_without_crlf_rejects_short_input() {
    let utf8_vector: Vec<u8> = vec![];
    assert!(parse_to_utf8_without_crlf(&utf8_vector).is_err());
}

#[test]
fn status_line_positive_token_gives_positive_status() {
    let r = decode_status_line(&line("+OK 2 messages")).unwrap();
    assert!(matches!(r.status, Status::Positive));
    assert_eq!(r.text, "2 messages");
    assert!(r.lines.is_empty());
}

#[test]
fn status_line_negative_token_gives_negative_status() {
    let r = decode_status_line(&line("-ERR no mailbox")).unwrap();
    assert!(matches!(r.status, Status::Negative));
    assert_eq!(r.text, "no mailbox");
}

#[test]
fn status_line_without_token_is_malformed() {
    assert!(matches!(
        decode_status_line(&line("HELLO there")),
        Err(ProtocolError::MalformedStatusLine)
    ));
    assert!(matches!(
        decode_status_line(&line("+OK")),
        Err(ProtocolError::MalformedStatusLine)
    ));
}

#[test]
fn status_line_with_invalid_text_is_encoding_error() {
    let raw = vec![0x2b, 0x4f, 0x4b, 0x20, 0xff, 0x0d, 0x0a];
    assert!(matches!(decode_status_line(&raw), Err(ProtocolError::Encoding)));
}

#[test]
fn multiline_returns_content_lines_and_stops_at_terminator() {
    let raw = vec![line("abc"), line("..stuffed"), line("."), line("beyond")];
    let (content, used) = decode_multiline(&raw).unwrap();
    assert_eq!(content, vec![String::from("abc"), String::from("..stuffed")]);
    assert_eq!(used, 3);
}

#[test]
fn multiline_decoding_is_idempotent() {
    let raw_one = vec![line("x"), line("y"), line(".")];
    let raw_two = vec![line("x"), line("y"), line(".")];
    let a = decode_multiline(&raw_one).unwrap();
    let b = decode_multiline(&raw_two).unwrap();
    assert_eq!(a.0, b.0);
    assert_eq!(a.1, b.1);
}

#[test]
fn multiline_without_terminator_fails() {
    let raw = vec![line("abc"), line("def")];
    assert!(matches!(
        decode_multiline(&raw),
        Err(ProtocolError::UnterminatedResponse)
    ));
}

#[test]
fn multiline_with_invalid_text_fails() {
    let raw = vec![vec![0xff, 0xfe, 0x0d, 0x0a], line(".")];
    assert!(matches!(decode_multiline(&raw), Err(ProtocolError::Encoding)));
}

#[test]
fn base64_round_trip_returns_payload_exactly() {
    let payload: Vec<u8> = vec![0, 1, 2, 3, 254, 255, 128, 64];
    assert_eq!(base64_round_trip(&payload), payload);
}

#[test]
fn base64_decode_of_known_value() {
    assert_eq!(decode_base64_body(b"aGVsbG8=").unwrap(), b"hello".to_vec());
}

#[test]
fn base64_encode_of_known_value() {
    assert_eq!(encode_base64_payload(b"hello"), "aGVsbG8=");
}

#[test]
fn base64_decode_rejects_garbage() {
    assert!(matches!(
        decode_base64_body(b"!!!"),
        Err(ExtractionError::Encoding)
    ));
}

#[test]
fn transaction_command_in_begin_state_is_refused() {
    let mut c = POP3Client::new(config());
    assert_eq!(c.state, POP3State::Begin);
    let r = c.send_command("STAT", None, &vec![line("+OK 0 0")]);
    assert!(matches!(r, Err(EngineError::StateViolation)));
    let r = c.send_command("RETR", Some("1"), &vec![line("+OK follows")]);
    assert!(matches!(r, Err(EngineError::StateViolation)));
    assert_eq!(c.state, POP3State::Begin);
}

#[test]
fn greeting_moves_session_to_authorization() {
    let mut c = POP3Client::new(config());
    let text = c.greet(&line("+OK ready")).unwrap();
    assert_eq!(text, "ready");
    assert_eq!(c.state, POP3State::Authorization);
}

#[test]
fn successful_user_pass_moves_session_to_transaction() {
    let c = client_in_transaction();
    assert_eq!(c.state, POP3State::Transaction);
}

#[test]
fn quit_is_valid_from_transaction_and_ends_session() {
    let mut c = client_in_transaction();
    c.quit().unwrap();
    assert_eq!(c.state, POP3State::End);
}

#[test]
fn quit_is_refused_before_the_greeting() {
    let mut c = POP3Client::new(config());
    assert!(matches!(c.quit(), Err(EngineError::StateViolation)));
    assert_eq!(c.state, POP3State::Begin);
}

#[test]
fn negative_response_carries_status_text_verbatim() {
    let mut c = client_in_transaction();
    let r = c.send_command("STAT", None, &vec![line("-ERR maildrop locked")]);
    match r {
        Err(EngineError::Protocol(ProtocolError::NegativeStatus(t))) => {
            assert_eq!(t, "maildrop locked")
        },
        other => panic!("unexpected result: {:?}", other),
    }
}

#[test]
fn multiline_command_returns_status_line_then_content() {
    let mut c = client_in_transaction();
    let raw = vec![line("+OK message follows"), line("Subject: hi"), line("body"), line(".")];
    let r = c.send_command("RETR", Some("1"), &raw).unwrap();
    assert_eq!(
        r,
        vec![
            String::from("+OK message follows"),
            String::from("Subject: hi"),
            String::from("body"),
        ]
    );
}

#[test]
fn multiline_expectation_follows_the_verb() {
    assert!(is_multiline_command("LIST", false));
    assert!(!is_multiline_command("LIST", true));
    assert!(is_multiline_command("UIDL", false));
    assert!(is_multiline_command("RETR", true));
    assert!(is_multiline_command("TOP", true));
    assert!(!is_multiline_command("STAT", false));
    assert!(!is_multiline_command("QUIT", false));
}

#[test]
fn stat_count_reads_first_numeric_token() {
    assert_eq!(parse_stat_count("+OK 2 messages"), Some(2));
    assert_eq!(parse_stat_count("+OK 12 40713"), Some(12));
    assert_eq!(parse_stat_count("mixed9token 7 more"), Some(7));
    assert_eq!(parse_stat_count("+OK no count here"), None);
    assert_eq!(parse_stat_count(""), None);
}

#[test]
fn header_value_strips_prefix_and_leading_spaces() {
    assert_eq!(
        header_value("Subject: DevOps update", 8).unwrap(),
        "DevOps update"
    );
    assert_eq!(header_value("From:bob@example.com", 5).unwrap(), "bob@example.com");
    assert_eq!(header_value("Date:   Mon, 1 Jan", 5).unwrap(), "Mon, 1 Jan");
}
