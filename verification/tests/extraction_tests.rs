use pop3fetch::errors::{ExtractionError, FetchError};
use pop3fetch::session::POP3Client;
use pop3fetch::AppConfig;

fn config() -> AppConfig {
    AppConfig {
        username: String::from("user"),
        password: String::from("pass"),
        db_name: String::from("mails.db"),
    }
}

fn client() -> POP3Client {
    POP3Client::new(config())
}

fn lines(v: &[&str]) -> Vec<String> {
    v.iter().map(|s| String::from(*s)).collect()
}

#[test]
fn multipart_message_prefers_the_plain_text_alternative() {
    let msg = lines(&[
        "Content-Type: multipart/alternative; boundary=\"b1\"",
        "--b1",
        "Content-Type: text/plain",
        "Content-Transfer-Encoding: 7bit",
        "hello",
        "--b1",
        "Content-Type: text/html",
        "Content-Transfer-Encoding: base64",
        "aGk=",
        "--b1--",
    ]);
    let body = client().try_parsing_email_body(&msg, None).unwrap();
    assert!(body.is_plain_text);
    assert_eq!(body.raw_body, "hello");
}

#[test]
fn multipart_base64_plain_part_is_decoded() {
    let msg = lines(&[
        "Content-Type: multipart/alternative; boundary=\"zz\"",
        "--zz",
        "Content-Type: text/plain",
        "Content-Transfer-Encoding: base64",
        "aGVsbG8=",
        "--zz--",
    ]);
    let body = client().try_parsing_email_body(&msg, None).unwrap();
    assert!(body.is_plain_text);
    assert_eq!(body.raw_body, "hello");
}

#[test]
fn flat_message_body_follows_the_lookahead_line() {
    let msg = lines(&["Subject: x", "blank line marker", "world"]);
    let hint = String::from("blank line marker");
    let body = client().try_parsing_email_body(&msg, Some(&hint)).unwrap();
    assert!(body.is_plain_text);
    assert_eq!(body.raw_body, "world");
}

#[test]
fn flat_message_body_concatenates_lines_without_separator() {
    let msg = lines(&["Subject: x", "mark", "wor", "ld"]);
    let hint = String::from("mark");
    let body = client().try_parsing_email_body(&msg, Some(&hint)).unwrap();
    assert_eq!(body.raw_body, "world");
}

#[test]
fn flat_message_without_hint_has_no_body() {
    let msg = lines(&["Subject: x", "world"]);
    let r = client().try_parsing_email_body(&msg, None);
    assert!(matches!(r, Err(ExtractionError::BodyNotFound)));
}

#[test]
fn flat_message_with_unmatched_hint_has_no_body() {
    let msg = lines(&["Subject: x", "world"]);
    let hint = String::from("not present");
    let r = client().try_parsing_email_body(&msg, Some(&hint));
    assert!(matches!(r, Err(ExtractionError::BodyNotFound)));
}

#[test]
fn multipart_without_boundary_declaration_fails() {
    let msg = lines(&["Content-Type: multipart/alternative", "some line"]);
    let r = client().try_parsing_email_body(&msg, None);
    assert!(matches!(r, Err(ExtractionError::MissingBoundary)));
}

#[test]
fn multipart_without_plain_text_alternative_fails() {
    let msg = lines(&[
        "Content-Type: multipart/alternative; boundary=\"b2\"",
        "--b2",
        "Content-Type: text/html",
        "Content-Transfer-Encoding: 7bit",
        "<b>hi</b>",
        "--b2--",
    ]);
    let r = client().try_parsing_email_body(&msg, None);
    assert!(matches!(r, Err(ExtractionError::NoPlainTextAlternative)));
}

#[test]
fn multipart_part_too_short_for_its_headers_fails() {
    let msg = lines(&[
        "Content-Type: multipart/alternative; boundary=\"q\"",
        "--q",
        "--q",
        "--q--",
    ]);
    let r = client().try_parsing_email_body(&msg, None);
    assert!(matches!(r, Err(ExtractionError::MalformedPart)));
}

#[test]
fn multipart_undecodable_base64_part_fails() {
    let msg = lines(&[
        "Content-Type: multipart/alternative; boundary=\"b3\"",
        "--b3",
        "Content-Type: text/plain",
        "Content-Transfer-Encoding: base64",
        "!!!",
        "--b3--",
    ]);
    let r = client().try_parsing_email_body(&msg, None);
    assert!(matches!(r, Err(ExtractionError::Encoding)));
}

#[test]
fn message_without_subject_header_fails() {
    let msg = lines(&["From: a@b", "Date: Mon", "mark", "body"]);
    let hint = String::from("mark");
    let r = client().process_message(&msg, Some(&hint), "DevOps");
    assert!(matches!(r, Err(FetchError::MissingHeader)));
}

#[test]
fn duplicate_headers_use_the_last_occurrence() {
    let msg = lines(&[
        "Subject: first",
        "Subject: DevOps second",
        "From: a@b",
        "Date: Mon",
        "mark",
        "body",
    ]);
    let hint = String::from("mark");
    let rec = client().process_message(&msg, Some(&hint), "DevOps").unwrap().unwrap();
    assert_eq!(rec.subject, "DevOps second");
}

#[test]
fn filter_matches_on_body_alone() {
    let msg = lines(&["Subject: plain", "From: a@b", "Date: Mon", "mark", "about DevOps things"]);
    let hint = String::from("mark");
    let rec = client().process_message(&msg, Some(&hint), "DevOps").unwrap();
    assert!(rec.is_some());
}

#[test]
fn filter_is_case_sensitive() {
    let msg = lines(&["Subject: devops", "From: a@b", "Date: Mon", "mark", "devops body"]);
    let hint = String::from("mark");
    let rec = client().process_message(&msg, Some(&hint), "DevOps").unwrap();
    assert!(rec.is_none());
}

#[test]
fn two_message_mailbox_yields_one_devops_record() {
    let mut c = POP3Client::new(config());
    c.greet(&line_bytes("+OK ready")).unwrap();
    c.send_command("USER", Some("user"), &vec![line_bytes("+OK send pass")]).unwrap();
    c.send_command("PASS", Some("pass"), &vec![line_bytes("+OK logged in")]).unwrap();

    let stat = c.send_command("STAT", None, &vec![line_bytes("+OK 2 messages")]).unwrap();
    let count = pop3fetch::fetch::parse_stat_count(&stat[0]).unwrap();
    assert_eq!(count, 2);

    let message_one = [
        "+OK message follows",
        "Subject: DevOps update",
        "From: alice@example.com",
        "Date: Mon, 1 Jan",
        "Content-Type: multipart/alternative; boundary=\"m1\"",
        "--m1",
        "Content-Type: text/plain",
        "Content-Transfer-Encoding: 7bit",
        "release went fine",
        "--m1--",
    ];
    let message_two = [
        "+OK message follows",
        "Subject: lunch",
        "From: bob@example.com",
        "Date: Tue, 2 Jan",
        "Content-Type: multipart/alternative; boundary=\"m2\"",
        "--m2",
        "Content-Type: text/plain",
        "Content-Transfer-Encoding: 7bit",
        "sandwiches at noon",
        "--m2--",
    ];
    let mut records = Vec::new();
    for number in 1..=count {
        let source: &[&str] = if number == 1 { &message_one } else { &message_two };
        let mut raw: Vec<Vec<u8>> = source.iter().map(|s| line_bytes(s)).collect();
        raw.push(line_bytes("."));
        let number_text = format!("{}", number);
        let lines = c.send_command("RETR", Some(&number_text), &raw).unwrap();
        if let Some(record) = c.process_message(&lines, None, "DevOps").unwrap() {
            records.push(record);
        }
    }
    c.quit().unwrap();

    assert_eq!(records.len(), 1);
    assert_eq!(records[0].subject, "DevOps update");
    assert_eq!(records[0].from, "alice@example.com");
    assert_eq!(records[0].date_received, "Mon, 1 Jan");
}

fn line_bytes(s: &str) -> Vec<u8> {
    let mut v = s.as_bytes().to_vec();
    v.push(0x0d);
    v.push(0x0a);
    v
}
