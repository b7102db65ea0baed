use xmail::models::email_provider::EmailAccount;
use xmail::models::email_provider::EmailProvider;
use xmail::services::message_parser::address_from;
use xmail::services::message_parser::extract_address;
use xmail::services::message_parser::parse_message;
use xmail::services::message_parser::parse_text;
use xmail::services::message_parser::scan_message;
use xmail::services::sync_service::EmailSyncService;

fn service() -> EmailSyncService {
    let provider = EmailProvider::get_predefined_providers().remove(0);
    let account = EmailAccount {
        id: 7,
        provider_id: 1,
        email_address: "me@home.org".to_string(),
        display_name: "Me".to_string(),
        username: "me".to_string(),
        password: "eG1haWxfc2VjcmV0X3NlY3VyZQ==".to_string(),
        is_active: true,
        last_sync: None,
        created_at: "2024-01-01T00:00:00+00:00".to_string(),
    };
    EmailSyncService::new(provider, account)
}

#[test]
fn end_to_end_message() {
    let raw = b"From: Alice <a@x.com>\nTo: Bob <b@y.com>\nSubject: Hi\n\nHello there";
    let email = service().parse_email_from_raw(raw);
    assert_eq!(email.sender, "a@x.com");
    assert_eq!(email.recipient, "b@y.com");
    assert_eq!(email.subject, "Hi");
    assert_eq!(email.body, "Hello there");
    assert_eq!(email.category, "收件箱");
    assert!(!email.is_read);
    assert!(!email.is_important);
    assert_eq!(email.id.len(), 36);
    assert_eq!(email.created_at, email.updated_at);
}

#[test]
fn bracketed_address_is_returned_exactly() {
    let s = service();
    assert_eq!(s.extract_email_address("Alice <a@x.com>"), "a@x.com");
    assert_eq!(s.extract_email_address("<  spaced@x.com >"), "  spaced@x.com ");
    assert_eq!(s.extract_email_address("\"A <B>\" <c@d.ee>"), "B");
    assert_eq!(s.extract_email_address("x <not an address> y"), "not an address");
    assert_eq!(s.extract_email_address("<>"), "");
}

#[test]
fn closing_bracket_is_sought_after_the_opening_one() {
    assert_eq!(extract_address("a > b <c@d.ee>"), "c@d.ee");
    assert_eq!(extract_address("> mail me at c@d.ee <"), "c@d.ee");
}

#[test]
fn address_shaped_part_is_found_without_brackets() {
    assert_eq!(extract_address("write to bob.smith+tag@mail.example.com today"), "bob.smith+tag@mail.example.com");
    assert_eq!(extract_address("  a@b.cd  "), "a@b.cd");
    assert_eq!(extract_address("first@x.org, second@y.org"), "first@x.org");
    assert_eq!(extract_address("only < here a@b.cd"), "a@b.cd");
}

#[test]
fn value_without_address_is_trimmed() {
    assert_eq!(extract_address("  undisclosed recipients \t"), "undisclosed recipients");
    assert_eq!(extract_address("a@b.c"), "a@b.c");
    assert_eq!(extract_address(""), "");
    assert_eq!(extract_address("\u{3000}宛先\u{2003}"), "宛先");
}

#[test]
fn address_from_uses_the_given_match() {
    assert_eq!(address_from("plain text", Some("x@y.zz".to_string())), "x@y.zz");
    assert_eq!(address_from("Name <in@side.org>", Some("x@y.zz".to_string())), "in@side.org");
    assert_eq!(address_from("  plain text ", None), "plain text");
}

#[test]
fn headers_followed_by_end_of_input_give_an_empty_body() {
    let email = parse_message(b"From: a@x.com\nSubject: S", "me@home.org");
    assert_eq!(email.body, "");
    assert_eq!(email.subject, "S");
    let email = parse_message(b"From: a@x.com\nSubject: S\n", "me@home.org");
    assert_eq!(email.body, "");
    let email = parse_message(b"From: a@x.com\nSubject: S\n\n", "me@home.org");
    assert_eq!(email.body, "");
    let email = parse_message(b"", "me@home.org");
    assert_eq!(email.body, "");
    assert_eq!(email.sender, "");
    assert_eq!(email.subject, "");
    assert_eq!(email.recipient, "me@home.org");
}

#[test]
fn missing_recipient_defaults_to_the_account() {
    let email = service().parse_email_from_raw(b"From: a@x.com\nSubject: S\n\nbody");
    assert_eq!(email.recipient, "me@home.org");
    let email = service().parse_email_from_raw(b"From: a@x.com\nTo: <>\n\nbody");
    assert_eq!(email.recipient, "me@home.org");
    let email = service().parse_email_from_raw(b"From: a@x.com\nTo:   \n\nbody");
    assert_eq!(email.recipient, "me@home.org");
}

#[test]
fn headers_are_matched_by_exact_prefix() {
    let parts = scan_message("from: a@x.com\nFROM: b@x.com\n From: d@x.com\nTO: e@x.com\nsubject: s\nSubject : t\n\nbody");
    assert_eq!(parts.from, None);
    assert_eq!(parts.to, None);
    assert_eq!(parts.subject, None);
    assert_eq!(parts.body, "body");
}

#[test]
fn a_header_needs_no_blank_behind_its_colon() {
    let email = service().parse_email_from_raw(b"From:a@x.com\n\nB");
    assert_eq!(email.sender, "a@x.com");
    assert_eq!(email.body, "B");
    let parts = scan_message("From:c@x.com\nTo:e@x.com\nSubject:Hi\n\nbody");
    assert_eq!(parts.from, Some("c@x.com".to_string()));
    assert_eq!(parts.to, Some("e@x.com".to_string()));
    assert_eq!(parts.subject, Some("Hi".to_string()));
    let email = parse_message(b"From:Ann <a@x.com>\nTo:<b@y.com>\nSubject:Hi there\n\nB", "me@home.org");
    assert_eq!(email.sender, "a@x.com");
    assert_eq!(email.recipient, "b@y.com");
    assert_eq!(email.subject, "Hi there");
}

#[test]
fn blanks_behind_the_colon_are_no_part_of_the_value() {
    let parts = scan_message("Subject: Hi\nFrom:  \t a@x.com \nTo:\tb@y.com\n\nbody");
    assert_eq!(parts.subject, Some("Hi".to_string()));
    assert_eq!(parts.from, Some("a@x.com ".to_string()));
    assert_eq!(parts.to, Some("b@y.com".to_string()));
    let parts = scan_message("Subject:\nFrom: \nTo:\u{a0}x\n\nbody");
    assert_eq!(parts.subject, Some("".to_string()));
    assert_eq!(parts.from, Some("".to_string()));
    assert_eq!(parts.to, Some("\u{a0}x".to_string()));
    let parts = scan_message("Subject: a: b  c \n\n");
    assert_eq!(parts.subject, Some("a: b  c ".to_string()));
}

#[test]
fn a_repeated_header_replaces_the_earlier_one() {
    let parts = scan_message("From: one\nFrom: two\nSubject: a\nSubject: b\n\nFrom: three");
    assert_eq!(parts.from, Some("two".to_string()));
    assert_eq!(parts.subject, Some("b".to_string()));
    assert_eq!(parts.body, "From: three");
}

#[test]
fn body_lines_are_joined_by_line_feeds() {
    let parts = scan_message("Subject: s\r\n\r\nline one\r\nline two\r\n\r\nline four\r\n");
    assert_eq!(parts.subject, Some("s".to_string()));
    assert_eq!(parts.body, "line one\nline two\n\nline four");
    let parts = scan_message("\nonly body\n");
    assert_eq!(parts.body, "only body");
    assert_eq!(parts.from, None);
    let parts = scan_message("Subject: s\n\na\rb\r");
    assert_eq!(parts.body, "a\rb\r");
}

#[test]
fn scanning_agrees_with_std_lines() {
    let texts = [
        "",
        "\n",
        "\r\n",
        "a",
        "a\n",
        "a\r\n\r\nb",
        "H: 1\n\nx\n\ny\n",
        "H: 1\r\n\r\n\r\n",
        "\n\n\n",
        "H\r\r\n\nb\r",
    ];
    for text in texts {
        let lines: Vec<&str> = text.lines().collect();
        let blank = lines.iter().position(|l| l.is_empty());
        let expected = match blank {
            Some(i) => lines[i + 1..].join("\n"),
            None => String::new(),
        };
        assert_eq!(scan_message(text).body, expected);
    }
}

#[test]
fn undecodable_bytes_are_replaced() {
    let email = parse_message(b"Subject: caf\xff\n\nbody \xc3\xa9 \xe2\x82", "me@home.org");
    assert_eq!(email.subject, "caf\u{fffd}");
    assert_eq!(email.body, "body \u{e9} \u{fffd}");
}

#[test]
fn parse_text_keeps_the_subject_behind_the_blanks() {
    let email = parse_text("Subject:   spaced  \nTo: Team <team@x.org>\n\nb", "me@home.org");
    assert_eq!(email.subject, "spaced  ");
    assert_eq!(email.recipient, "team@x.org");
    assert_eq!(email.sender, "");
}
