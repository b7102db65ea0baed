use xmail::models::email::Email;
use xmail::models::email::EmailFilter;
use xmail::services::message_parser::extract_address;
use xmail::services::message_parser::parse_message;
use xmail::services::message_parser::ADDRESS_PATTERN;
use xmail::time::Timestamp;

/// The address of a header value, computed with string slices and the
/// pattern directly. It has no answer where a `>` stands before the first
/// `<`.
fn sliced_address(value: &str) -> Option<String> {
    if let Some(start) = value.find('<') {
        if let Some(end) = value.find('>') {
            if end < start {
                return None;
            }
            return Some(value[start + 1..end].to_string());
        }
    }
    let re = regex::Regex::new(ADDRESS_PATTERN).unwrap();
    if let Some(found) = re.find(value) {
        return Some(found.as_str().to_string());
    }
    Some(value.trim().to_string())
}

fn sliced_message(raw: &[u8], own: &str) -> Option<(String, String, String, String)> {
    let text = String::from_utf8_lossy(raw);
    let mut sender = String::new();
    let mut recipient = String::new();
    let mut subject = String::new();
    let mut in_body = false;
    let mut body_lines = Vec::new();
    for line in text.lines() {
        if in_body {
            body_lines.push(line);
            continue;
        }
        if line.is_empty() {
            in_body = true;
            continue;
        }
        if let Some(rest) = line.strip_prefix("From:") {
            sender = sliced_address(rest.trim_start_matches([' ', '\t']))?;
        } else if let Some(rest) = line.strip_prefix("To:") {
            recipient = sliced_address(rest.trim_start_matches([' ', '\t']))?;
        } else if let Some(rest) = line.strip_prefix("Subject:") {
            subject = rest.trim_start_matches([' ', '\t']).to_string();
        }
    }
    if recipient.is_empty() {
        recipient = own.to_string();
    }
    Some((sender, recipient, subject, body_lines.join("\n")))
}

const PIECES: [&str; 16] = [
    "", " ", "<", ">", "a@b.cd", "x", "\t", "Ann", "@", ".", "é", "<c@d.ef>", "\u{3000}", "b.c", "\"", "-",
];

fn values() -> Vec<String> {
    let mut all = Vec::new();
    for a in PIECES {
        for b in PIECES {
            for c in PIECES {
                all.push(format!("{}{}{}", a, b, c));
            }
        }
    }
    all
}

#[test]
fn addresses_agree_with_slicing() {
    let mut compared = 0;
    for value in values() {
        if let Some(expected) = sliced_address(&value) {
            assert_eq!(extract_address(&value), expected, "{:?}", value);
            compared += 1;
        }
    }
    assert!(compared > 3000);
}

#[test]
fn messages_agree_with_slicing() {
    let headers = ["From: ", "To:", "Subject: ", "from: ", "From:", " To: ", "Subject:\t ", ""];
    let values = ["Ann <a@b.cd>", "a@b.cd", "", " \t", "\u{a0}x ", "<>", "é <é@x.yz>", "b: From: c"];
    let ends = ["\n", "\r\n", "\n\n", "\r\n\r\n", "", "\r"];
    let bodies = ["", "body", "two\nlines\n", "From: in body\r\n\r\nend", "\n"];
    let mut compared = 0;
    for h1 in headers {
        for v1 in values {
            for e1 in ends {
                for h2 in headers {
                    for body in bodies {
                        let raw = format!("{}{}{}{}tail@x.yz{}{}", h1, v1, e1, h2, e1, body);
                        if let Some((sender, recipient, subject, text)) = sliced_message(raw.as_bytes(), "own@x.yz") {
                            let email = parse_message(raw.as_bytes(), "own@x.yz");
                            assert_eq!(email.sender, sender, "{:?}", raw);
                            assert_eq!(email.recipient, recipient, "{:?}", raw);
                            assert_eq!(email.subject, subject, "{:?}", raw);
                            assert_eq!(email.body, text, "{:?}", raw);
                            compared += 1;
                        }
                    }
                }
            }
        }
    }
    assert!(compared > 10000);
}

fn plain_matches(f: &EmailFilter, e: &Email) -> bool {
    if let Some(s) = &f.sender {
        if !e.sender.contains(s.as_str()) {
            return false;
        }
    }
    if let Some(r) = &f.recipient {
        if !e.recipient.contains(r.as_str()) {
            return false;
        }
    }
    if let Some(c) = &f.category {
        if e.category != *c {
            return false;
        }
    }
    if let Some(b) = f.is_read {
        if e.is_read != b {
            return false;
        }
    }
    if let Some(b) = f.is_important {
        if e.is_important != b {
            return false;
        }
    }
    if let Some(k) = &f.keyword {
        let k = k.to_lowercase();
        if !e.subject.to_lowercase().contains(&k)
            && !e.body.to_lowercase().contains(&k)
            && !e.sender.to_lowercase().contains(&k)
            && !e.recipient.to_lowercase().contains(&k)
        {
            return false;
        }
    }
    true
}

#[test]
fn the_filter_agrees_with_string_search() {
    let texts = ["", "a", "Ab", "ab", "bA", "İ", "ß", "aab", "工作"];
    let options = |texts: &[&str]| -> Vec<Option<String>> {
        let mut all = vec![None];
        all.extend(texts.iter().map(|t| Some(t.to_string())));
        all
    };
    let flags = [None, Some(false), Some(true)];
    let mut emails = Vec::new();
    for (i, s) in texts.iter().enumerate() {
        for (j, r) in texts.iter().enumerate() {
            emails.push(Email {
                id: format!("{}-{}", i, j),
                sender: s.to_string(),
                recipient: r.to_string(),
                subject: format!("{}{}", r, s),
                body: texts[(i + j) % texts.len()].to_string(),
                category: texts[(i * j) % texts.len()].to_string(),
                is_read: i % 2 == 0,
                is_important: j % 3 == 0,
                created_at: Timestamp { secs: 0, nanos: 0 },
                updated_at: Timestamp { secs: 0, nanos: 0 },
            });
        }
    }
    let mut compared = 0;
    for sender in options(&texts[..4]) {
        for category in options(&texts[6..]) {
            for keyword in options(&texts) {
                for is_read in flags {
                    let f = EmailFilter {
                        sender: sender.clone(),
                        recipient: keyword.clone(),
                        category: category.clone(),
                        is_read,
                        is_important: None,
                        keyword: keyword.clone(),
                    };
                    let g = EmailFilter { recipient: None, is_important: is_read, is_read: None, ..f.clone() };
                    for e in &emails {
                        assert_eq!(f.matches(e), plain_matches(&f, e));
                        assert_eq!(g.matches(e), plain_matches(&g, e));
                        compared += 1;
                    }
                }
            }
        }
    }
    assert!(compared > 10000);
}
