use xmail::commands::email::search_filter;
use xmail::commands::email::toggle_important;
use xmail::commands::provider::find_account;
use xmail::commands::provider::find_provider;
use xmail::commands::provider::new_account;
use xmail::commands::provider::resolve_account;
use xmail::commands::provider::test_account;
use xmail::commands::provider::LookupError;
use xmail::database::query::default_categories;
use xmail::database::query::search_query;
use xmail::database::query::SqlValue;
use xmail::models::email::lowercase_contains;
use xmail::models::email::text_contains;
use xmail::models::email::Email;
use xmail::models::email::EmailFilter;
use xmail::models::email_provider::EmailAccount;
use xmail::models::email_provider::EmailProvider;
use xmail::services::email_service::EmailStatistics;
use xmail::services::email_service::NamedCount;
use xmail::time::Timestamp;

fn email(sender: &str, recipient: &str, subject: &str, body: &str, category: &str) -> Email {
    Email {
        id: format!("id-{}", subject),
        sender: sender.to_string(),
        recipient: recipient.to_string(),
        subject: subject.to_string(),
        body: body.to_string(),
        category: category.to_string(),
        is_read: false,
        is_important: false,
        created_at: Timestamp { secs: 1_700_000_000, nanos: 5 },
        updated_at: Timestamp { secs: 1_700_000_000, nanos: 5 },
    }
}

#[test]
fn a_new_record_is_unread_and_unmarked() {
    let e = Email::new("a".to_string(), "b".to_string(), "c".to_string(), "d".to_string(), "e".to_string());
    assert_eq!((e.sender.as_str(), e.recipient.as_str(), e.subject.as_str()), ("a", "b", "c"));
    assert_eq!((e.body.as_str(), e.category.as_str()), ("d", "e"));
    assert!(!e.is_read && !e.is_important);
    assert_eq!(e.id.len(), 36);
    assert_eq!(e.id.chars().filter(|c| *c == '-').count(), 4);
    assert_eq!(e.created_at, e.updated_at);
    assert!(e.created_at.secs > 1_600_000_000);
    assert!(e.created_at.nanos < 1_000_000_000);
    let other = Email::new("a".to_string(), "b".to_string(), "c".to_string(), "d".to_string(), "e".to_string());
    assert_ne!(e.id, other.id);
}

#[test]
fn marks_change_one_thing_and_stamp_the_update() {
    let mut e = email("a", "b", "c", "d", "e");
    e.mark_as_read();
    assert!(e.is_read && !e.is_important);
    assert!(e.updated_at.secs > e.created_at.secs);
    e.mark_as_important();
    assert!(e.is_read && e.is_important);
    e.update_category("工作".to_string());
    assert_eq!(e.category, "工作");
    assert_eq!(e.id, "id-c");
    assert_eq!(e.created_at, Timestamp { secs: 1_700_000_000, nanos: 5 });
    toggle_important(&mut e);
    assert!(!e.is_important);
    toggle_important(&mut e);
    assert!(e.is_important);
    let copy = e.duplicate();
    assert_eq!(copy.id, e.id);
    assert_eq!(copy.updated_at, e.updated_at);
}

#[test]
fn the_empty_filter_accepts_everything() {
    let e = email("a@x", "b@y", "s", "b", "c");
    assert!(EmailFilter::new().matches(&e));
    assert!(EmailFilter::default().matches(&e));
}

#[test]
fn builders_set_one_criterion_each() {
    let f = EmailFilter::new().category("工作".to_string()).keyword("Plan".to_string()).unread_only().important_only();
    assert_eq!(f.category, Some("工作".to_string()));
    assert_eq!(f.keyword, Some("Plan".to_string()));
    assert_eq!(f.is_read, Some(false));
    assert_eq!(f.is_important, Some(true));
    assert_eq!(f.sender, None);
    assert_eq!(f.recipient, None);
    let g = f.duplicate();
    assert_eq!(g.keyword, f.keyword);
}

#[test]
fn each_criterion_must_hold() {
    let mut e = email("Alice@Example.org", "bob@y.org", "Quarterly Plan", "Numbers inside", "工作");
    let sender = EmailFilter { sender: Some("Example".to_string()), ..EmailFilter::new() };
    assert!(sender.matches(&e));
    let sender = EmailFilter { sender: Some("example".to_string()), ..EmailFilter::new() };
    assert!(!sender.matches(&e));
    let recipient = EmailFilter { recipient: Some("bob@".to_string()), ..EmailFilter::new() };
    assert!(recipient.matches(&e));
    let recipient = EmailFilter { recipient: Some("carol".to_string()), ..EmailFilter::new() };
    assert!(!recipient.matches(&e));
    assert!(EmailFilter::new().category("工作".to_string()).matches(&e));
    assert!(!EmailFilter::new().category("工".to_string()).matches(&e));
    assert!(EmailFilter::new().unread_only().matches(&e));
    assert!(!EmailFilter::new().important_only().matches(&e));
    e.is_read = true;
    e.is_important = true;
    assert!(!EmailFilter::new().unread_only().matches(&e));
    assert!(EmailFilter::new().important_only().matches(&e));
    let read = EmailFilter { is_read: Some(true), ..EmailFilter::new() };
    assert!(read.matches(&e));
}

#[test]
fn the_keyword_is_sought_in_four_fields_without_case() {
    let e = email("Alice@Example.org", "bob@y.org", "Quarterly Plan", "Numbers inside", "工作");
    for hit in ["PLAN", "numbers", "alice", "BOB", "", "ÉXAMPLE".to_lowercase().as_str()] {
        let expected = hit != "éxample";
        assert_eq!(EmailFilter::new().keyword(hit.to_string()).matches(&e), expected, "{}", hit);
    }
    assert!(!EmailFilter::new().keyword("工作".to_string()).matches(&e));
    let both = EmailFilter::new().keyword("plan".to_string()).category("个人".to_string());
    assert!(!both.matches(&e));
}

#[test]
fn contains_is_sub_text() {
    assert!(text_contains("hello", ""));
    assert!(text_contains("", ""));
    assert!(!text_contains("", "a"));
    assert!(text_contains("hello", "ell"));
    assert!(text_contains("hello", "hello"));
    assert!(!text_contains("hello", "helloo"));
    assert!(!text_contains("hello", "elo"));
    assert!(text_contains("aaab", "aab"));
    assert!(text_contains("日本語のテキスト", "のテ"));
    assert!(lowercase_contains("HeLLo", "ell"));
    assert!(!lowercase_contains("HeLLo", "ELL"));
}

#[test]
fn the_predefined_providers() {
    let list = EmailProvider::get_predefined_providers();
    let rows: Vec<(i32, &str, &str, &str, u16, &str, u16, bool, bool)> = list
        .iter()
        .map(|p| {
            (
                p.id,
                p.name.as_str(),
                p.provider_type.as_str(),
                p.imap_server.as_str(),
                p.imap_port,
                p.smtp_server.as_str(),
                p.smtp_port,
                p.use_ssl,
                p.use_tls,
            )
        })
        .collect();
    assert_eq!(
        rows,
        vec![
            (1, "Gmail", "gmail", "imap.gmail.com", 993, "smtp.gmail.com", 587, true, true),
            (2, "QQ邮箱", "qq", "imap.qq.com", 993, "smtp.qq.com", 587, true, true),
            (3, "163邮箱", "163", "imap.163.com", 993, "smtp.163.com", 994, true, false),
            (4, "126邮箱", "126", "imap.126.com", 993, "smtp.126.com", 994, true, false),
            (5, "Outlook", "outlook", "outlook.office365.com", 993, "smtp-mail.outlook.com", 587, true, true),
        ]
    );
}

#[test]
fn the_search_command_builds_its_filter() {
    let f = search_filter(Some("k".to_string()), Some("c".to_string()), Some(true), Some(true));
    assert_eq!(f.keyword, Some("k".to_string()));
    assert_eq!(f.category, Some("c".to_string()));
    assert_eq!(f.is_read, Some(false));
    assert_eq!(f.is_important, Some(true));
    let f = search_filter(None, None, Some(false), None);
    assert_eq!(f.keyword, None);
    assert_eq!(f.category, None);
    assert_eq!(f.is_read, None);
    assert_eq!(f.is_important, None);
    assert_eq!(f.sender, None);
    assert_eq!(f.recipient, None);
}

fn account(id: i32, provider_id: i32) -> EmailAccount {
    new_account(
        provider_id,
        format!("u{}@x.org", id),
        "U".to_string(),
        format!("u{}", id),
        "pw".to_string(),
        "2024-05-05T00:00:00+00:00".to_string(),
    )
}

#[test]
fn lookups_take_the_first_match() {
    let providers = EmailProvider::get_predefined_providers();
    assert_eq!(find_provider(providers.clone(), 4).unwrap().provider_type, "126");
    assert_eq!(find_provider(providers.clone(), 9).unwrap_err(), LookupError::ProviderNotFound);
    assert_eq!(find_provider(vec![], 1).unwrap_err(), LookupError::ProviderNotFound);
    let mut a = account(1, 3);
    a.id = 11;
    let mut b = account(2, 8);
    b.id = 12;
    let mut c = account(3, 5);
    c.id = 11;
    let accounts = vec![a, b, c];
    assert_eq!(find_account(accounts.clone(), 11).unwrap().username, "u1");
    assert_eq!(find_account(accounts.clone(), 13).unwrap_err(), LookupError::AccountNotFound);
    let (provider, found) = resolve_account(accounts.clone(), providers.clone(), 11).unwrap();
    assert_eq!(provider.name, "163邮箱");
    assert_eq!(found.email_address, "u1@x.org");
    assert_eq!(resolve_account(accounts.clone(), providers.clone(), 12).unwrap_err(), LookupError::ProviderNotFound);
    assert_eq!(resolve_account(accounts, providers, 99).unwrap_err(), LookupError::AccountNotFound);
    assert_eq!(LookupError::AccountNotFound.message(), "未找到邮件账户");
    assert_eq!(LookupError::ProviderNotFound.message(), "未找到邮件服务商");
}

#[test]
fn accounts_for_storing_and_for_testing() {
    let a = account(1, 3);
    assert_eq!(a.id, 0);
    assert!(a.is_active);
    assert_eq!(a.last_sync, None);
    assert_eq!(a.provider_id, 3);
    let t = test_account(2, "user@x.org".to_string(), "secret".to_string(), "now".to_string());
    assert_eq!(t.email_address, "user@x.org");
    assert_eq!(t.username, "user@x.org");
    assert_eq!(t.display_name, "Test");
    assert_eq!(t.password, "secret");
    assert_eq!(t.provider_id, 2);
    assert_eq!(t.created_at, "now");
    assert!(t.is_active);
}

#[test]
fn the_search_statement_follows_the_filter() {
    let q = search_query(&EmailFilter::new());
    assert_eq!(
        q.sql,
        "SELECT id, sender, recipient, subject, body, category, is_read, is_important, created_at, updated_at FROM emails WHERE 1=1 ORDER BY created_at DESC"
    );
    assert!(q.params.is_empty());
    let f = EmailFilter {
        sender: Some("al".to_string()),
        recipient: Some("bo".to_string()),
        category: Some("工作".to_string()),
        is_read: Some(false),
        is_important: Some(true),
        keyword: Some("50%".to_string()),
    };
    let q = search_query(&f);
    assert!(q.sql.ends_with(
        "WHERE 1=1 AND sender LIKE ? AND recipient LIKE ? AND category = ? AND is_read = ? AND is_important = ? AND (subject LIKE ? OR body LIKE ?) ORDER BY created_at DESC"
    ));
    assert_eq!(
        q.params,
        vec![
            SqlValue::Text("%al%".to_string()),
            SqlValue::Text("%bo%".to_string()),
            SqlValue::Text("工作".to_string()),
            SqlValue::Flag(false),
            SqlValue::Flag(true),
            SqlValue::Text("%50%%".to_string()),
            SqlValue::Text("%50%%".to_string()),
        ]
    );
    assert_eq!(q.sql.matches('?').count(), q.params.len());
    let q = search_query(&EmailFilter::new().keyword("k".to_string()).unread_only());
    assert!(q.sql.contains("WHERE 1=1 AND is_read = ? AND (subject LIKE ? OR body LIKE ?) ORDER"));
    assert_eq!(q.params.len(), 3);
}

#[test]
fn a_new_store_holds_seven_categories() {
    let presets = default_categories();
    let rows: Vec<(&str, &str, &str, bool)> =
        presets.iter().map(|p| (p.name.as_str(), p.color.as_str(), p.description.as_str(), p.is_system)).collect();
    assert_eq!(
        rows,
        vec![
            ("收件箱", "#007bff", "接收的邮件", true),
            ("发件箱", "#28a745", "发送的邮件", true),
            ("草稿箱", "#ffc107", "草稿邮件", true),
            ("垃圾箱", "#dc3545", "已删除的邮件", true),
            ("工作", "#6f42c1", "工作相关邮件", false),
            ("个人", "#fd7e14", "个人邮件", false),
            ("重要", "#e83e8c", "重要邮件", false),
        ]
    );
}

#[test]
fn statistics_count_the_read_records() {
    let counts = vec![NamedCount { name: "工作".to_string(), count: 4 }];
    let stats = EmailStatistics::from_counts(10, 3, 2, counts.clone());
    assert_eq!(stats.total_count, 10);
    assert_eq!(stats.unread_count, 3);
    assert_eq!(stats.read_count, 7);
    assert_eq!(stats.important_count, 2);
    assert_eq!(stats.category_counts, counts);
    assert_eq!(EmailStatistics::from_counts(0, 0, 0, vec![]).read_count, 0);
}
