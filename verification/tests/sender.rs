use xmail::models::email::Email;
use xmail::models::email_provider::EmailAccount;
use xmail::models::email_provider::EmailProvider;
use xmail::services::connection_test::TestPhase;
use xmail::services::outgoing::after_submission;
use xmail::services::outgoing::SendError;
use xmail::services::protocol::SyncCommand;
use xmail::services::sync_service::EmailSyncService;

fn service() -> EmailSyncService {
    let provider = EmailProvider::get_predefined_providers().remove(2);
    let account = EmailAccount {
        id: 1,
        provider_id: 3,
        email_address: "me@163.com".to_string(),
        display_name: "Me".to_string(),
        username: "me163".to_string(),
        password: "plain-secret".to_string(),
        is_active: true,
        last_sync: None,
        created_at: "2024-01-01T00:00:00+00:00".to_string(),
    };
    EmailSyncService::new(provider, account)
}

fn letter(from: &str, to: &str) -> Email {
    Email::new(from.to_string(), to.to_string(), "Subject".to_string(), "Body".to_string(), "发件箱".to_string())
}

#[test]
fn a_well_formed_message_is_planned() {
    let request = service().send_email(&letter("Me <me@163.com>", "you@example.org")).unwrap();
    assert_eq!(request.host, "smtp.163.com");
    assert_eq!(request.port, 994);
    assert_eq!(request.username, "me163");
    assert_eq!(request.password, "plain-secret");
    assert_eq!(request.from, "Me <me@163.com>");
    assert_eq!(request.to, "you@example.org");
    assert_eq!(request.subject, "Subject");
    assert_eq!(request.body, "Body");
}

#[test]
fn a_malformed_sender_is_refused_first() {
    assert_eq!(service().send_email(&letter("not an address", "also bad")).unwrap_err(), SendError::InvalidSender);
    assert_eq!(service().send_email(&letter("", "you@example.org")).unwrap_err(), SendError::InvalidSender);
}

#[test]
fn a_malformed_recipient_is_refused() {
    assert_eq!(
        service().send_email(&letter("me@163.com", "you@@example.org")).unwrap_err(),
        SendError::InvalidRecipient
    );
    assert_eq!(service().send_email(&letter("me@163.com", "")).unwrap_err(), SendError::InvalidRecipient);
}

#[test]
fn plan_send_follows_the_two_checks() {
    let s = service();
    let email = letter("a", "b");
    assert_eq!(s.plan_send(&email, false, false).unwrap_err(), SendError::InvalidSender);
    assert_eq!(s.plan_send(&email, false, true).unwrap_err(), SendError::InvalidSender);
    assert_eq!(s.plan_send(&email, true, false).unwrap_err(), SendError::InvalidRecipient);
    assert_eq!(s.plan_send(&email, true, true).unwrap().from, "a");
}

#[test]
fn a_connection_test_uses_the_credentials_as_they_stand() {
    let (test, command) = service().test_connection();
    assert!(matches!(test.phase, TestPhase::Connecting(_)));
    match command {
        SyncCommand::Connect(request) => {
            assert_eq!(request.host, "imap.163.com");
            assert_eq!(request.port, 993);
            assert_eq!(request.username, "me163");
            assert_eq!(request.password, "plain-secret");
            assert_eq!(request.timeout_secs, 30);
        }
        other => panic!("unexpected {:?}", other),
    }
}

#[test]
fn a_failed_submission_is_handed_on() {
    assert_eq!(after_submission(Ok(())), Ok(()));
    assert_eq!(
        after_submission(Err("535 authentication failed".to_string())),
        Err(SendError::Submission("535 authentication failed".to_string()))
    );
}
