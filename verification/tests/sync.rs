use xmail::models::email_provider::EmailAccount;
use xmail::models::email_provider::EmailProvider;
use xmail::services::connection::ConnectionError;
use xmail::services::crypto_service::CryptoError;
use xmail::services::crypto_service::CryptoService;
use xmail::services::folder_session::select_recent;
use xmail::services::folder_session::sorted_ids;
use xmail::services::folder_session::FolderSession;
use xmail::services::folder_session::SessionPhase;
use xmail::services::protocol::SyncCommand;
use xmail::services::protocol::SyncError;
use xmail::services::protocol::SyncEvent;
use xmail::services::sync_service::file_under;
use xmail::services::sync_service::CategoryMap;
use xmail::services::sync_service::EmailSyncService;
use xmail::services::sync_service::FolderCategory;
use xmail::services::sync_service::FolderFailure;
use xmail::services::sync_service::SyncCycle;
use xmail::services::sync_service::SyncManager;
use xmail::services::sync_service::SyncOutcome;
use xmail::services::sync_service::FOLDER_LIMIT;

fn provider() -> EmailProvider {
    EmailProvider::get_predefined_providers().remove(0)
}

fn account(secret: &str) -> EmailAccount {
    EmailAccount {
        id: 7,
        provider_id: 1,
        email_address: "me@home.org".to_string(),
        display_name: "Me".to_string(),
        username: "me".to_string(),
        password: secret.to_string(),
        is_active: true,
        last_sync: None,
        created_at: "2024-01-01T00:00:00+00:00".to_string(),
    }
}

fn stored(password: &str) -> String {
    CryptoService::encrypt_password(password).unwrap()
}

fn message(from: &str, subject: &str) -> Option<Vec<u8>> {
    Some(format!("From: {}\nSubject: {}\n\nbody of {}", from, subject, subject).into_bytes())
}

fn cycle_over(folders: &[&str], limit: usize) -> (SyncCycle, SyncCommand) {
    SyncCycle::begin(
        EmailSyncService::new(provider(), account(&stored("hunter22"))),
        folders.iter().map(|f| f.to_string()).collect(),
        limit,
        CategoryMap::standard(),
    )
    .unwrap()
}

#[test]
fn ids_are_sorted() {
    assert_eq!(sorted_ids(&vec![5, 1, 4, 1, 9, 2]), vec![1, 1, 2, 4, 5, 9]);
    assert_eq!(sorted_ids(&vec![]), Vec::<u32>::new());
    assert_eq!(sorted_ids(&vec![u32::MAX, 0]), vec![0, u32::MAX]);
}

#[test]
fn the_most_recent_ids_are_chosen() {
    assert_eq!(select_recent(&vec![3, 9, 1, 7, 5], 2), vec![7, 9]);
    assert_eq!(select_recent(&vec![3, 9, 1, 7, 5], 5), vec![1, 3, 5, 7, 9]);
    assert_eq!(select_recent(&vec![3, 9, 1], 50), vec![1, 3, 9]);
    assert_eq!(select_recent(&vec![3, 9, 1], 0), Vec::<u32>::new());
    assert_eq!(select_recent(&vec![], 4), Vec::<u32>::new());
    assert_eq!(select_recent(&vec![10, 20, 40], 1), vec![40]);
}

#[test]
fn connect_request_carries_the_opened_secret() {
    let service = EmailSyncService::new(provider(), account(&stored("hunter22")));
    let request = service.connect_imap().unwrap();
    assert_eq!(request.host, "imap.gmail.com");
    assert_eq!(request.port, 993);
    assert_eq!(request.username, "me");
    assert_eq!(request.password, "hunter22");
    assert_eq!(request.timeout_secs, 30);
}

#[test]
fn a_secret_that_cannot_be_opened_ends_the_operation() {
    let service = EmailSyncService::new(provider(), account("not base64 at all"));
    assert_eq!(service.connect_imap().unwrap_err(), CryptoError::InvalidEncoding);
    assert!(service.fetch_emails("INBOX", 5).is_err());
    let manager = SyncManager::new();
    let failed = manager.sync_account_emails(provider(), account("aGVsbG8="));
    assert_eq!(failed.unwrap_err(), CryptoError::InvalidFormat);
}

#[test]
fn a_session_runs_from_connect_to_logout() {
    let service = EmailSyncService::new(provider(), account(&stored("pw")));
    let (session, command) = service.fetch_emails("INBOX", 2).unwrap();
    match command {
        SyncCommand::Connect(request) => assert_eq!(request.password, "pw"),
        other => panic!("unexpected {:?}", other),
    }
    let (session, command) = session.step(SyncEvent::Connected);
    assert!(matches!(command, SyncCommand::Select(ref f) if f == "INBOX"));
    let (session, command) = session.step(SyncEvent::Selected);
    assert!(matches!(command, SyncCommand::List));
    let (session, command) = session.step(SyncEvent::Listed(vec![12, 3, 8]));
    assert!(matches!(command, SyncCommand::Fetch(8)));
    let (session, command) = session.step(SyncEvent::Fetched(vec![message("a@x.org", "eight")]));
    assert!(matches!(command, SyncCommand::Fetch(12)));
    assert!(!session.finished());
    let (session, command) = session.step(SyncEvent::Fetched(vec![message("b@x.org", "twelve")]));
    assert!(matches!(command, SyncCommand::Logout));
    let (session, command) = session.step(SyncEvent::LoggedOut);
    assert!(matches!(command, SyncCommand::Stop));
    assert!(session.finished());
    assert!(session.failure.is_none());
    let subjects: Vec<&str> = session.records.iter().map(|e| e.subject.as_str()).collect();
    assert_eq!(subjects, vec!["eight", "twelve"]);
    assert_eq!(session.records[0].sender, "a@x.org");
    assert_eq!(session.records[0].recipient, "me@home.org");
    assert_eq!(session.records[1].body, "body of twelve");
}

#[test]
fn one_failed_fetch_does_not_end_the_batch() {
    let service = EmailSyncService::new(provider(), account(&stored("pw")));
    let (session, _) = service.fetch_emails("INBOX", 10).unwrap();
    let (session, _) = session.step(SyncEvent::Connected);
    let (session, _) = session.step(SyncEvent::Selected);
    let (session, command) = session.step(SyncEvent::Listed(vec![1, 2, 3]));
    assert!(matches!(command, SyncCommand::Fetch(1)));
    let (session, command) = session.step(SyncEvent::FetchFailed("gone".to_string()));
    assert!(matches!(command, SyncCommand::Fetch(2)));
    let (session, command) = session.step(SyncEvent::Fetched(vec![None, message("c@x.org", "two"), None]));
    assert!(matches!(command, SyncCommand::Fetch(3)));
    let (session, command) = session.step(SyncEvent::Fetched(vec![]));
    assert!(matches!(command, SyncCommand::Logout));
    let (session, command) = session.step(SyncEvent::LogoutFailed("closed".to_string()));
    assert!(matches!(command, SyncCommand::Stop));
    assert!(session.failure.is_none());
    assert_eq!(session.records.len(), 1);
    assert_eq!(session.records[0].subject, "two");
}

#[test]
fn an_empty_folder_goes_straight_to_logout() {
    let service = EmailSyncService::new(provider(), account(&stored("pw")));
    let (session, _) = service.fetch_emails("Drafts", 10).unwrap();
    let (session, _) = session.step(SyncEvent::Connected);
    let (session, _) = session.step(SyncEvent::Selected);
    let (session, command) = session.step(SyncEvent::Listed(vec![]));
    assert!(matches!(command, SyncCommand::Logout));
    assert!(matches!(session.phase, SessionPhase::LoggingOut));
    let (session, _) = service.fetch_emails("Drafts", 0).unwrap();
    let (session, _) = session.step(SyncEvent::Connected);
    let (session, _) = session.step(SyncEvent::Selected);
    let (_, command) = session.step(SyncEvent::Listed(vec![4, 5]));
    assert!(matches!(command, SyncCommand::Logout));
}

#[test]
fn session_failures_carry_their_kind() {
    let service = EmailSyncService::new(provider(), account(&stored("pw")));
    let (session, _) = service.fetch_emails("Nowhere", 10).unwrap();
    let (session, _) = session.step(SyncEvent::Connected);
    let (failed, command) = session.clone().step(SyncEvent::SelectFailed("no such folder".to_string()));
    assert!(matches!(command, SyncCommand::Stop));
    assert!(failed.finished());
    assert_eq!(failed.failure, Some(SyncError::Select("no such folder".to_string())));
    let (session, _) = session.step(SyncEvent::Selected);
    let (failed, command) = session.step(SyncEvent::ListFailed("search refused".to_string()));
    assert!(matches!(command, SyncCommand::Stop));
    assert_eq!(failed.failure, Some(SyncError::Fetch("search refused".to_string())));
    let (session, _) = service.fetch_emails("INBOX", 10).unwrap();
    let (session, command) = session.step(SyncEvent::ConnectFailed(ConnectionError::Transport("t1".to_string())));
    assert!(matches!(command, SyncCommand::Wait(2)));
    let (session, command) = session.step(SyncEvent::Waited);
    assert!(matches!(command, SyncCommand::Connect(_)));
    let (session, command) = session.step(SyncEvent::ConnectFailed(ConnectionError::Transport("t2".to_string())));
    assert!(matches!(command, SyncCommand::Wait(4)));
    let (session, _) = session.step(SyncEvent::Waited);
    let (session, command) =
        session.step(SyncEvent::ConnectFailed(ConnectionError::Authentication("a3".to_string())));
    assert!(matches!(command, SyncCommand::Stop));
    assert_eq!(
        session.failure,
        Some(SyncError::Connection(ConnectionError::Authentication("a3".to_string())))
    );
    assert!(session.records.is_empty());
}

#[test]
fn events_out_of_turn_leave_a_session_as_it_is() {
    let service = EmailSyncService::new(provider(), account(&stored("pw")));
    let (session, _) = service.fetch_emails("INBOX", 10).unwrap();
    let (session, command) = session.step(SyncEvent::Selected);
    assert!(matches!(command, SyncCommand::Pending));
    assert!(matches!(session.phase, SessionPhase::Connecting(_)));
    let (session, _) = session.step(SyncEvent::Connected);
    let (session, command) = session.step(SyncEvent::Listed(vec![1]));
    assert!(matches!(command, SyncCommand::Pending));
    assert!(matches!(session.phase, SessionPhase::Selecting));
    let (session, _) = session.step(SyncEvent::Selected);
    let (session, _) = session.step(SyncEvent::Listed(vec![1]));
    let (session, command) = session.step(SyncEvent::LoggedOut);
    assert!(matches!(command, SyncCommand::Pending));
    assert!(matches!(session.phase, SessionPhase::Fetching { next: 0, .. }));
}

fn run_folder(cycle: SyncCycle, select_ok: bool, subjects: &[&str]) -> (SyncCycle, SyncCommand) {
    let (cycle, command) = cycle.step(SyncEvent::Connected);
    assert!(matches!(command, SyncCommand::Select(_)));
    if !select_ok {
        return cycle.step(SyncEvent::SelectFailed("unknown folder".to_string()));
    }
    let (cycle, _) = cycle.step(SyncEvent::Selected);
    let ids: Vec<u32> = (1..=subjects.len() as u32).collect();
    let (mut cycle, mut command) = cycle.step(SyncEvent::Listed(ids));
    for subject in subjects {
        assert!(matches!(command, SyncCommand::Fetch(_)));
        let next = cycle.step(SyncEvent::Fetched(vec![message("s@x.org", subject)]));
        cycle = next.0;
        command = next.1;
    }
    assert!(matches!(command, SyncCommand::Logout));
    cycle.step(SyncEvent::LoggedOut)
}

#[test]
fn a_failed_folder_is_recorded_and_the_others_are_kept() {
    let (cycle, command) = cycle_over(&["A", "B", "C"], 50);
    assert!(matches!(command, SyncCommand::Connect(_)));
    let (cycle, command) = run_folder(cycle, true, &["a1", "a2"]);
    assert!(matches!(command, SyncCommand::Connect(_)));
    assert_eq!(cycle.index, 1);
    let (cycle, command) = run_folder(cycle, false, &[]);
    assert!(matches!(command, SyncCommand::Connect(_)));
    assert_eq!(cycle.index, 2);
    let (cycle, command) = run_folder(cycle, true, &["c1"]);
    assert!(matches!(command, SyncCommand::Stop));
    assert!(cycle.finished());
    let outcome = cycle.into_outcome();
    let subjects: Vec<&str> = outcome.records.iter().map(|e| e.subject.as_str()).collect();
    assert_eq!(subjects, vec!["a1", "a2", "c1"]);
    assert_eq!(
        outcome.failures,
        vec![FolderFailure {
            folder: "B".to_string(),
            error: SyncError::Select("unknown folder".to_string()),
        }]
    );
    assert!(outcome.records.iter().all(|e| e.category == "其他"));
}

#[test]
fn the_standard_cycle_files_records_by_folder() {
    let manager = SyncManager::new();
    let (cycle, command) = manager.sync_account_emails(provider(), account(&stored("hunter22"))).unwrap();
    assert_eq!(cycle.folders, vec!["INBOX", "Sent", "Drafts"]);
    assert_eq!(cycle.limit, FOLDER_LIMIT);
    assert_eq!(FOLDER_LIMIT, 50);
    match command {
        SyncCommand::Connect(request) => {
            assert_eq!(request.host, "imap.gmail.com");
            assert_eq!(request.password, "hunter22");
        }
        other => panic!("unexpected {:?}", other),
    }
    let (cycle, _) = run_folder(cycle, true, &["in"]);
    let (cycle, _) = run_folder(cycle, true, &["out"]);
    let (cycle, command) = run_folder(cycle, true, &["draft"]);
    assert!(matches!(command, SyncCommand::Stop));
    let outcome = cycle.into_outcome();
    let filed: Vec<(&str, &str)> =
        outcome.records.iter().map(|e| (e.subject.as_str(), e.category.as_str())).collect();
    assert_eq!(filed, vec![("in", "收件箱"), ("out", "发件箱"), ("draft", "草稿箱")]);
    assert!(outcome.failures.is_empty());
}

#[test]
fn every_folder_gets_a_connection_of_its_own() {
    let (cycle, _) = cycle_over(&["A", "B"], 1);
    let mut connects = 1;
    let (cycle, command) = run_folder(cycle, true, &["x"]);
    if matches!(command, SyncCommand::Connect(_)) {
        connects += 1;
    }
    let (cycle, command) = cycle.step(SyncEvent::ConnectFailed(ConnectionError::Transport("down".to_string())));
    assert!(matches!(command, SyncCommand::Wait(2)));
    let (cycle, command) = cycle.step(SyncEvent::Waited);
    if matches!(command, SyncCommand::Connect(_)) {
        connects += 1;
    }
    let (cycle, _) = cycle.step(SyncEvent::ConnectFailed(ConnectionError::Transport("down".to_string())));
    let (cycle, _) = cycle.step(SyncEvent::Waited);
    let (cycle, command) = cycle.step(SyncEvent::ConnectFailed(ConnectionError::Transport("last".to_string())));
    assert!(matches!(command, SyncCommand::Stop));
    assert_eq!(connects, 3);
    let outcome = cycle.into_outcome();
    assert_eq!(outcome.records.len(), 1);
    assert_eq!(
        outcome.failures,
        vec![FolderFailure {
            folder: "B".to_string(),
            error: SyncError::Connection(ConnectionError::Transport("last".to_string())),
        }]
    );
}

#[test]
fn a_cycle_without_folders_is_over_at_once() {
    let (cycle, command) = SyncCycle::begin(
        EmailSyncService::new(provider(), account("no secret needed")),
        vec![],
        5,
        CategoryMap::standard(),
    )
    .unwrap();
    assert!(matches!(command, SyncCommand::Stop));
    assert!(cycle.finished());
    let (cycle, command) = cycle.step(SyncEvent::Connected);
    assert!(matches!(command, SyncCommand::Stop));
    let outcome = cycle.into_outcome();
    assert!(outcome.records.is_empty() && outcome.failures.is_empty());
}

#[test]
fn categories_follow_the_map() {
    let map = CategoryMap::standard();
    assert_eq!(map.category_for("INBOX"), "收件箱");
    assert_eq!(map.category_for("Sent"), "发件箱");
    assert_eq!(map.category_for("Drafts"), "草稿箱");
    assert_eq!(map.category_for("inbox"), "其他");
    assert_eq!(map.category_for(""), "其他");
    let map = CategoryMap {
        entries: vec![
            FolderCategory { folder: "Work".to_string(), category: "w".to_string() },
            FolderCategory { folder: "Work".to_string(), category: "later".to_string() },
        ],
        fallback: "rest".to_string(),
    };
    assert_eq!(map.category_for("Work"), "w");
    assert_eq!(map.category_for("Play"), "rest");
}

#[test]
fn absorbing_a_failure_keeps_the_records() {
    let service = EmailSyncService::new(provider(), account(&stored("pw")));
    let mut outcome = SyncOutcome::new();
    let first = service.parse_email_from_raw(b"Subject: one\n\nx");
    outcome.absorb("A".to_string(), vec![first], None, "cat-a");
    outcome.absorb("B".to_string(), vec![], Some(SyncError::Fetch("f".to_string())), "cat-b");
    assert_eq!(outcome.records.len(), 1);
    assert_eq!(outcome.records[0].category, "cat-a");
    assert_eq!(outcome.failures.len(), 1);
    assert_eq!(outcome.failures[0].folder, "B");
}

#[test]
fn filing_changes_the_category_and_nothing_else() {
    let service = EmailSyncService::new(provider(), account(&stored("pw")));
    let mut first = service.parse_email_from_raw(b"From: a@x.org\nSubject: one\n\nx");
    first.is_read = true;
    first.updated_at.secs += 60;
    let second = service.parse_email_from_raw(b"Subject: two\n\ny");
    let before = vec![first.duplicate(), second.duplicate()];
    let mut filed = vec![first, second];
    file_under(&mut filed, "工作");
    let mut outcome = SyncOutcome::new();
    outcome.absorb("A".to_string(), before.iter().map(|e| e.duplicate()).collect(), None, "个人");
    for (records, category) in [(&filed, "工作"), (&outcome.records, "个人")] {
        assert_eq!(records.len(), 2);
        for (now, was) in records.iter().zip(before.iter()) {
            assert_eq!(now.id, was.id);
            assert_eq!(now.created_at, was.created_at);
            assert_eq!(now.updated_at, was.updated_at);
            assert_eq!(now.sender, was.sender);
            assert_eq!(now.recipient, was.recipient);
            assert_eq!(now.subject, was.subject);
            assert_eq!(now.body, was.body);
            assert_eq!(now.is_read, was.is_read);
            assert_eq!(now.is_important, was.is_important);
            assert_eq!(now.category, category);
        }
    }
}

#[test]
fn records_pass_through_a_cycle_as_they_were_fetched() {
    let (cycle, _) = cycle_over(&["INBOX", "Sent"], 50);
    let (cycle, _) = cycle.step(SyncEvent::Connected);
    let (cycle, _) = cycle.step(SyncEvent::Selected);
    let (cycle, _) = cycle.step(SyncEvent::Listed(vec![1, 2]));
    let (cycle, _) = cycle.step(SyncEvent::Fetched(vec![message("a@x.org", "one")]));
    let fetched = cycle.session.as_ref().unwrap().records[0].duplicate();
    let (cycle, _) = cycle.step(SyncEvent::Fetched(vec![message("b@x.org", "two")]));
    assert_eq!(cycle.session.as_ref().unwrap().records[0].id, fetched.id);
    assert_eq!(cycle.session.as_ref().unwrap().records[0].updated_at, fetched.updated_at);
    let (cycle, _) = cycle.step(SyncEvent::LoggedOut);
    let (cycle, _) = run_folder(cycle, false, &[]);
    let outcome = cycle.into_outcome();
    assert_eq!(outcome.records.len(), 2);
    assert_eq!(outcome.records[0].id, fetched.id);
    assert_eq!(outcome.records[0].created_at, fetched.created_at);
    assert_eq!(outcome.records[0].updated_at, fetched.updated_at);
    assert_eq!(outcome.records[0].subject, "one");
    assert_eq!(outcome.records[0].category, "收件箱");
    assert_eq!(outcome.records[1].subject, "two");
    assert_eq!(outcome.failures.len(), 1);
}

#[test]
fn begin_gives_a_fresh_session() {
    let service = EmailSyncService::new(provider(), account(&stored("pw")));
    let request = service.connect_imap().unwrap();
    let (session, command) = FolderSession::begin("F".to_string(), 3, "own@x.org".to_string(), request);
    assert_eq!(session.folder, "F");
    assert_eq!(session.limit, 3);
    assert_eq!(session.own_address, "own@x.org");
    assert!(session.records.is_empty());
    assert!(matches!(command, SyncCommand::Connect(_)));
}
