use xmail::services::connection::backoff;
use xmail::services::connection::ConnectCommand;
use xmail::services::connection::ConnectEvent;
use xmail::services::connection::ConnectState;
use xmail::services::connection::ConnectionError;
use xmail::services::connection::ATTEMPT_TIMEOUT_SECS;
use xmail::services::connection::MAX_ATTEMPTS;
use xmail::services::connection_test::ConnectionTest;
use xmail::services::connection_test::TestPhase;
use xmail::services::connection::ConnectRequest;
use xmail::services::protocol::SyncCommand;
use xmail::services::protocol::SyncEvent;

fn transport(text: &str) -> ConnectionError {
    ConnectionError::Transport(text.to_string())
}

fn auth(text: &str) -> ConnectionError {
    ConnectionError::Authentication(text.to_string())
}

fn drive(events: Vec<ConnectEvent>) -> (ConnectState, Vec<ConnectCommand>) {
    let mut state = ConnectState::start();
    let mut commands = vec![ConnectCommand::Attempt];
    for event in events {
        let (next, command) = state.step(event);
        state = next;
        commands.push(command);
    }
    (state, commands)
}

fn waited(commands: &[ConnectCommand]) -> u64 {
    commands
        .iter()
        .map(|c| match c {
            ConnectCommand::Wait(secs) => *secs,
            _ => 0,
        })
        .sum()
}

fn attempts(commands: &[ConnectCommand]) -> usize {
    commands.iter().filter(|c| matches!(c, ConnectCommand::Attempt)).count()
}

#[test]
fn policy_constants() {
    assert_eq!(MAX_ATTEMPTS, 3);
    assert_eq!(ATTEMPT_TIMEOUT_SECS, 30);
}

#[test]
fn backoff_doubles() {
    assert_eq!(backoff(0), 1);
    assert_eq!(backoff(1), 2);
    assert_eq!(backoff(2), 4);
    assert_eq!(backoff(10), 1024);
    assert_eq!(backoff(63), 1u64 << 63);
}

#[test]
fn first_attempt_succeeds() {
    let (state, commands) = drive(vec![ConnectEvent::Succeeded]);
    assert!(matches!(state, ConnectState::Connected { attempts: 1 }));
    assert_eq!(commands, vec![ConnectCommand::Attempt, ConnectCommand::Stop]);
    assert_eq!(waited(&commands), 0);
}

#[test]
fn third_attempt_succeeds_after_six_seconds() {
    let (state, commands) = drive(vec![
        ConnectEvent::Failed(transport("dns")),
        ConnectEvent::Waited,
        ConnectEvent::Failed(transport("tls")),
        ConnectEvent::Waited,
        ConnectEvent::Succeeded,
    ]);
    assert!(matches!(state, ConnectState::Connected { attempts: 3 }));
    assert!(state.finished());
    assert_eq!(
        commands,
        vec![
            ConnectCommand::Attempt,
            ConnectCommand::Wait(2),
            ConnectCommand::Attempt,
            ConnectCommand::Wait(4),
            ConnectCommand::Attempt,
            ConnectCommand::Stop,
        ]
    );
    assert_eq!(attempts(&commands), 3);
    assert_eq!(waited(&commands), 6);
}

#[test]
fn three_failures_give_the_last_error_at_once() {
    let (state, commands) = drive(vec![
        ConnectEvent::Failed(transport("one")),
        ConnectEvent::Waited,
        ConnectEvent::Failed(auth("two")),
        ConnectEvent::Waited,
        ConnectEvent::Failed(transport("three")),
    ]);
    match state {
        ConnectState::Failed { error } => assert_eq!(error, transport("three")),
        other => panic!("not failed: {:?}", other),
    }
    assert_eq!(attempts(&commands), 3);
    assert_eq!(waited(&commands), 6);
    assert_eq!(commands.last(), Some(&ConnectCommand::Stop));
}

#[test]
fn authentication_failures_are_retried_like_any_other() {
    let (state, command) = ConnectState::start().step(ConnectEvent::Failed(auth("bad password")));
    assert!(matches!(state, ConnectState::Waiting { attempt: 1 }));
    assert_eq!(command, ConnectCommand::Wait(2));
}

#[test]
fn events_out_of_turn_change_nothing() {
    let (state, command) = ConnectState::start().step(ConnectEvent::Waited);
    assert!(matches!(state, ConnectState::Attempting { attempt: 1 }));
    assert_eq!(command, ConnectCommand::Pending);
    let (state, _) = state.step(ConnectEvent::Failed(transport("x")));
    let (state, command) = state.step(ConnectEvent::Succeeded);
    assert!(matches!(state, ConnectState::Waiting { attempt: 1 }));
    assert_eq!(command, ConnectCommand::Pending);
    assert!(!state.finished());
    let (state, _) = drive(vec![ConnectEvent::Succeeded]);
    let (state, command) = state.step(ConnectEvent::Failed(transport("late")));
    assert!(matches!(state, ConnectState::Connected { attempts: 1 }));
    assert_eq!(command, ConnectCommand::Stop);
}

fn request() -> ConnectRequest {
    ConnectRequest {
        host: "imap.example.org".to_string(),
        port: 993,
        username: "user".to_string(),
        password: "wrong".to_string(),
        timeout_secs: 30,
    }
}

#[test]
fn refused_credentials_test_false() {
    let (mut test, first) = ConnectionTest::begin(request());
    assert!(matches!(first, SyncCommand::Connect(_)));
    assert_eq!(test.verdict(), None);
    let events = vec![
        SyncEvent::ConnectFailed(auth("no")),
        SyncEvent::Waited,
        SyncEvent::ConnectFailed(auth("no")),
        SyncEvent::Waited,
        SyncEvent::ConnectFailed(auth("no")),
    ];
    let mut connects = 1;
    let mut last = first;
    for event in events {
        let (next, command) = test.step(event);
        test = next;
        if matches!(command, SyncCommand::Connect(_)) {
            connects += 1;
        }
        last = command;
    }
    assert_eq!(connects, 3);
    assert!(matches!(last, SyncCommand::Stop));
    assert_eq!(test.verdict(), Some(false));
    let (test, command) = test.step(SyncEvent::Connected);
    assert!(matches!(command, SyncCommand::Stop));
    assert_eq!(test.verdict(), Some(false));
}

#[test]
fn accepted_credentials_test_true_whatever_the_logout_gives() {
    let (test, _) = ConnectionTest::begin(request());
    let (test, command) = test.step(SyncEvent::Connected);
    assert!(matches!(command, SyncCommand::Logout));
    assert!(matches!(test.phase, TestPhase::LoggingOut));
    assert_eq!(test.verdict(), None);
    let (done, command) = test.clone().step(SyncEvent::LogoutFailed("closed".to_string()));
    assert!(matches!(command, SyncCommand::Stop));
    assert_eq!(done.verdict(), Some(true));
    let (done, _) = test.step(SyncEvent::LoggedOut);
    assert_eq!(done.verdict(), Some(true));
}

#[test]
fn test_retries_carry_the_same_request() {
    let (test, _) = ConnectionTest::begin(request());
    let (test, command) = test.step(SyncEvent::ConnectFailed(transport("x")));
    assert!(matches!(command, SyncCommand::Wait(2)));
    let (_, command) = test.step(SyncEvent::Waited);
    match command {
        SyncCommand::Connect(r) => {
            assert_eq!(r.host, "imap.example.org");
            assert_eq!(r.port, 993);
            assert_eq!(r.username, "user");
            assert_eq!(r.password, "wrong");
            assert_eq!(r.timeout_secs, 30);
        }
        other => panic!("not a connect: {:?}", other),
    }
}
