//! The connection policy: up to three attempts, each bounded in time, with a
//! wait of `2^k` seconds after the failure of attempt `k` and none after the
//! last.
//!
//! The policy is a state machine. Its driver opens the connection and sleeps;
//! the machine says what to do next.

use vstd::arithmetic::power2::lemma2_to64;
use vstd::arithmetic::power2::lemma_pow2_unfold;
use vstd::arithmetic::power2::pow2;
use vstd::prelude::*;

verus! {

/// The number of attempts that one connection is worth.
pub const MAX_ATTEMPTS: u32 = 3;

/// The seconds that one attempt may take, name lookup, TCP and TLS handshake
/// together.
pub const ATTEMPT_TIMEOUT_SECS: u64 = 30;

/// Why an attempt to connect failed.
#[derive(Debug, Clone, PartialEq, Eq)]
pub enum ConnectionError {
    /// Name lookup, TCP or TLS failed, or the attempt timed out.
    Transport(String),
    /// The server refused the credentials.
    Authentication(String),
}

/// What the driver needs for one attempt. The password is plain text and is
/// meant for this attempt only.
#[derive(Debug, Clone)]
pub struct ConnectRequest {
    pub host: String,
    pub port: u16,
    pub username: String,
    pub password: String,
    pub timeout_secs: u64,
}

/// Where a connection stands.
#[derive(Debug, Clone)]
pub enum ConnectState {
    /// Attempt number `attempt`, counted from 1, is under way.
    Attempting { attempt: u32 },
    /// Attempt number `attempt` failed; the wait before the next is under way.
    Waiting { attempt: u32 },
    /// Attempt number `attempts` succeeded.
    Connected { attempts: u32 },
    /// The last attempt failed with `error`.
    Failed { error: ConnectionError },
}

/// What the driver reports.
#[derive(Debug, Clone)]
pub enum ConnectEvent {
    /// The attempt gave an open, authenticated session.
    Succeeded,
    /// The attempt failed.
    Failed(ConnectionError),
    /// The wait is over.
    Waited,
}

/// What the driver is to do next.
#[derive(Debug, Clone, Copy, PartialEq, Eq, Structural)]
pub enum ConnectCommand {
    /// Make an attempt and report `Succeeded` or `Failed`.
    Attempt,
    /// Sleep for so many seconds and report `Waited`.
    Wait(u64),
    /// The event did not answer what is under way: go on with that.
    Pending,
    /// The connection is established or given up: see the state.
    Stop,
}

/// The seconds to wait after the failure of attempt number `attempt`.
pub open spec fn backoff_secs(attempt: nat) -> nat {
    pow2(attempt)
}

/// The state and the command that follow `state` on `event`.
pub open spec fn connect_step(state: ConnectState, event: ConnectEvent) -> (
    ConnectState,
    ConnectCommand,
) {
    match (state, event) {
        (ConnectState::Attempting { attempt }, ConnectEvent::Succeeded) => (
            ConnectState::Connected { attempts: attempt },
            ConnectCommand::Stop,
        ),
        (ConnectState::Attempting { attempt }, ConnectEvent::Failed(error)) => if attempt
            < MAX_ATTEMPTS {
            (
                ConnectState::Waiting { attempt },
                ConnectCommand::Wait(backoff_secs(attempt as nat) as u64),
            )
        } else {
            (ConnectState::Failed { error }, ConnectCommand::Stop)
        },
        (ConnectState::Waiting { attempt }, ConnectEvent::Waited) => (
            ConnectState::Attempting { attempt: (attempt + 1) as u32 },
            ConnectCommand::Attempt,
        ),
        (ConnectState::Attempting { .. }, _) => (state, ConnectCommand::Pending),
        (ConnectState::Waiting { .. }, _) => (state, ConnectCommand::Pending),
        (ConnectState::Connected { .. }, _) => (state, ConnectCommand::Stop),
        (ConnectState::Failed { .. }, _) => (state, ConnectCommand::Stop),
    }
}

/// The state after a sequence of events, and the commands given on the way.
pub open spec fn connect_run(state: ConnectState, events: Seq<ConnectEvent>) -> (
    ConnectState,
    Seq<ConnectCommand>,
)
    decreases events.len(),
{
    if events.len() == 0 {
        (state, Seq::empty())
    } else {
        let (next, command) = connect_step(state, events[0]);
        let (last, commands) = connect_run(next, events.drop_first());
        (last, seq![command] + commands)
    }
}

/// The seconds of waiting that the commands ask for, all together.
pub open spec fn wait_total(commands: Seq<ConnectCommand>) -> nat
    decreases commands.len(),
{
    if commands.len() == 0 {
        0
    } else {
        let rest = wait_total(commands.drop_first());
        match commands[0] {
            ConnectCommand::Wait(secs) => secs as nat + rest,
            _ => rest,
        }
    }
}

/// The number of attempts that the commands ask for.
pub open spec fn attempts_asked(commands: Seq<ConnectCommand>) -> nat
    decreases commands.len(),
{
    if commands.len() == 0 {
        0
    } else {
        let rest = attempts_asked(commands.drop_first());
        match commands[0] {
            ConnectCommand::Attempt => 1 + rest,
            _ => rest,
        }
    }
}

impl ConnectState {
    /// The attempt number is one that the policy allows.
    pub open spec fn wf(self) -> bool {
        match self {
            ConnectState::Attempting { attempt } => 1 <= attempt <= MAX_ATTEMPTS,
            ConnectState::Waiting { attempt } => 1 <= attempt < MAX_ATTEMPTS,
            ConnectState::Connected { attempts } => 1 <= attempts <= MAX_ATTEMPTS,
            ConnectState::Failed { .. } => true,
        }
    }

    /// Whether nothing more will be done.
    pub open spec fn is_final(self) -> bool {
        self is Connected || self is Failed
    }

    /// The attempts that were begun up to this state.
    pub open spec fn attempts_begun(self) -> nat {
        match self {
            ConnectState::Attempting { attempt } => attempt as nat,
            ConnectState::Waiting { attempt } => attempt as nat,
            ConnectState::Connected { attempts } => attempts as nat,
            ConnectState::Failed { .. } => MAX_ATTEMPTS as nat,
        }
    }

    /// The seconds of waiting that were asked for up to this state.
    pub open spec fn waits_begun(self) -> nat {
        match self {
            ConnectState::Attempting { attempt } => (pow2(attempt as nat) - 2) as nat,
            ConnectState::Waiting { attempt } => (pow2((attempt + 1) as nat) - 2) as nat,
            ConnectState::Connected { attempts } => (pow2(attempts as nat) - 2) as nat,
            ConnectState::Failed { .. } => (pow2(MAX_ATTEMPTS as nat) - 2) as nat,
        }
    }

    /// The state in which the first attempt is under way. The driver begins
    /// with an attempt.
    pub fn start() -> (state: ConnectState)
        ensures
            state == (ConnectState::Attempting { attempt: 1 }),
            state.wf(),
    {
        ConnectState::Attempting { attempt: 1 }
    }

    /// Whether the connection is established or given up.
    pub fn finished(&self) -> (r: bool)
        ensures
            r == self.is_final(),
    {
        match self {
            ConnectState::Connected { .. } => true,
            ConnectState::Failed { .. } => true,
            _ => false,
        }
    }

    /// Takes one event and says what to do next.
    pub fn step(self, event: ConnectEvent) -> (r: (ConnectState, ConnectCommand))
        requires
            self.wf(),
        ensures
            r == connect_step(self, event),
            r.0.wf(),
    {
        match self {
            ConnectState::Attempting { attempt } => match event {
                ConnectEvent::Succeeded => (
                    ConnectState::Connected { attempts: attempt },
                    ConnectCommand::Stop,
                ),
                ConnectEvent::Failed(error) => if attempt < MAX_ATTEMPTS {
                    (ConnectState::Waiting { attempt }, ConnectCommand::Wait(backoff(attempt)))
                } else {
                    (ConnectState::Failed { error }, ConnectCommand::Stop)
                },
                ConnectEvent::Waited => (
                    ConnectState::Attempting { attempt },
                    ConnectCommand::Pending,
                ),
            },
            ConnectState::Waiting { attempt } => match event {
                ConnectEvent::Waited => (
                    ConnectState::Attempting { attempt: attempt + 1 },
                    ConnectCommand::Attempt,
                ),
                _ => (ConnectState::Waiting { attempt }, ConnectCommand::Pending),
            },
            ConnectState::Connected { attempts } => (
                ConnectState::Connected { attempts },
                ConnectCommand::Stop,
            ),
            ConnectState::Failed { error } => (ConnectState::Failed { error }, ConnectCommand::Stop),
        }
    }
}

/// The seconds to wait after the failure of attempt number `attempt`.
pub fn backoff(attempt: u32) -> (secs: u64)
    requires
        attempt < 64,
    ensures
        secs == backoff_secs(attempt as nat),
{
    let mut secs: u64 = 1;
    let mut i: u32 = 0;
    proof {
        lemma2_to64();
    }
    while i < attempt
        invariant
            i <= attempt < 64,
            secs == pow2(i as nat),
        decreases attempt - i,
    {
        proof {
            lemma_pow2_unfold((i + 1) as nat);
            lemma_pow2_bound(i as nat);
        }
        secs = secs * 2;
        i += 1;
    }
    secs
}

/// Powers of two below the 63rd fit in 63 bits.
proof fn lemma_pow2_bound(e: nat)
    requires
        e < 63,
    ensures
        pow2(e) <= 0x4000_0000_0000_0000,
{
    vstd::arithmetic::power2::lemma2_to64_rest();
    lemma2_to64();
    if e < 62 {
        vstd::arithmetic::power2::lemma_pow2_strictly_increases(e, 62);
    }
}

/// Whatever the driver reports, and in whatever order: the attempts that the
/// policy asks for, the first included, are three at most, the waits it asks
/// for are `2^k` seconds after the failure of attempt `k`, and it gives up
/// only after the third failure, having asked for 2 + 4 seconds of waiting.
pub proof fn law_attempts_and_waits(events: Seq<ConnectEvent>)
    ensures
        ({
            let (last, commands) = connect_run(ConnectState::Attempting { attempt: 1 }, events);
            &&& last.wf()
            &&& 1 + attempts_asked(commands) == last.attempts_begun()
            &&& 1 + attempts_asked(commands) <= MAX_ATTEMPTS
            &&& wait_total(commands) == last.waits_begun()
            &&& wait_total(commands) <= 6
            &&& last is Failed ==> 1 + attempts_asked(commands) == 3 && wait_total(commands) == 6
        }),
{
    lemma2_to64();
    lemma_run_accounts(ConnectState::Attempting { attempt: 1 }, events);
}

/// Two failures and a success: three attempts, 2 + 4 seconds of waiting, and
/// an established connection.
pub proof fn law_third_attempt_succeeds(first: ConnectionError, second: ConnectionError)
    ensures
        ({
            let events = seq![
                ConnectEvent::Failed(first),
                ConnectEvent::Waited,
                ConnectEvent::Failed(second),
                ConnectEvent::Waited,
                ConnectEvent::Succeeded,
            ];
            let (last, commands) = connect_run(ConnectState::Attempting { attempt: 1 }, events);
            &&& last == (ConnectState::Connected { attempts: 3 })
            &&& commands == seq![
                ConnectCommand::Wait(2),
                ConnectCommand::Attempt,
                ConnectCommand::Wait(4),
                ConnectCommand::Attempt,
                ConnectCommand::Stop,
            ]
            &&& 1 + attempts_asked(commands) == 3
            &&& wait_total(commands) == 6
        }),
{
    let events = seq![
        ConnectEvent::Failed(first),
        ConnectEvent::Waited,
        ConnectEvent::Failed(second),
        ConnectEvent::Waited,
        ConnectEvent::Succeeded,
    ];
    lemma2_to64();
    reveal_with_fuel(connect_run, 6);
    let e1 = events.drop_first();
    let e2 = e1.drop_first();
    let e3 = e2.drop_first();
    let e4 = e3.drop_first();
    let e5 = e4.drop_first();
    assert(e5.len() == 0);
    let (last, commands) = connect_run(ConnectState::Attempting { attempt: 1 }, events);
    assert(commands =~= seq![
        ConnectCommand::Wait(2),
        ConnectCommand::Attempt,
        ConnectCommand::Wait(4),
        ConnectCommand::Attempt,
        ConnectCommand::Stop,
    ]);
    law_attempts_and_waits(events);
}

/// Three failures: the policy gives up with the error of the third attempt,
/// after three attempts and 2 + 4 seconds of waiting, none of it after the
/// last failure.
pub proof fn law_three_failures(
    first: ConnectionError,
    second: ConnectionError,
    third: ConnectionError,
)
    ensures
        ({
            let events = seq![
                ConnectEvent::Failed(first),
                ConnectEvent::Waited,
                ConnectEvent::Failed(second),
                ConnectEvent::Waited,
                ConnectEvent::Failed(third),
            ];
            let (last, commands) = connect_run(ConnectState::Attempting { attempt: 1 }, events);
            &&& last == (ConnectState::Failed { error: third })
            &&& commands == seq![
                ConnectCommand::Wait(2),
                ConnectCommand::Attempt,
                ConnectCommand::Wait(4),
                ConnectCommand::Attempt,
                ConnectCommand::Stop,
            ]
            &&& 1 + attempts_asked(commands) == 3
            &&& wait_total(commands) == 6
        }),
{
    let events = seq![
        ConnectEvent::Failed(first),
        ConnectEvent::Waited,
        ConnectEvent::Failed(second),
        ConnectEvent::Waited,
        ConnectEvent::Failed(third),
    ];
    lemma2_to64();
    reveal_with_fuel(connect_run, 6);
    let e1 = events.drop_first();
    let e2 = e1.drop_first();
    let e3 = e2.drop_first();
    let e4 = e3.drop_first();
    let e5 = e4.drop_first();
    assert(e5.len() == 0);
    let (last, commands) = connect_run(ConnectState::Attempting { attempt: 1 }, events);
    assert(commands =~= seq![
        ConnectCommand::Wait(2),
        ConnectCommand::Attempt,
        ConnectCommand::Wait(4),
        ConnectCommand::Attempt,
        ConnectCommand::Stop,
    ]);
    law_attempts_and_waits(events);
}

/// A run adds the attempts and the waits it asks for to those already begun.
proof fn lemma_run_accounts(state: ConnectState, events: Seq<ConnectEvent>)
    requires
        state.wf(),
    ensures
        ({
            let (last, commands) = connect_run(state, events);
            &&& last.wf()
            &&& last.attempts_begun() == state.attempts_begun() + attempts_asked(commands)
            &&& last.waits_begun() == state.waits_begun() + wait_total(commands)
        }),
    decreases events.len(),
{
    lemma2_to64();
    if events.len() > 0 {
        let (next, command) = connect_step(state, events[0]);
        let (last, commands) = connect_run(next, events.drop_first());
        lemma_run_accounts(next, events.drop_first());
        let all = seq![command] + commands;
        assert(all.drop_first() =~= commands);
        assert(all[0] == command);
    }
}

} // verus!
