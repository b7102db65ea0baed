//! One folder's session: connect, select the folder, list its messages,
//! fetch the most recent ones, log out.
//!
//! A message that cannot be fetched, or comes without a body, is passed
//! over. A failure to connect, select or list ends the session without
//! records. The result of the logout is ignored.

use crate::models::email::contents_of;
use crate::models::email::Email;
use crate::models::email::EmailContent;
use crate::services::connection::connect_step;
use crate::services::connection::ConnectCommand;
use crate::services::connection::ConnectEvent;
use crate::services::connection::ConnectRequest;
use crate::services::connection::ConnectState;
use crate::services::message_parser::parse_message;
use crate::services::message_parser::parsed_raw;
use crate::services::protocol::connect_event;
use crate::services::protocol::SyncCommand;
use crate::services::protocol::SyncError;
use crate::services::protocol::SyncEvent;
use vstd::prelude::*;
use vstd::seq_lib::to_multiset_build;
use vstd::seq_lib::to_multiset_insert;

verus! {

/// Where a folder's session stands.
#[derive(Debug, Clone)]
pub enum SessionPhase {
    /// The connection is being made.
    Connecting(ConnectState),
    /// The folder is being selected.
    Selecting,
    /// The folder's messages are being listed.
    Listing,
    /// The message `ids[next]` is being fetched; those before it are done.
    Fetching { ids: Vec<u32>, next: usize },
    /// The logout is under way.
    LoggingOut,
    /// The session is over.
    Done,
}

/// The session of one folder.
#[derive(Debug, Clone)]
pub struct FolderSession {
    pub folder: String,
    pub limit: usize,
    pub own_address: String,
    pub request: ConnectRequest,
    pub phase: SessionPhase,
    pub records: Vec<Email>,
    pub failure: Option<SyncError>,
}

/// No identifier is followed by a smaller one.
pub open spec fn is_ascending(ids: Seq<u32>) -> bool {
    forall|i: int, j: int| 0 <= i < j < ids.len() ==> ids[i] <= ids[j]
}

/// The identifiers in ascending order.
pub open spec fn ascending(ids: Seq<u32>) -> Seq<u32> {
    ids.sort_by(|a: u32, b: u32| a <= b)
}

/// `ascending` gives the one ascending sequence that holds each identifier
/// as often as `ids` does.
pub proof fn lemma_ascending(ids: Seq<u32>)
    ensures
        is_ascending(ascending(ids)),
        ascending(ids).to_multiset() == ids.to_multiset(),
        ascending(ids).len() == ids.len(),
        forall|other: Seq<u32>|
            is_ascending(other) && other.to_multiset() == ids.to_multiset() ==> other
                == ascending(ids),
{
    let leq = |a: u32, b: u32| a <= b;
    assert(vstd::relations::total_ordering(leq));
    ids.lemma_sort_by_ensures(leq);
    let sorted = ascending(ids);
    vstd::seq_lib::to_multiset_len(sorted);
    vstd::seq_lib::to_multiset_len(ids);
    assert(is_ascending(sorted)) by {
        assert forall|i: int, j: int| 0 <= i < j < sorted.len() implies sorted[i] <= sorted[j] by {
            assert(leq(sorted[i], sorted[j]));
        }
    }
    assert forall|other: Seq<u32>|
        is_ascending(other) && other.to_multiset() == ids.to_multiset() implies other
        == sorted by {
        assert(vstd::relations::sorted_by(other, leq));
        vstd::seq_lib::lemma_sorted_unique(other, sorted, leq);
    }
}

/// The last `limit` of the identifiers, or all where they are fewer.
pub open spec fn recent(ids: Seq<u32>, limit: nat) -> Seq<u32> {
    if ids.len() > limit {
        ids.skip(ids.len() - limit)
    } else {
        ids
    }
}

/// The contents of the records that the fetched bodies give, in their
/// order; an entry without a body gives none.
pub open spec fn parsed_bodies(bodies: Seq<Option<Vec<u8>>>, own: Seq<char>) -> Seq<EmailContent>
    decreases bodies.len(),
{
    if bodies.len() == 0 {
        Seq::empty()
    } else {
        let before = parsed_bodies(bodies.drop_last(), own);
        match bodies.last() {
            Some(raw) => before.push(parsed_raw(raw@, own)),
            None => before,
        }
    }
}

/// The identifiers in ascending order.
pub fn sorted_ids(ids: &Vec<u32>) -> (sorted: Vec<u32>)
    ensures
        sorted@ == ascending(ids@),
{
    let mut sorted: Vec<u32> = Vec::new();
    let mut i: usize = 0;
    assert(ids@.take(0) =~= Seq::<u32>::empty());
    while i < ids.len()
        invariant
            i <= ids.len(),
            is_ascending(sorted@),
            sorted@.to_multiset() == ids@.take(i as int).to_multiset(),
        decreases ids.len() - i,
    {
        let x = ids[i];
        let mut at: usize = 0;
        while at < sorted.len() && sorted[at] <= x
            invariant
                at <= sorted.len(),
                forall|k: int| 0 <= k < at ==> sorted@[k] <= x,
            decreases sorted.len() - at,
        {
            at += 1;
        }
        let ghost before = sorted@;
        sorted.insert(at, x);
        proof {
            to_multiset_insert(before, at as int, x);
            assert(ids@.take(i + 1) =~= ids@.take(i as int).push(x));
            to_multiset_build(ids@.take(i as int), x);
            assert forall|a: int, b: int| 0 <= a < b < sorted@.len() implies sorted@[a]
                <= sorted@[b] by {
                if a < at && b > at {
                    assert(sorted@[b] == before[b - 1]);
                    if at < before.len() {
                        assert(before[at as int] <= before[b - 1]);
                    }
                } else if a >= at && a > at {
                    assert(sorted@[a] == before[a - 1] && sorted@[b] == before[b - 1]);
                } else if a == at {
                    assert(sorted@[b] == before[b - 1]);
                    assert(before[at as int] <= before[b - 1]);
                }
            }
        }
        i += 1;
    }
    proof {
        assert(ids@.take(ids.len() as int) =~= ids@);
        lemma_ascending(ids@);
    }
    sorted
}

/// The `limit` greatest of the identifiers in ascending order, or all of
/// them where they are fewer.
pub fn select_recent(ids: &Vec<u32>, limit: usize) -> (chosen: Vec<u32>)
    ensures
        chosen@ == recent(ascending(ids@), limit as nat),
{
    let sorted = sorted_ids(ids);
    let start: usize = if sorted.len() > limit {
        sorted.len() - limit
    } else {
        0
    };
    let mut chosen: Vec<u32> = Vec::new();
    let mut i: usize = start;
    while i < sorted.len()
        invariant
            start <= i <= sorted.len(),
            chosen@ == sorted@.subrange(start as int, i as int),
        decreases sorted.len() - i,
    {
        chosen.push(sorted[i]);
        i += 1;
    }
    assert(chosen@ == recent(sorted@, limit as nat)) by {
        assert(sorted@.subrange(start as int, sorted.len() as int) =~= sorted@.skip(start as int));
        assert(sorted@.skip(0) =~= sorted@);
    }
    chosen
}

/// Whether `after` holds the records of `before` as they were, in their
/// places, and behind them only records as they leave the parser.
pub open spec fn grown_from(after: Seq<Email>, before: Seq<Email>) -> bool {
    &&& before.len() <= after.len()
    &&& forall|i: int| 0 <= i < before.len() ==> after[i] == before[i]
    &&& forall|i: int| before.len() <= i < after.len() ==> (#[trigger] after[i]).is_fresh()
}

/// Parses the bodies that came and appends the records.
fn append_parsed(records: &mut Vec<Email>, bodies: &Vec<Option<Vec<u8>>>, own: &str)
    ensures
        contents_of(final(records)@) == contents_of(old(records)@) + parsed_bodies(bodies@, own@),
        grown_from(final(records)@, old(records)@),
{
    let mut i: usize = 0;
    assert(bodies@.take(0) =~= Seq::<Option<Vec<u8>>>::empty());
    assert(contents_of(records@) + parsed_bodies(bodies@.take(0), own@) =~= contents_of(records@));
    while i < bodies.len()
        invariant
            i <= bodies.len(),
            contents_of(records@) == contents_of(old(records)@) + parsed_bodies(
                bodies@.take(i as int),
                own@,
            ),
            grown_from(records@, old(records)@),
        decreases bodies.len() - i,
    {
        let ghost before = records@;
        proof {
            let upto = bodies@.take(i + 1);
            assert(upto.drop_last() =~= bodies@.take(i as int));
            assert(upto.last() == bodies@[i as int]);
        }
        match &bodies[i] {
            Some(raw) => {
                let email = parse_message(raw.as_slice(), own);
                records.push(email);
                assert(contents_of(records@) =~= contents_of(before).push(email.content()));
                assert(contents_of(records@) =~= contents_of(old(records)@) + parsed_bodies(
                    bodies@.take(i + 1),
                    own@,
                ));
            },
            None => {},
        }
        i += 1;
    }
    assert(bodies@.take(bodies.len() as int) =~= bodies@);
}

impl FolderSession {
    /// The states that a session passes through: a connection under way is
    /// not yet decided, the message being fetched is one of those chosen, and
    /// only a session that is over has failed.
    pub open spec fn wf(&self) -> bool {
        &&& match self.phase {
            SessionPhase::Connecting(state) => state.wf() && !state.is_final(),
            SessionPhase::Fetching { ids, next } => next < ids@.len(),
            _ => true,
        }
        &&& self.failure is Some ==> self.phase is Done
    }

    /// The contents of the records fetched so far.
    pub open spec fn contents(&self) -> Seq<EmailContent> {
        contents_of(self.records@)
    }

    /// Whether the session is over.
    pub open spec fn is_over(&self) -> bool {
        self.phase is Done
    }

    /// Both sessions are for the same folder, limit, account and server.
    pub open spec fn same_setting(&self, other: FolderSession) -> bool {
        &&& self.folder == other.folder
        &&& self.limit == other.limit
        &&& self.own_address == other.own_address
        &&& self.request == other.request
    }

    /// Records and failure are those of `pre`.
    pub open spec fn keeps(&self, pre: FolderSession) -> bool {
        self.records == pre.records && self.failure == pre.failure
    }

    /// Nothing differs from `pre`.
    pub open spec fn unchanged(&self, pre: FolderSession) -> bool {
        self.phase == pre.phase && self.keeps(pre)
    }

    /// The session is over with `error`, and its records are those of `pre`.
    pub open spec fn ended_with(&self, pre: FolderSession, error: SyncError) -> bool {
        self.phase is Done && self.records == pre.records && self.failure == Some(error)
    }

    /// After `ids[next]`: the next identifier is being fetched, or, after
    /// the last, the logout is under way.
    pub open spec fn advanced(&self, ids: Vec<u32>, next: usize, command: SyncCommand) -> bool {
        if next + 1 < ids@.len() {
            self.phase == (SessionPhase::Fetching { ids, next: (next + 1) as usize }) && command
                == SyncCommand::Fetch(ids@[next + 1])
        } else {
            self.phase is LoggingOut && command is Logout
        }
    }

    /// What an event of the connection policy leads to.
    pub open spec fn follows_connecting(
        &self,
        pre: FolderSession,
        state: ConnectState,
        event: ConnectEvent,
        command: SyncCommand,
    ) -> bool {
        let (next, order) = connect_step(state, event);
        match next {
            ConnectState::Connected { .. } => self.phase is Selecting && self.keeps(pre)
                && command == SyncCommand::Select(pre.folder),
            ConnectState::Failed { error } => self.ended_with(pre, SyncError::Connection(error))
                && command is Stop,
            _ => self.phase == SessionPhase::Connecting(next) && self.keeps(pre) && command
                == match order {
                ConnectCommand::Wait(secs) => SyncCommand::Wait(secs),
                ConnectCommand::Attempt => SyncCommand::Connect(pre.request),
                _ => SyncCommand::Pending,
            },
        }
    }

    /// Whether the session `pre`, on `event`, becomes `self` and gives
    /// `command`.
    pub open spec fn follows(&self, pre: FolderSession, event: SyncEvent, command: SyncCommand) -> bool {
        &&& self.same_setting(pre)
        &&& match pre.phase {
            SessionPhase::Connecting(state) => match connect_event(event) {
                Some(e) => self.follows_connecting(pre, state, e, command),
                None => self.unchanged(pre) && command is Pending,
            },
            SessionPhase::Selecting => match event {
                SyncEvent::Selected => self.phase is Listing && self.keeps(pre) && command is List,
                SyncEvent::SelectFailed(reason) => self.ended_with(pre, SyncError::Select(reason))
                    && command is Stop,
                _ => self.unchanged(pre) && command is Pending,
            },
            SessionPhase::Listing => match event {
                SyncEvent::Listed(listed) => {
                    let chosen = recent(ascending(listed@), pre.limit as nat);
                    &&& self.keeps(pre)
                    &&& if chosen.len() == 0 {
                        self.phase is LoggingOut && command is Logout
                    } else {
                        &&& self.phase matches SessionPhase::Fetching { ids, next }
                        &&& ids@ == chosen
                        &&& next == 0
                        &&& command == SyncCommand::Fetch(chosen[0])
                    }
                },
                SyncEvent::ListFailed(reason) => self.ended_with(pre, SyncError::Fetch(reason))
                    && command is Stop,
                _ => self.unchanged(pre) && command is Pending,
            },
            SessionPhase::Fetching { ids, next } => match event {
                SyncEvent::Fetched(bodies) => {
                    &&& self.contents() == pre.contents() + parsed_bodies(
                        bodies@,
                        pre.own_address@,
                    )
                    &&& grown_from(self.records@, pre.records@)
                    &&& self.failure == pre.failure
                    &&& self.advanced(ids, next, command)
                },
                SyncEvent::FetchFailed(_) => self.keeps(pre) && self.advanced(ids, next, command),
                _ => self.unchanged(pre) && command is Pending,
            },
            SessionPhase::LoggingOut => match event {
                SyncEvent::LoggedOut => self.phase is Done && self.keeps(pre) && command is Stop,
                SyncEvent::LogoutFailed(_) => self.phase is Done && self.keeps(pre)
                    && command is Stop,
                _ => self.unchanged(pre) && command is Pending,
            },
            SessionPhase::Done => self.unchanged(pre) && command is Stop,
        }
    }

    /// A session for `folder` that is to fetch `limit` messages at most. The
    /// driver begins by connecting.
    pub fn begin(folder: String, limit: usize, own_address: String, request: ConnectRequest) -> (r: (
        FolderSession,
        SyncCommand,
    ))
        ensures
            r.0.wf(),
            r.0.folder == folder,
            r.0.limit == limit,
            r.0.own_address == own_address,
            r.0.request == request,
            r.0.phase == SessionPhase::Connecting(ConnectState::Attempting { attempt: 1 }),
            r.0.records@.len() == 0,
            r.0.failure is None,
            r.1 == SyncCommand::Connect(request),
    {
        let command = SyncCommand::Connect(request.duplicate());
        (
            FolderSession {
                folder,
                limit,
                own_address,
                request,
                phase: SessionPhase::Connecting(ConnectState::start()),
                records: Vec::new(),
                failure: None,
            },
            command,
        )
    }

    /// Whether the session is over.
    pub fn finished(&self) -> (r: bool)
        ensures
            r == self.is_over(),
    {
        match self.phase {
            SessionPhase::Done => true,
            _ => false,
        }
    }

    fn after(self, ids: Vec<u32>, next: usize) -> (r: (FolderSession, SyncCommand))
        requires
            next < ids@.len(),
            self.failure is None,
        ensures
            r.0.wf(),
            r.0.same_setting(self),
            r.0.keeps(self),
            r.0.advanced(ids, next, r.1),
    {
        let FolderSession { folder, limit, own_address, request, phase: _, records, failure } =
            self;
        assert(next < ids.len());
        if next + 1 < ids.len() {
            let id = ids[next + 1];
            (
                FolderSession {
                    folder,
                    limit,
                    own_address,
                    request,
                    phase: SessionPhase::Fetching { ids, next: next + 1 },
                    records,
                    failure,
                },
                SyncCommand::Fetch(id),
            )
        } else {
            (
                FolderSession {
                    folder,
                    limit,
                    own_address,
                    request,
                    phase: SessionPhase::LoggingOut,
                    records,
                    failure,
                },
                SyncCommand::Logout,
            )
        }
    }

    fn connecting(self, state: ConnectState, event: ConnectEvent) -> (r: (
        FolderSession,
        SyncCommand,
    ))
        requires
            state.wf(),
            !state.is_final(),
            self.failure is None,
        ensures
            r.0.wf(),
            r.0.same_setting(self),
            r.0.follows_connecting(self, state, event, r.1),
    {
        let FolderSession { folder, limit, own_address, request, phase: _, records, failure } =
            self;
        let (next, order) = state.step(event);
        match next {
            ConnectState::Connected { attempts } => {
                let command = SyncCommand::Select(folder.clone());
                (
                    FolderSession {
                        folder,
                        limit,
                        own_address,
                        request,
                        phase: SessionPhase::Selecting,
                        records,
                        failure,
                    },
                    command,
                )
            },
            ConnectState::Failed { error } => (
                FolderSession {
                    folder,
                    limit,
                    own_address,
                    request,
                    phase: SessionPhase::Done,
                    records,
                    failure: Some(SyncError::Connection(error)),
                },
                SyncCommand::Stop,
            ),
            next => {
                let command = match order {
                    ConnectCommand::Wait(secs) => SyncCommand::Wait(secs),
                    ConnectCommand::Attempt => SyncCommand::Connect(request.duplicate()),
                    _ => SyncCommand::Pending,
                };
                (
                    FolderSession {
                        folder,
                        limit,
                        own_address,
                        request,
                        phase: SessionPhase::Connecting(next),
                        records,
                        failure,
                    },
                    command,
                )
            },
        }
    }

    fn ended(self, error: SyncError) -> (r: (FolderSession, SyncCommand))
        ensures
            r.0.wf(),
            r.0.same_setting(self),
            r.0.ended_with(self, error),
            r.1 is Stop,
    {
        let FolderSession { folder, limit, own_address, request, phase: _, records, failure: _ } =
            self;
        (
            FolderSession {
                folder,
                limit,
                own_address,
                request,
                phase: SessionPhase::Done,
                records,
                failure: Some(error),
            },
            SyncCommand::Stop,
        )
    }

    fn moved_to(self, phase: SessionPhase, command: SyncCommand) -> (r: (
        FolderSession,
        SyncCommand,
    ))
        ensures
            r.0.same_setting(self),
            r.0.keeps(self),
            r.0.phase == phase,
            r.1 == command,
    {
        let FolderSession { folder, limit, own_address, request, phase: _, records, failure } =
            self;
        (FolderSession { folder, limit, own_address, request, phase, records, failure }, command)
    }

    /// Takes one event and says what to do next.
    pub fn step(self, event: SyncEvent) -> (r: (FolderSession, SyncCommand))
        requires
            self.wf(),
        ensures
            r.0.wf(),
            r.0.follows(self, event, r.1),
    {
        let FolderSession { folder, limit, own_address, request, phase, records, failure } = self;
        let rest = FolderSession {
            folder,
            limit,
            own_address,
            request,
            phase: SessionPhase::Done,
            records,
            failure,
        };
        match phase {
            SessionPhase::Connecting(state) => match event {
                SyncEvent::Connected => rest.connecting(state, ConnectEvent::Succeeded),
                SyncEvent::ConnectFailed(error) => rest.connecting(
                    state,
                    ConnectEvent::Failed(error),
                ),
                SyncEvent::Waited => rest.connecting(state, ConnectEvent::Waited),
                _ => rest.moved_to(SessionPhase::Connecting(state), SyncCommand::Pending),
            },
            SessionPhase::Selecting => match event {
                SyncEvent::Selected => rest.moved_to(SessionPhase::Listing, SyncCommand::List),
                SyncEvent::SelectFailed(reason) => rest.ended(SyncError::Select(reason)),
                _ => rest.moved_to(SessionPhase::Selecting, SyncCommand::Pending),
            },
            SessionPhase::Listing => match event {
                SyncEvent::Listed(listed) => {
                    let chosen = select_recent(&listed, limit);
                    if chosen.len() == 0 {
                        rest.moved_to(SessionPhase::LoggingOut, SyncCommand::Logout)
                    } else {
                        let id = chosen[0];
                        rest.moved_to(
                            SessionPhase::Fetching { ids: chosen, next: 0 },
                            SyncCommand::Fetch(id),
                        )
                    }
                },
                SyncEvent::ListFailed(reason) => rest.ended(SyncError::Fetch(reason)),
                _ => rest.moved_to(SessionPhase::Listing, SyncCommand::Pending),
            },
            SessionPhase::Fetching { ids, next } => match event {
                SyncEvent::Fetched(bodies) => {
                    let mut grown = rest;
                    append_parsed(&mut grown.records, &bodies, grown.own_address.as_str());
                    grown.after(ids, next)
                },
                SyncEvent::FetchFailed(_) => rest.after(ids, next),
                _ => rest.moved_to(SessionPhase::Fetching { ids, next }, SyncCommand::Pending),
            },
            SessionPhase::LoggingOut => match event {
                SyncEvent::LoggedOut => rest.moved_to(SessionPhase::Done, SyncCommand::Stop),
                SyncEvent::LogoutFailed(_) => rest.moved_to(SessionPhase::Done, SyncCommand::Stop),
                _ => rest.moved_to(SessionPhase::LoggingOut, SyncCommand::Pending),
            },
            SessionPhase::Done => rest.moved_to(SessionPhase::Done, SyncCommand::Stop),
        }
    }
}

/// The identifiers chosen are the greatest: as many as the limit allows,
/// in ascending order, and none of those left out is greater than one that
/// was chosen.
pub proof fn law_most_recent(ids: Seq<u32>, limit: nat)
    ensures
        ({
            let sorted = ascending(ids);
            let chosen = recent(sorted, limit);
            &&& chosen.len() == if ids.len() > limit {
                limit
            } else {
                ids.len()
            }
            &&& is_ascending(chosen)
            &&& chosen.is_suffix_of(sorted)
            &&& forall|i: int, j: int|
                0 <= i < sorted.len() - chosen.len() && 0 <= j < chosen.len() ==> sorted[i]
                    <= chosen[j]
        }),
{
    lemma_ascending(ids);
    let sorted = ascending(ids);
    let chosen = recent(sorted, limit);
    assert(chosen =~= sorted.skip(sorted.len() - chosen.len()));
}

/// A message that cannot be fetched is passed over: the records and the
/// session go on as they are, with the next message or the logout.
pub proof fn law_failed_fetch(
    pre: FolderSession,
    reason: String,
    post: FolderSession,
    command: SyncCommand,
)
    requires
        pre.wf(),
        pre.phase is Fetching,
        post.follows(pre, SyncEvent::FetchFailed(reason), command),
    ensures
        post.records == pre.records,
        post.failure is None,
        !post.is_over(),
        command is Fetch || command is Logout,
{
}

/// The logout ends the session without a failure, whatever it gives.
pub proof fn law_logout_ignored(
    pre: FolderSession,
    reason: String,
    done: FolderSession,
    failed: FolderSession,
    command: SyncCommand,
    other: SyncCommand,
)
    requires
        pre.wf(),
        pre.phase is LoggingOut,
        done.follows(pre, SyncEvent::LoggedOut, command),
        failed.follows(pre, SyncEvent::LogoutFailed(reason), other),
    ensures
        done.is_over() && failed.is_over(),
        done.records == pre.records && failed.records == pre.records,
        done.failure is None && failed.failure is None,
{
}

/// Whether the session `pre` becomes `post` when the driver reports the
/// events one after the other.
pub open spec fn reaches(pre: FolderSession, events: Seq<SyncEvent>, post: FolderSession) -> bool
    decreases events.len(),
{
    if events.len() == 0 {
        post == pre
    } else {
        exists|mid: FolderSession, command: SyncCommand|
            #[trigger] mid.follows(pre, events[0], command) && mid.wf() && reaches(
                mid,
                events.drop_first(),
                post,
            )
    }
}

/// The events that report the batches fetched, one event for each.
pub open spec fn fetched(batches: Seq<Vec<Option<Vec<u8>>>>) -> Seq<SyncEvent> {
    batches.map_values(|b: Vec<Option<Vec<u8>>>| SyncEvent::Fetched(b))
}

/// The contents of the records that the batches give, in their order.
pub open spec fn all_parsed(batches: Seq<Vec<Option<Vec<u8>>>>, own: Seq<char>) -> Seq<EmailContent>
    decreases batches.len(),
{
    if batches.len() == 0 {
        Seq::empty()
    } else {
        parsed_bodies(batches[0]@, own) + all_parsed(batches.drop_first(), own)
    }
}

/// A run over two sequences of events passes through a session between
/// them.
pub proof fn lemma_reaches_split(
    pre: FolderSession,
    first: Seq<SyncEvent>,
    second: Seq<SyncEvent>,
    post: FolderSession,
)
    requires
        pre.wf(),
        reaches(pre, first + second, post),
    ensures
        exists|mid: FolderSession|
            #[trigger] reaches(pre, first, mid) && mid.wf() && reaches(mid, second, post),
    decreases first.len(),
{
    if first.len() == 0 {
        assert(first + second =~= second);
        assert(reaches(pre, first, pre));
    } else {
        let events = first + second;
        assert(events[0] == first[0]);
        assert(events.drop_first() =~= first.drop_first() + second);
        let (next, command) = choose|next: FolderSession, command: SyncCommand|
            #[trigger] next.follows(pre, events[0], command) && next.wf() && reaches(
                next,
                events.drop_first(),
                post,
            );
        lemma_reaches_split(next, first.drop_first(), second, post);
        let mid = choose|mid: FolderSession|
            #[trigger] reaches(next, first.drop_first(), mid) && mid.wf() && reaches(
                mid,
                second,
                post,
            );
        assert(next.follows(pre, first[0], command));
        assert(reaches(pre, first, mid));
    }
}

/// When the driver answers each fetch that is left with a batch, the
/// session comes to its logout with the records of all batches, in their
/// order, after those it had.
pub proof fn lemma_fetch_run(
    pre: FolderSession,
    batches: Seq<Vec<Option<Vec<u8>>>>,
    post: FolderSession,
)
    requires
        pre.wf(),
        pre.phase matches SessionPhase::Fetching { ids, next } && batches.len() == ids@.len()
            - next,
        reaches(pre, fetched(batches), post),
    ensures
        post.phase is LoggingOut,
        post.failure is None,
        post.same_setting(pre),
        post.contents() == pre.contents() + all_parsed(batches, pre.own_address@),
        grown_from(post.records@, pre.records@),
    decreases batches.len(),
{
    let events = fetched(batches);
    assert(events[0] == SyncEvent::Fetched(batches[0]));
    assert(events.drop_first() =~= fetched(batches.drop_first()));
    let (mid, command) = choose|mid: FolderSession, command: SyncCommand|
        #[trigger] mid.follows(pre, events[0], command) && mid.wf() && reaches(
            mid,
            events.drop_first(),
            post,
        );
    let own = pre.own_address@;
    assert(mid.follows(pre, SyncEvent::Fetched(batches[0]), command));
    match pre.phase {
        SessionPhase::Fetching { ids, next } => {
            assert(mid.advanced(ids, next, command));
            assert(ids@.len() == ids.len());
            if batches.len() > 1 {
                assert(next + 1 <= usize::MAX);
                assert(mid.phase == (SessionPhase::Fetching { ids, next: (next + 1) as usize }));
            }
        },
        _ => {},
    }
    if batches.len() > 1 {
        lemma_fetch_run(mid, batches.drop_first(), post);
        assert(post.contents() =~= pre.contents() + all_parsed(batches, own));
    } else {
        assert(batches.drop_first().len() == 0);
        assert(post == mid);
        assert(all_parsed(batches.drop_first(), own) =~= Seq::<EmailContent>::empty());
        assert(post.contents() =~= pre.contents() + all_parsed(batches, own));
    }
}

/// A session whose folder is listed, whose fetches are all answered, and
/// which is logged out, ends without a failure. It has fetched as many
/// messages as the limit allows, the most recent ones, and holds the
/// records of all of them after those it had, which are as they were.
pub proof fn law_session_fetches_recent(
    pre: FolderSession,
    listed: Vec<u32>,
    batches: Seq<Vec<Option<Vec<u8>>>>,
    post: FolderSession,
)
    requires
        pre.wf(),
        pre.phase is Listing,
        batches.len() == recent(ascending(listed@), pre.limit as nat).len(),
        reaches(
            pre,
            seq![SyncEvent::Listed(listed)] + fetched(batches) + seq![SyncEvent::LoggedOut],
            post,
        ),
    ensures
        post.is_over(),
        post.failure is None,
        post.contents() == pre.contents() + all_parsed(batches, pre.own_address@),
        grown_from(post.records@, pre.records@),
        batches.len() == if listed@.len() > pre.limit {
            pre.limit as nat
        } else {
            listed@.len()
        },
{
    law_most_recent(listed@, pre.limit as nat);
    let rest = fetched(batches) + seq![SyncEvent::LoggedOut];
    let events = seq![SyncEvent::Listed(listed)] + fetched(batches) + seq![SyncEvent::LoggedOut];
    assert(events[0] == SyncEvent::Listed(listed));
    assert(events.drop_first() =~= rest);
    let (mid, command) = choose|mid: FolderSession, command: SyncCommand|
        #[trigger] mid.follows(pre, events[0], command) && mid.wf() && reaches(
            mid,
            events.drop_first(),
            post,
        );
    lemma_reaches_split(mid, fetched(batches), seq![SyncEvent::LoggedOut], post);
    let last = choose|last: FolderSession|
        #[trigger] reaches(mid, fetched(batches), last) && last.wf() && reaches(
            last,
            seq![SyncEvent::LoggedOut],
            post,
        );
    let own = pre.own_address@;
    if batches.len() == 0 {
        assert(fetched(batches).len() == 0);
        assert(last == mid);
        assert(all_parsed(batches, own) =~= Seq::<EmailContent>::empty());
        assert(last.contents() =~= pre.contents() + all_parsed(batches, own));
    } else {
        lemma_fetch_run(mid, batches, last);
    }
    let closing = seq![SyncEvent::LoggedOut];
    assert(closing[0] == SyncEvent::LoggedOut);
    assert(closing.drop_first().len() == 0);
    let (done, order) = choose|done: FolderSession, order: SyncCommand|
        #[trigger] done.follows(last, closing[0], order) && done.wf() && reaches(
            done,
            closing.drop_first(),
            post,
        );
    assert(post == done);
}

} // verus!
