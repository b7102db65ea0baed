//! Synchronisation of one account: the folders are visited one after the
//! other, each in a session of its own, and what could be fetched is kept
//! beside a list of what could not.

use crate::ids::ID_LENGTH;
use crate::models::email::Email;
use crate::models::email::EmailContent;
use crate::models::email::EmailRecord;
use crate::models::email::records_of;
use crate::models::email_provider::EmailAccount;
use crate::models::email_provider::EmailProvider;
use crate::services::connection::ATTEMPT_TIMEOUT_SECS;
use crate::services::connection::ConnectRequest;
use crate::services::connection::ConnectState;
use crate::services::connection_test::ConnectionTest;
use crate::services::connection_test::TestPhase;
use crate::services::crypto_service::CryptoError;
use crate::services::crypto_service::CryptoService;
use crate::services::crypto_service::decrypted;
use crate::services::folder_session::FolderSession;
use crate::services::folder_session::SessionPhase;
use crate::services::message_parser::extract_address;
use crate::services::message_parser::extracted_address;
use crate::services::message_parser::parse_message;
use crate::services::message_parser::parsed_content;
use crate::services::message_parser::parsed_raw;
use crate::services::outgoing::check_mailbox;
use crate::services::outgoing::mailbox_accepted;
use crate::services::outgoing::refusal;
use crate::services::outgoing::SendError;
use crate::services::outgoing::SendRequest;
use crate::services::protocol::SyncCommand;
use crate::services::protocol::SyncError;
use crate::services::protocol::SyncEvent;
use crate::text::same_text;
use vstd::prelude::*;

verus! {

/// The category under which the records of one folder are filed.
#[derive(Debug, Clone)]
pub struct FolderCategory {
    pub folder: String,
    pub category: String,
}

/// The categories of the folders, and the category of every other folder.
#[derive(Debug, Clone)]
pub struct CategoryMap {
    pub entries: Vec<FolderCategory>,
    pub fallback: String,
}

/// The category of `folder`: that of the first entry for it, else the
/// fallback.
pub open spec fn category_in(entries: Seq<FolderCategory>, fallback: Seq<char>, folder: Seq<char>) -> Seq<
    char,
>
    decreases entries.len(),
{
    if entries.len() == 0 {
        fallback
    } else if entries[0].folder@ == folder {
        entries[0].category@
    } else {
        category_in(entries.drop_first(), fallback, folder)
    }
}

/// The record filed under `category`: nothing else of it changes.
pub open spec fn refiled(record: EmailRecord, category: Seq<char>) -> EmailRecord {
    EmailRecord { content: EmailContent { category, ..record.content }, ..record }
}

/// The records, each filed under `category`.
pub open spec fn filed(records: Seq<EmailRecord>, category: Seq<char>) -> Seq<EmailRecord> {
    records.map_values(|r: EmailRecord| refiled(r, category))
}

/// Files every record under `category`. Identifier, timestamps and all
/// else of each record stay.
pub fn file_under(records: &mut Vec<Email>, category: &str)
    ensures
        final(records)@.len() == old(records)@.len(),
        records_of(final(records)@) == filed(records_of(old(records)@), category@),
{
    let mut i: usize = 0;
    while i < records.len()
        invariant
            i <= records.len(),
            records@.len() == old(records)@.len(),
            forall|k: int|
                0 <= k < i ==> (#[trigger] records@[k]).record() == refiled(
                    old(records)@[k].record(),
                    category@,
                ),
            forall|k: int| i <= k < records@.len() ==> records@[k] == old(records)@[k],
        decreases records.len() - i,
    {
        records[i].category = category.to_owned();
        i += 1;
    }
    assert(records_of(records@) =~= filed(records_of(old(records)@), category@));
}

impl CategoryMap {
    /// The category of `folder` under this map.
    pub open spec fn category_of(&self, folder: Seq<char>) -> Seq<char> {
        category_in(self.entries@, self.fallback@, folder)
    }

    /// Whether the map is the standard one: `INBOX`, `Sent` and `Drafts`
    /// with their categories, and one category for all other folders.
    pub open spec fn is_standard(&self) -> bool {
        &&& self.entries@.len() == 3
        &&& self.entries@[0].folder@ == "INBOX"@
        &&& self.entries@[0].category@ == "收件箱"@
        &&& self.entries@[1].folder@ == "Sent"@
        &&& self.entries@[1].category@ == "发件箱"@
        &&& self.entries@[2].folder@ == "Drafts"@
        &&& self.entries@[2].category@ == "草稿箱"@
        &&& self.fallback@ == "其他"@
    }

    /// The standard map.
    pub fn standard() -> (map: CategoryMap)
        ensures
            map.is_standard(),
    {
        let mut entries: Vec<FolderCategory> = Vec::new();
        entries.push(FolderCategory { folder: "INBOX".to_owned(), category: "收件箱".to_owned() });
        entries.push(FolderCategory { folder: "Sent".to_owned(), category: "发件箱".to_owned() });
        entries.push(FolderCategory { folder: "Drafts".to_owned(), category: "草稿箱".to_owned() });
        CategoryMap { entries, fallback: "其他".to_owned() }
    }

    /// The category of `folder`.
    pub fn category_for(&self, folder: &str) -> (category: String)
        ensures
            category@ == self.category_of(folder@),
    {
        let mut i: usize = 0;
        assert(self.entries@.skip(0) =~= self.entries@);
        while i < self.entries.len()
            invariant
                i <= self.entries.len(),
                self.category_of(folder@) == category_in(
                    self.entries@.skip(i as int),
                    self.fallback@,
                    folder@,
                ),
            decreases self.entries.len() - i,
        {
            let ghost rest = self.entries@.skip(i as int);
            assert(rest[0] == self.entries@[i as int]);
            assert(rest.drop_first() =~= self.entries@.skip(i + 1));
            if same_text(self.entries[i].folder.as_str(), folder) {
                return self.entries[i].category.clone();
            }
            i += 1;
        }
        self.fallback.clone()
    }
}

/// A folder that gave no records, and why.
#[derive(Debug, Clone, PartialEq, Eq)]
pub struct FolderFailure {
    pub folder: String,
    pub error: SyncError,
}

/// What one synchronisation gave: the records of the folders that could be
/// read, and the folders that could not, each in the order of the folders.
#[derive(Debug, Clone)]
pub struct SyncOutcome {
    pub records: Vec<Email>,
    pub failures: Vec<FolderFailure>,
}

/// An outcome, as the contracts speak of it.
pub struct Summary {
    pub records: Seq<EmailRecord>,
    pub failures: Seq<FolderFailure>,
}

/// The summary after one more folder: a folder that failed adds its failure
/// and leaves the records as they are; a folder that was read adds its
/// records, filed under its category, and leaves the failures as they are.
pub open spec fn with_folder(
    before: Summary,
    folder: String,
    records: Seq<EmailRecord>,
    failure: Option<SyncError>,
    category: Seq<char>,
) -> Summary {
    match failure {
        Some(error) => Summary {
            records: before.records,
            failures: before.failures.push(FolderFailure { folder, error }),
        },
        None => Summary {
            records: before.records + filed(records, category),
            failures: before.failures,
        },
    }
}

impl SyncOutcome {
    /// The outcome's summary.
    pub open spec fn summary(&self) -> Summary {
        Summary { records: records_of(self.records@), failures: self.failures@ }
    }

    /// The outcome of no folder.
    pub fn new() -> (outcome: SyncOutcome)
        ensures
            outcome.summary() == (Summary { records: Seq::empty(), failures: Seq::empty() }),
    {
        let outcome = SyncOutcome { records: Vec::new(), failures: Vec::new() };
        assert(records_of(outcome.records@) =~= Seq::<EmailRecord>::empty());
        outcome
    }

    /// Takes in what the session of `folder` gave.
    pub fn absorb(
        &mut self,
        folder: String,
        records: Vec<Email>,
        failure: Option<SyncError>,
        category: &str,
    )
        ensures
            final(self).summary() == with_folder(
                old(self).summary(),
                folder,
                records_of(records@),
                failure,
                category@,
            ),
    {
        match failure {
            Some(error) => {
                self.failures.push(FolderFailure { folder, error });
            },
            None => {
                let mut records = records;
                file_under(&mut records, category);
                let ghost before = self.records@;
                let ghost added = records@;
                self.records.append(&mut records);
                assert(records_of(self.records@) =~= records_of(before) + records_of(added));
            },
        }
    }
}

/// Filing changes the category of a record and nothing else: identifier,
/// timestamps, sender, recipient, subject, body and the two marks stay.
pub proof fn law_filing_keeps(records: Seq<EmailRecord>, category: Seq<char>)
    ensures
        filed(records, category).len() == records.len(),
        forall|i: int|
            0 <= i < records.len() ==> {
                let was = records[i];
                let now = #[trigger] filed(records, category)[i];
                &&& now.id == was.id
                &&& now.created_at == was.created_at
                &&& now.updated_at == was.updated_at
                &&& now.content.sender == was.content.sender
                &&& now.content.recipient == was.content.recipient
                &&& now.content.subject == was.content.subject
                &&& now.content.body == was.content.body
                &&& now.content.is_read == was.content.is_read
                &&& now.content.is_important == was.content.is_important
                &&& now.content.category == category
            },
{
}

/// Of three folders, the second fails: the outcome holds the records of the
/// first and of the third, in this order, and the one failure.
pub proof fn law_partial_results(
    first: String,
    second: String,
    third: String,
    first_records: Seq<EmailRecord>,
    second_records: Seq<EmailRecord>,
    third_records: Seq<EmailRecord>,
    error: SyncError,
    map: CategoryMap,
)
    ensures
        ({
            let empty = Summary { records: Seq::empty(), failures: Seq::empty() };
            let a = with_folder(empty, first, first_records, None, map.category_of(first@));
            let b = with_folder(a, second, second_records, Some(error), map.category_of(second@));
            let c = with_folder(b, third, third_records, None, map.category_of(third@));
            &&& c.records == filed(first_records, map.category_of(first@)) + filed(
                third_records,
                map.category_of(third@),
            )
            &&& c.failures == seq![FolderFailure { folder: second, error }]
        }),
{
    let empty = Summary { records: Seq::empty(), failures: Seq::empty() };
    let a = with_folder(empty, first, first_records, None, map.category_of(first@));
    assert(a.records =~= filed(first_records, map.category_of(first@)));
    let b = with_folder(a, second, second_records, Some(error), map.category_of(second@));
    assert(b.failures =~= seq![FolderFailure { folder: second, error }]);
}

/// Of three folders, all are read: the outcome holds the records of the
/// first, of the second and of the third, in this order, each filed under
/// its folder's category and otherwise as it was, and no failure.
pub proof fn law_all_folders_read(
    first: String,
    second: String,
    third: String,
    first_records: Seq<EmailRecord>,
    second_records: Seq<EmailRecord>,
    third_records: Seq<EmailRecord>,
    map: CategoryMap,
)
    ensures
        ({
            let empty = Summary { records: Seq::empty(), failures: Seq::empty() };
            let a = with_folder(empty, first, first_records, None, map.category_of(first@));
            let b = with_folder(a, second, second_records, None, map.category_of(second@));
            let c = with_folder(b, third, third_records, None, map.category_of(third@));
            &&& c.records == filed(first_records, map.category_of(first@)) + filed(
                second_records,
                map.category_of(second@),
            ) + filed(third_records, map.category_of(third@))
            &&& c.records.len() == first_records.len() + second_records.len()
                + third_records.len()
            &&& c.failures.len() == 0
        }),
{
    let empty = Summary { records: Seq::empty(), failures: Seq::empty() };
    let a = with_folder(empty, first, first_records, None, map.category_of(first@));
    assert(a.records =~= filed(first_records, map.category_of(first@)));
}

/// No folder takes away what an earlier folder gave: the records and the
/// failures so far stay, in their order, at the front.
pub proof fn law_nothing_discarded(
    before: Summary,
    folder: String,
    records: Seq<EmailRecord>,
    failure: Option<SyncError>,
    category: Seq<char>,
)
    ensures
        before.records.is_prefix_of(with_folder(before, folder, records, failure, category).records),
        before.failures.is_prefix_of(
            with_folder(before, folder, records, failure, category).failures,
        ),
        failure is Some ==> with_folder(before, folder, records, failure, category).records
            == before.records,
        failure is None ==> with_folder(before, folder, records, failure, category).failures
            == before.failures,
{
    let after = with_folder(before, folder, records, failure, category);
    assert(after.records.take(before.records.len() as int) =~= before.records);
    assert(after.failures.take(before.failures.len() as int) =~= before.failures);
}

/// Under the standard map, the three standard folders have their
/// categories, and any other folder the common one.
pub proof fn law_standard_categories(map: CategoryMap, folder: Seq<char>)
    requires
        map.is_standard(),
    ensures
        map.category_of("INBOX"@) == "收件箱"@,
        map.category_of("Sent"@) == "发件箱"@,
        map.category_of("Drafts"@) == "草稿箱"@,
        folder != "INBOX"@ && folder != "Sent"@ && folder != "Drafts"@ ==> map.category_of(folder)
            == "其他"@,
{
    reveal_strlit("INBOX");
    reveal_strlit("Sent");
    reveal_strlit("Drafts");
    reveal_with_fuel(category_in, 5);
    let e = map.entries@;
    let e1 = e.drop_first();
    let e2 = e1.drop_first();
    let e3 = e2.drop_first();
    assert(e1[0] == e[1] && e2[0] == e[2] && e3.len() == 0);
    assert("INBOX"@ != "Sent"@) by {
        assert("INBOX"@.len() == 5 && "Sent"@.len() == 4);
    }
    assert("INBOX"@ != "Drafts"@) by {
        assert("INBOX"@.len() == 5 && "Drafts"@.len() == 6);
    }
    assert("Sent"@ != "Drafts"@) by {
        assert("Sent"@.len() == 4 && "Drafts"@.len() == 6);
    }
}

/// The number of messages that one synchronisation fetches from a folder, at
/// most.
pub const FOLDER_LIMIT: usize = 50;

/// The synchronisation service of one account at its provider.
#[derive(Debug, Clone)]
pub struct EmailSyncService {
    pub provider: EmailProvider,
    pub account: EmailAccount,
}

impl EmailSyncService {
    /// The service for `account` at `provider`.
    pub fn new(provider: EmailProvider, account: EmailAccount) -> (service: EmailSyncService)
        ensures
            service.provider == provider,
            service.account == account,
    {
        EmailSyncService { provider, account }
    }

    /// Whether `request` asks for a connection to the provider's IMAP
    /// server with the account's user name and the password that the
    /// account's stored secret holds.
    pub open spec fn is_request(&self, request: ConnectRequest) -> bool {
        &&& request.host == self.provider.imap_server
        &&& request.port == self.provider.imap_port
        &&& request.username == self.account.username
        &&& decrypted(self.account.password@) == Ok::<Seq<char>, CryptoError>(request.password@)
        &&& request.timeout_secs == ATTEMPT_TIMEOUT_SECS
    }

    /// Whether `request` asks for a connection to the provider's IMAP
    /// server with the account's user name and password as they stand.
    pub open spec fn is_plain_request(&self, request: ConnectRequest) -> bool {
        &&& request.host == self.provider.imap_server
        &&& request.port == self.provider.imap_port
        &&& request.username == self.account.username
        &&& request.password == self.account.password
        &&& request.timeout_secs == ATTEMPT_TIMEOUT_SECS
    }

    /// What a connection to the IMAP server takes. The account's stored
    /// secret is opened for it; a secret that cannot be opened ends the
    /// operation.
    pub fn connect_imap(&self) -> (r: Result<ConnectRequest, CryptoError>)
        ensures
            match r {
                Ok(request) => self.is_request(request),
                Err(e) => decrypted(self.account.password@) == Err::<Seq<char>, CryptoError>(e),
            },
    {
        let password = match CryptoService::decrypt_password(self.account.password.as_str()) {
            Ok(password) => password,
            Err(e) => {
                return Err(e);
            },
        };
        Ok(
            ConnectRequest {
                host: self.provider.imap_server.clone(),
                port: self.provider.imap_port,
                username: self.account.username.clone(),
                password,
                timeout_secs: ATTEMPT_TIMEOUT_SECS,
            },
        )
    }

    /// The session that fetches the `limit` most recent messages of
    /// `folder`, and its first command.
    pub fn fetch_emails(&self, folder: &str, limit: usize) -> (r: Result<
        (FolderSession, SyncCommand),
        CryptoError,
    >)
        ensures
            match r {
                Ok((session, command)) => {
                    &&& session.wf()
                    &&& session.folder@ == folder@
                    &&& session.limit == limit
                    &&& session.own_address == self.account.email_address
                    &&& self.is_request(session.request)
                    &&& session.phase == SessionPhase::Connecting(
                        ConnectState::Attempting { attempt: 1 },
                    )
                    &&& session.records@.len() == 0
                    &&& session.failure is None
                    &&& command == SyncCommand::Connect(session.request)
                },
                Err(e) => decrypted(self.account.password@) == Err::<Seq<char>, CryptoError>(e),
            },
    {
        match self.connect_imap() {
            Ok(request) => Ok(
                FolderSession::begin(
                    folder.to_owned(),
                    limit,
                    self.account.email_address.clone(),
                    request,
                ),
            ),
            Err(e) => Err(e),
        }
    }

    /// The record for the raw message `raw`. Where the message names no
    /// recipient, the account's own address stands for it.
    pub fn parse_email_from_raw(&self, raw: &[u8]) -> (email: Email)
        ensures
            email.content() == parsed_raw(raw@, self.account.email_address@),
            vstd::utf8::valid_utf8(raw@) ==> email.content() == parsed_content(
                vstd::utf8::decode_utf8(raw@),
                self.account.email_address@,
            ),
            email.id@.len() == ID_LENGTH,
            email.created_at == email.updated_at,
            email.created_at.wf(),
    {
        parse_message(raw, self.account.email_address.as_str())
    }

    /// The address that a header value stands for.
    pub fn extract_email_address(&self, header_value: &str) -> (address: String)
        ensures
            address@ == extracted_address(header_value@),
    {
        extract_address(header_value)
    }

    /// Whether `request` submits `email` to the provider's SMTP server with
    /// the account's user name and password as they stand.
    pub open spec fn is_send_request(&self, request: SendRequest, email: Email) -> bool {
        &&& request.host == self.provider.smtp_server
        &&& request.port == self.provider.smtp_port
        &&& request.username == self.account.username
        &&& request.password == self.account.password
        &&& request.from == email.sender
        &&& request.to == email.recipient
        &&& request.subject == email.subject
        &&& request.body == email.body
    }

    /// What submitting `email` takes, given whether its sender and its
    /// recipient are well-formed mailboxes.
    pub fn plan_send(&self, email: &Email, sender_ok: bool, recipient_ok: bool) -> (r: Result<
        SendRequest,
        SendError,
    >)
        ensures
            match r {
                Ok(request) => refusal(sender_ok, recipient_ok) is None && self.is_send_request(
                    request,
                    *email,
                ),
                Err(e) => refusal(sender_ok, recipient_ok) == Some(e),
            },
    {
        if !sender_ok {
            return Err(SendError::InvalidSender);
        }
        if !recipient_ok {
            return Err(SendError::InvalidRecipient);
        }
        Ok(
            SendRequest {
                host: self.provider.smtp_server.clone(),
                port: self.provider.smtp_port,
                username: self.account.username.clone(),
                password: self.account.password.clone(),
                from: email.sender.clone(),
                to: email.recipient.clone(),
                subject: email.subject.clone(),
                body: email.body.clone(),
            },
        )
    }

    /// What submitting `email` takes. A sender or a recipient that is no
    /// well-formed mailbox is refused before anything is built.
    pub fn send_email(&self, email: &Email) -> (r: Result<SendRequest, SendError>)
        ensures
            match r {
                Ok(request) => refusal(
                    mailbox_accepted(email.sender@),
                    mailbox_accepted(email.recipient@),
                ) is None && self.is_send_request(request, *email),
                Err(e) => refusal(
                    mailbox_accepted(email.sender@),
                    mailbox_accepted(email.recipient@),
                ) == Some(e),
            },
    {
        let sender_ok = check_mailbox(email.sender.as_str()).is_ok();
        let recipient_ok = check_mailbox(email.recipient.as_str()).is_ok();
        self.plan_send(email, sender_ok, recipient_ok)
    }

    /// A test of the account's credentials as they stand, and its first
    /// command.
    pub fn test_connection(&self) -> (r: (ConnectionTest, SyncCommand))
        ensures
            r.0.wf(),
            self.is_plain_request(r.0.request),
            r.0.phase == TestPhase::Connecting(ConnectState::Attempting { attempt: 1 }),
            r.1 == SyncCommand::Connect(r.0.request),
    {
        ConnectionTest::begin(
            ConnectRequest {
                host: self.provider.imap_server.clone(),
                port: self.provider.imap_port,
                username: self.account.username.clone(),
                password: self.account.password.clone(),
                timeout_secs: ATTEMPT_TIMEOUT_SECS,
            },
        )
    }
}

/// One synchronisation of an account: the folders in their order, each with
/// a session of its own.
#[derive(Debug, Clone)]
pub struct SyncCycle {
    pub service: EmailSyncService,
    pub folders: Vec<String>,
    pub limit: usize,
    pub categories: CategoryMap,
    pub index: usize,
    pub session: Option<FolderSession>,
    pub outcome: SyncOutcome,
}

impl SyncCycle {
    /// Whether `session` is a fresh one for the folder number `index`.
    pub open spec fn begun_for(&self, session: FolderSession, index: int) -> bool {
        &&& 0 <= index < self.folders@.len()
        &&& session.folder == self.folders@[index]
        &&& session.limit == self.limit
        &&& session.own_address == self.service.account.email_address
        &&& self.service.is_request(session.request)
        &&& session.phase == SessionPhase::Connecting(ConnectState::Attempting { attempt: 1 })
        &&& session.records@.len() == 0
        &&& session.failure is None
    }

    /// Whether `session` belongs to the folder number `index`.
    pub open spec fn session_for(&self, session: FolderSession, index: int) -> bool {
        &&& 0 <= index < self.folders@.len()
        &&& session.folder == self.folders@[index]
        &&& session.limit == self.limit
        &&& session.own_address == self.service.account.email_address
        &&& self.service.is_request(session.request)
    }

    /// There is a session exactly while a folder is left; it is that
    /// folder's, and it is not over.
    pub open spec fn wf(&self) -> bool {
        &&& self.index <= self.folders@.len()
        &&& self.session is Some <==> self.index < self.folders@.len()
        &&& self.session matches Some(session) ==> session.wf() && !session.is_over()
            && self.session_for(session, self.index as int)
    }

    /// Whether every folder has had its session.
    pub open spec fn is_over(&self) -> bool {
        self.session is None
    }

    /// Service, folders, limit and categories are those of `pre`.
    pub open spec fn same_setting(&self, pre: SyncCycle) -> bool {
        &&& self.service == pre.service
        &&& self.folders == pre.folders
        &&& self.limit == pre.limit
        &&& self.categories == pre.categories
    }

    /// The session `after` of the current folder of `pre` is over: its
    /// result is taken in, and the next folder, if there is one, has a fresh
    /// session.
    pub open spec fn moved_on(&self, pre: SyncCycle, after: FolderSession, command: SyncCommand) -> bool {
        &&& self.outcome.summary() == with_folder(
            pre.outcome.summary(),
            pre.folders@[pre.index as int],
            records_of(after.records@),
            after.failure,
            pre.categories.category_of(pre.folders@[pre.index as int]@),
        )
        &&& self.index == pre.index + 1
        &&& if self.index < self.folders@.len() {
            &&& self.session matches Some(next)
            &&& self.begun_for(next, self.index as int)
            &&& command == SyncCommand::Connect(next.request)
        } else {
            self.session is None && command is Stop
        }
    }

    /// Whether the cycle `pre`, on `event`, becomes `self` and gives
    /// `command`: the event goes to the current session; when that is over,
    /// the cycle moves on.
    pub open spec fn follows(&self, pre: SyncCycle, event: SyncEvent, command: SyncCommand) -> bool {
        &&& self.same_setting(pre)
        &&& match pre.session {
            None => self.session is None && self.index == pre.index && self.outcome
                == pre.outcome && command is Stop,
            Some(session) => exists|after: FolderSession, order: SyncCommand|
                {
                    &&& #[trigger] after.follows(session, event, order)
                    &&& if after.is_over() {
                        self.moved_on(pre, after, command)
                    } else {
                        &&& self.session == Some(after)
                        &&& self.index == pre.index
                        &&& self.outcome == pre.outcome
                        &&& command == order
                    }
                },
        }
    }

    fn enter(service: &EmailSyncService, folders: &Vec<String>, index: usize, limit: usize) -> (r:
        Result<(FolderSession, SyncCommand), CryptoError>)
        requires
            index < folders@.len(),
        ensures
            match r {
                Ok((session, command)) => {
                    &&& session.wf()
                    &&& session.folder == folders@[index as int]
                    &&& session.limit == limit
                    &&& session.own_address == service.account.email_address
                    &&& service.is_request(session.request)
                    &&& session.phase == SessionPhase::Connecting(
                        ConnectState::Attempting { attempt: 1 },
                    )
                    &&& session.records@.len() == 0
                    &&& session.failure is None
                    &&& command == SyncCommand::Connect(session.request)
                },
                Err(e) => decrypted(service.account.password@) == Err::<Seq<char>, CryptoError>(e),
            },
    {
        match service.connect_imap() {
            Ok(request) => Ok(
                FolderSession::begin(
                    folders[index].clone(),
                    limit,
                    service.account.email_address.clone(),
                    request,
                ),
            ),
            Err(e) => Err(e),
        }
    }

    /// A synchronisation of the service's account over `folders`, with
    /// `limit` messages from each at most, and its first command. A stored
    /// secret that cannot be opened ends the operation before it begins.
    pub fn begin(
        service: EmailSyncService,
        folders: Vec<String>,
        limit: usize,
        categories: CategoryMap,
    ) -> (r: Result<(SyncCycle, SyncCommand), CryptoError>)
        ensures
            match r {
                Ok((cycle, command)) => {
                    &&& cycle.wf()
                    &&& cycle.service == service
                    &&& cycle.folders == folders
                    &&& cycle.limit == limit
                    &&& cycle.categories == categories
                    &&& cycle.index == 0
                    &&& cycle.outcome.summary() == (Summary {
                        records: Seq::empty(),
                        failures: Seq::empty(),
                    })
                    &&& if folders@.len() == 0 {
                        cycle.session is None && command is Stop
                    } else {
                        &&& cycle.session matches Some(session)
                        &&& cycle.begun_for(session, 0)
                        &&& command == SyncCommand::Connect(session.request)
                    }
                },
                Err(e) => folders@.len() > 0 && decrypted(service.account.password@) == Err::<
                    Seq<char>,
                    CryptoError,
                >(e),
            },
    {
        if folders.len() == 0 {
            return Ok(
                (
                    SyncCycle {
                        service,
                        folders,
                        limit,
                        categories,
                        index: 0,
                        session: None,
                        outcome: SyncOutcome::new(),
                    },
                    SyncCommand::Stop,
                ),
            );
        }
        match Self::enter(&service, &folders, 0, limit) {
            Ok((session, command)) => Ok(
                (
                    SyncCycle {
                        service,
                        folders,
                        limit,
                        categories,
                        index: 0,
                        session: Some(session),
                        outcome: SyncOutcome::new(),
                    },
                    command,
                ),
            ),
            Err(e) => Err(e),
        }
    }

    /// Whether every folder has had its session.
    pub fn finished(&self) -> (r: bool)
        ensures
            r == self.is_over(),
    {
        self.session.is_none()
    }

    /// The outcome so far; once the cycle is over, the outcome of the
    /// synchronisation.
    pub fn into_outcome(self) -> (outcome: SyncOutcome)
        ensures
            outcome == self.outcome,
    {
        self.outcome
    }

    /// Takes one event and says what to do next.
    pub fn step(self, event: SyncEvent) -> (r: (SyncCycle, SyncCommand))
        requires
            self.wf(),
        ensures
            r.0.wf(),
            r.0.follows(self, event, r.1),
    {
        let SyncCycle { service, folders, limit, categories, index, session, outcome } = self;
        let session = match session {
            Some(session) => session,
            None => {
                return (
                    SyncCycle { service, folders, limit, categories, index, session: None, outcome },
                    SyncCommand::Stop,
                );
            },
        };
        let ghost before = session;
        let (after, order) = session.step(event);
        if !after.finished() {
            let cycle = SyncCycle {
                service,
                folders,
                limit,
                categories,
                index,
                session: Some(after),
                outcome,
            };
            assert(after.follows(before, event, order));
            return (cycle, order);
        }
        let ghost over = after;
        assert(over.follows(before, event, order));
        let FolderSession { folder, limit: _, own_address: _, request: _, phase: _, records, failure } =
            after;
        let category = categories.category_for(folder.as_str());
        let mut outcome = outcome;
        outcome.absorb(folder, records, failure, category.as_str());
        assert(index < folders.len());
        let index = index + 1;
        if index < folders.len() {
            match Self::enter(&service, &folders, index, limit) {
                Ok((next, command)) => (
                    SyncCycle {
                        service,
                        folders,
                        limit,
                        categories,
                        index,
                        session: Some(next),
                        outcome,
                    },
                    command,
                ),
                Err(_) => vstd::pervasive::unreached(),
            }
        } else {
            (
                SyncCycle { service, folders, limit, categories, index, session: None, outcome },
                SyncCommand::Stop,
            )
        }
    }
}

/// The entry point of synchronisation.
#[derive(Debug, Clone)]
pub struct SyncManager {}

impl SyncManager {
    /// A manager. It keeps nothing between synchronisations.
    pub fn new() -> (manager: SyncManager) {
        SyncManager {  }
    }

    /// A synchronisation of `account` at `provider` over the folders
    /// `INBOX`, `Sent` and `Drafts`, with the standard categories and 50
    /// messages from each folder at most, and its first command.
    pub fn sync_account_emails(&self, provider: EmailProvider, account: EmailAccount) -> (r: Result<
        (SyncCycle, SyncCommand),
        CryptoError,
    >)
        ensures
            match r {
                Ok((cycle, command)) => {
                    &&& cycle.wf()
                    &&& cycle.service.provider == provider
                    &&& cycle.service.account == account
                    &&& cycle.folders@.len() == 3
                    &&& cycle.folders@[0]@ == "INBOX"@
                    &&& cycle.folders@[1]@ == "Sent"@
                    &&& cycle.folders@[2]@ == "Drafts"@
                    &&& cycle.limit == FOLDER_LIMIT
                    &&& cycle.categories.is_standard()
                    &&& cycle.index == 0
                    &&& cycle.outcome.summary() == (Summary {
                        records: Seq::empty(),
                        failures: Seq::empty(),
                    })
                    &&& cycle.session matches Some(session)
                    &&& cycle.begun_for(session, 0)
                    &&& command == SyncCommand::Connect(session.request)
                },
                Err(e) => decrypted(account.password@) == Err::<Seq<char>, CryptoError>(e),
            },
    {
        let mut folders: Vec<String> = Vec::new();
        folders.push("INBOX".to_owned());
        folders.push("Sent".to_owned());
        folders.push("Drafts".to_owned());
        SyncCycle::begin(
            EmailSyncService::new(provider, account),
            folders,
            FOLDER_LIMIT,
            CategoryMap::standard(),
        )
    }
}

/// A folder that cannot be selected costs the cycle nothing else: the
/// records stay as they are, the folder is entered once among the
/// failures, after those before it, and the cycle moves on.
pub proof fn law_failed_select(pre: SyncCycle, reason: String, post: SyncCycle, command: SyncCommand)
    requires
        pre.wf(),
        pre.session matches Some(session) && session.phase is Selecting,
        post.follows(pre, SyncEvent::SelectFailed(reason), command),
    ensures
        post.outcome.summary().records == pre.outcome.summary().records,
        post.outcome.summary().failures == pre.outcome.summary().failures.push(
            FolderFailure {
                folder: pre.folders@[pre.index as int],
                error: SyncError::Select(reason),
            },
        ),
        post.index == pre.index + 1,
        post.index < post.folders@.len() ==> command is Connect,
        post.index == post.folders@.len() ==> post.is_over() && command is Stop,
{
}

/// A folder whose session reaches its logout gives the cycle its records,
/// filed under the folder's category and after those before them, whatever
/// the logout gives; the failures stay as they are.
pub proof fn law_completed_folder(
    pre: SyncCycle,
    event: SyncEvent,
    post: SyncCycle,
    command: SyncCommand,
)
    requires
        pre.wf(),
        pre.session matches Some(session) && session.phase is LoggingOut,
        event is LoggedOut || event is LogoutFailed,
        post.follows(pre, event, command),
    ensures
        post.outcome.summary().records == pre.outcome.summary().records + filed(
            records_of(pre.session->0.records@),
            pre.categories.category_of(pre.folders@[pre.index as int]@),
        ),
        post.outcome.summary().failures == pre.outcome.summary().failures,
        post.index == pre.index + 1,
{
}

} // verus!
