//! What passes between the synchronisation state machines and their driver:
//! the driver performs a command on the network and reports the event.

use crate::services::connection::ConnectionError;
use crate::services::connection::ConnectEvent;
use crate::services::connection::ConnectRequest;
use vstd::prelude::*;

verus! {

/// What the driver reports.
#[derive(Debug, Clone)]
pub enum SyncEvent {
    /// An attempt to connect gave an open, authenticated session.
    Connected,
    /// An attempt to connect failed.
    ConnectFailed(ConnectionError),
    /// A wait is over.
    Waited,
    /// The folder is selected.
    Selected,
    /// The server does not know the folder, or refused to select it.
    SelectFailed(String),
    /// The identifiers of all messages in the selected folder, in any order.
    Listed(Vec<u32>),
    /// The server did not list the folder.
    ListFailed(String),
    /// What the server sent for one identifier: one entry for each message,
    /// with its raw bytes where it came with a body.
    Fetched(Vec<Option<Vec<u8>>>),
    /// The server sent nothing for one identifier.
    FetchFailed(String),
    /// The session is closed.
    LoggedOut,
    /// The server did not take the logout.
    LogoutFailed(String),
}

/// The event as the connection policy sees it.
pub open spec fn connect_event(event: SyncEvent) -> Option<ConnectEvent> {
    match event {
        SyncEvent::Connected => Some(ConnectEvent::Succeeded),
        SyncEvent::ConnectFailed(error) => Some(ConnectEvent::Failed(error)),
        SyncEvent::Waited => Some(ConnectEvent::Waited),
        _ => None,
    }
}

/// What the driver is to do next.
#[derive(Debug, Clone)]
pub enum SyncCommand {
    /// Drop any open session, open a new connection within the time the
    /// request allows, and log in.
    Connect(ConnectRequest),
    /// Sleep for so many seconds.
    Wait(u64),
    /// Select the folder.
    Select(String),
    /// List the identifiers of all messages in the selected folder.
    List,
    /// Fetch the whole message with this identifier.
    Fetch(u32),
    /// Log out.
    Logout,
    /// The event did not answer what is under way: go on with that.
    Pending,
    /// Nothing is left to do.
    Stop,
}

/// Why a folder gave no records.
#[derive(Debug, Clone, PartialEq, Eq)]
pub enum SyncError {
    /// No connection after the last attempt.
    Connection(ConnectionError),
    /// The folder could not be selected.
    Select(String),
    /// The folder's messages could not be listed.
    Fetch(String),
}

impl ConnectRequest {
    /// A copy of the request.
    pub fn duplicate(&self) -> (copy: ConnectRequest)
        ensures
            copy == *self,
    {
        ConnectRequest {
            host: self.host.clone(),
            port: self.port,
            username: self.username.clone(),
            password: self.password.clone(),
            timeout_secs: self.timeout_secs,
        }
    }
}

} // verus!
