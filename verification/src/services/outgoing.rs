//! Outgoing mail: the addresses are checked before anything is sent, and a
//! message is submitted once, without retry.

use vstd::prelude::*;

verus! {

/// The error with which `lettre` refuses a mailbox.
#[verifier::external_type_specification]
#[verifier::external_body]
pub struct ExAddressError(lettre::address::AddressError);

/// Whether `lettre` accepts the text as a mailbox: an address, alone or
/// after a display name and in angle brackets.
pub uninterp spec fn mailbox_accepted(text: Seq<char>) -> bool;

/// Parses the text as a `lettre::message::Mailbox` with `str::parse`, and
/// lets the mailbox go. Whether the text is accepted depends on the text
/// alone.
#[verifier::external_body]
pub(crate) fn check_mailbox(text: &str) -> (r: Result<(), lettre::address::AddressError>)
    ensures
        r is Ok <==> mailbox_accepted(text@),
{
    text.parse::<lettre::message::Mailbox>().map(|_| ())
}

/// Why a message was not sent.
#[derive(Debug, Clone, PartialEq, Eq)]
pub enum SendError {
    /// The sender is no well-formed mailbox.
    InvalidSender,
    /// The recipient is no well-formed mailbox.
    InvalidRecipient,
    /// The server could not be reached, refused the credentials, or refused
    /// the message.
    Submission(String),
}

/// One message, ready to be submitted, with the server and the plain
/// credentials to submit it with.
#[derive(Debug, Clone)]
pub struct SendRequest {
    pub host: String,
    pub port: u16,
    pub username: String,
    pub password: String,
    pub from: String,
    pub to: String,
    pub subject: String,
    pub body: String,
}

/// Why a message with such addresses is refused, if it is.
pub open spec fn refusal(sender_ok: bool, recipient_ok: bool) -> Option<SendError> {
    if !sender_ok {
        Some(SendError::InvalidSender)
    } else if !recipient_ok {
        Some(SendError::InvalidRecipient)
    } else {
        None
    }
}

/// What a submission comes to, given what the driver reports of its one
/// attempt: a failure is final and is handed on as it is.
pub fn after_submission(report: Result<(), String>) -> (r: Result<(), SendError>)
    ensures
        r == match report {
            Ok(()) => Ok::<(), SendError>(()),
            Err(reason) => Err::<(), SendError>(SendError::Submission(reason)),
        },
{
    match report {
        Ok(()) => Ok(()),
        Err(reason) => Err(SendError::Submission(reason)),
    }
}

} // verus!
