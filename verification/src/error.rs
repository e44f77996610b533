//! The error taxonomy of the service and how each error is shown to a client.

use vstd::prelude::*;

verus! {

/// Every way a request or the start-up of the service can fail.
///
/// The variants that stand for a failure of a collaborator (`Database`, `Io`,
/// `Join`, `Server`, `Migration`) carry that failure's text.
#[derive(Debug, Clone, PartialEq, Eq)]
pub enum AppError {
    Database(String),
    Io(String),
    InvalidObservation,
    InvalidUuid,
    Unauthorized,
    TooManyObservations,
    InvalidLimit,
    MissingConfig(String),
    InvalidConfig(String),
    Join(String),
    Server(String),
    Migration(String),
}

/// An error with the text that it carries as a sequence of characters.
pub enum ErrorView {
    Database(Seq<char>),
    Io(Seq<char>),
    InvalidObservation,
    InvalidUuid,
    Unauthorized,
    TooManyObservations,
    InvalidLimit,
    MissingConfig(Seq<char>),
    InvalidConfig(Seq<char>),
    Join(Seq<char>),
    Server(Seq<char>),
    Migration(Seq<char>),
}

impl View for AppError {
    type V = ErrorView;

    open spec fn view(&self) -> ErrorView {
        match *self {
            AppError::Database(detail) => ErrorView::Database(detail@),
            AppError::Io(detail) => ErrorView::Io(detail@),
            AppError::InvalidObservation => ErrorView::InvalidObservation,
            AppError::InvalidUuid => ErrorView::InvalidUuid,
            AppError::Unauthorized => ErrorView::Unauthorized,
            AppError::TooManyObservations => ErrorView::TooManyObservations,
            AppError::InvalidLimit => ErrorView::InvalidLimit,
            AppError::MissingConfig(key) => ErrorView::MissingConfig(key@),
            AppError::InvalidConfig(key) => ErrorView::InvalidConfig(key@),
            AppError::Join(detail) => ErrorView::Join(detail@),
            AppError::Server(detail) => ErrorView::Server(detail@),
            AppError::Migration(detail) => ErrorView::Migration(detail@),
        }
    }
}

impl AppError {
    /// The text sent to the client. It goes by the kind of the error alone:
    /// what a failure of a collaborator or a setting was about is not shown.
    pub open spec fn message_text(self) -> Seq<char> {
        match self {
            AppError::Database(_) => "database error"@,
            AppError::Io(_) => "io error"@,
            AppError::InvalidObservation => "invalid observation"@,
            AppError::InvalidUuid => "invalid uuid"@,
            AppError::Unauthorized => "unauthorized"@,
            AppError::TooManyObservations => "observation limit reached"@,
            AppError::InvalidLimit => "invalid limit"@,
            AppError::MissingConfig(_) => "missing configuration"@,
            AppError::InvalidConfig(_) => "invalid configuration"@,
            AppError::Join(_) => "task join error"@,
            AppError::Server(_) => "server error"@,
            AppError::Migration(_) => "migration error"@,
        }
    }

    /// The text that an error carries: the failure of a collaborator, or the
    /// name of a setting. An error of a client carries none.
    pub open spec fn detail_text(self) -> Option<Seq<char>> {
        match self {
            AppError::Database(detail) => Some(detail@),
            AppError::Io(detail) => Some(detail@),
            AppError::MissingConfig(key) => Some(key@),
            AppError::InvalidConfig(key) => Some(key@),
            AppError::Join(detail) => Some(detail@),
            AppError::Server(detail) => Some(detail@),
            AppError::Migration(detail) => Some(detail@),
            _ => None,
        }
    }

    /// The text for the operator's log: the client's text, and behind it
    /// what the error carries.
    pub open spec fn log_text(self) -> Seq<char> {
        match self.detail_text() {
            Some(detail) => self.message_text() + ": "@ + detail,
            None => self.message_text(),
        }
    }

    /// Whether two errors are of the same kind, whatever they carry.
    pub open spec fn same_kind(self, other: AppError) -> bool {
        match self {
            AppError::Database(_) => other is Database,
            AppError::Io(_) => other is Io,
            AppError::InvalidObservation => other is InvalidObservation,
            AppError::InvalidUuid => other is InvalidUuid,
            AppError::Unauthorized => other is Unauthorized,
            AppError::TooManyObservations => other is TooManyObservations,
            AppError::InvalidLimit => other is InvalidLimit,
            AppError::MissingConfig(_) => other is MissingConfig,
            AppError::InvalidConfig(_) => other is InvalidConfig,
            AppError::Join(_) => other is Join,
            AppError::Server(_) => other is Server,
            AppError::Migration(_) => other is Migration,
        }
    }

    /// The HTTP status of the error: 400 for malformed client input, 401 for a
    /// missing, malformed or unknown credential, 429 for a breach of the
    /// admission window, 500 for everything else.
    pub open spec fn status(self) -> u16 {
        match self {
            AppError::InvalidObservation | AppError::InvalidUuid | AppError::InvalidLimit => 400,
            AppError::Unauthorized => 401,
            AppError::TooManyObservations => 429,
            _ => 500,
        }
    }

    /// The text of the error for the client.
    pub fn message(&self) -> (text: String)
        ensures
            text@ == self.message_text(),
    {
        match self {
            AppError::Database(_) => "database error".to_owned(),
            AppError::Io(_) => "io error".to_owned(),
            AppError::InvalidObservation => "invalid observation".to_owned(),
            AppError::InvalidUuid => "invalid uuid".to_owned(),
            AppError::Unauthorized => "unauthorized".to_owned(),
            AppError::TooManyObservations => "observation limit reached".to_owned(),
            AppError::InvalidLimit => "invalid limit".to_owned(),
            AppError::MissingConfig(_) => "missing configuration".to_owned(),
            AppError::InvalidConfig(_) => "invalid configuration".to_owned(),
            AppError::Join(_) => "task join error".to_owned(),
            AppError::Server(_) => "server error".to_owned(),
            AppError::Migration(_) => "migration error".to_owned(),
        }
    }

    /// The text of the error for the operator's log. It is never sent to a
    /// client.
    pub fn log_message(&self) -> (text: String)
        ensures
            text@ == self.log_text(),
    {
        let text = self.message();
        match self {
            AppError::Database(detail)
            | AppError::Io(detail)
            | AppError::MissingConfig(detail)
            | AppError::InvalidConfig(detail)
            | AppError::Join(detail)
            | AppError::Server(detail)
            | AppError::Migration(detail) => text.concat(": ").concat(detail.as_str()),
            _ => text,
        }
    }

    /// The HTTP status that the error is answered with.
    pub fn status_code(&self) -> (code: u16)
        ensures
            code == self.status(),
    {
        match self {
            AppError::InvalidObservation | AppError::InvalidUuid | AppError::InvalidLimit => 400,
            AppError::Unauthorized => 401,
            AppError::TooManyObservations => 429,
            AppError::MissingConfig(_) | AppError::InvalidConfig(_) => 500,
            AppError::Database(_)
            | AppError::Io(_)
            | AppError::Join(_)
            | AppError::Server(_)
            | AppError::Migration(_) => 500,
        }
    }
}

/// Two errors of the same kind are shown to a client with the same text and
/// the same status, whatever they carry.
pub proof fn lemma_message_shows_no_detail(first: AppError, second: AppError)
    requires
        first.same_kind(second),
    ensures
        first.message_text() == second.message_text(),
        first.status() == second.status(),
{
}

} // verus!
