//! Domain inputs, discovery results, and safe errors shared by every frontend.
use vstd::prelude::*;

use crate::policy::Permission;

pub mod attachment;
pub mod draft;
pub mod message;
pub mod search;

verus! {

#[derive(Clone, Copy, Debug, PartialEq, Eq, Structural)]
pub enum ErrorCode {
    InvalidRequest,
    ProtocolMismatch,
    PermissionDenied,
    AccountNotAllowed,
    MailboxNotAllowed,
    MessageNotFound,
    StaleReference,
    StaleCursor,
    TransferExpired,
    AuthenticationFailed,
    CredentialUnavailable,
    TlsFailed,
    BrokerUnavailable,
    ProviderUnavailable,
    RateLimited,
    Timeout,
    Cancelled,
    ResponseTooLarge,
    AttachmentTooLarge,
    UnsupportedCapability,
    DraftMailboxUnavailable,
    OperationConflict,
    OperationInProgress,
    OutcomeUnknown,
    JournalUnavailable,
    JournalFull,
    ExportFailed,
    ExportCleanupFailed,
    ExportFinalizationFailed,
    InternalError,
    OperationNotFound,
}

impl ErrorCode {
    /// The reviewed text shown for a failure of this kind.
    pub open spec fn reviewed(self) -> Seq<char> {
        match self {
            ErrorCode::InvalidRequest => "Invalid request or configuration"@,
            ErrorCode::ProtocolMismatch => "Unsupported protocol version"@,
            ErrorCode::PermissionDenied
            | ErrorCode::AccountNotAllowed
            | ErrorCode::MailboxNotAllowed => "Access denied"@,
            ErrorCode::BrokerUnavailable => "Broker unavailable"@,
            ErrorCode::RateLimited => "Request capacity exhausted"@,
            ErrorCode::Timeout => "Request deadline exceeded"@,
            ErrorCode::ResponseTooLarge => "Result exceeds the configured limit"@,
            ErrorCode::UnsupportedCapability => "Operation is not supported"@,
            ErrorCode::Cancelled => "Request cancelled"@,
            _ => "Operation could not be completed"@,
        }
    }

    /// The name under which a failure of this kind is reported.
    pub open spec fn named(self) -> Seq<char> {
        match self {
            ErrorCode::InvalidRequest => "invalid_request"@,
            ErrorCode::ProtocolMismatch => "protocol_mismatch"@,
            ErrorCode::PermissionDenied => "permission_denied"@,
            ErrorCode::AccountNotAllowed => "account_not_allowed"@,
            ErrorCode::MailboxNotAllowed => "mailbox_not_allowed"@,
            ErrorCode::MessageNotFound => "message_not_found"@,
            ErrorCode::StaleReference => "stale_reference"@,
            ErrorCode::StaleCursor => "stale_cursor"@,
            ErrorCode::TransferExpired => "transfer_expired"@,
            ErrorCode::AuthenticationFailed => "authentication_failed"@,
            ErrorCode::CredentialUnavailable => "credential_unavailable"@,
            ErrorCode::TlsFailed => "tls_failed"@,
            ErrorCode::BrokerUnavailable => "broker_unavailable"@,
            ErrorCode::ProviderUnavailable => "provider_unavailable"@,
            ErrorCode::RateLimited => "rate_limited"@,
            ErrorCode::Timeout => "timeout"@,
            ErrorCode::Cancelled => "cancelled"@,
            ErrorCode::ResponseTooLarge => "response_too_large"@,
            ErrorCode::AttachmentTooLarge => "attachment_too_large"@,
            ErrorCode::UnsupportedCapability => "unsupported_capability"@,
            ErrorCode::DraftMailboxUnavailable => "draft_mailbox_unavailable"@,
            ErrorCode::OperationConflict => "operation_conflict"@,
            ErrorCode::OperationInProgress => "operation_in_progress"@,
            ErrorCode::OutcomeUnknown => "outcome_unknown"@,
            ErrorCode::JournalUnavailable => "journal_unavailable"@,
            ErrorCode::JournalFull => "journal_full"@,
            ErrorCode::ExportFailed => "export_failed"@,
            ErrorCode::ExportCleanupFailed => "export_cleanup_failed"@,
            ErrorCode::ExportFinalizationFailed => "export_finalization_failed"@,
            ErrorCode::InternalError => "internal_error"@,
            ErrorCode::OperationNotFound => "operation_not_found"@,
        }
    }

    pub fn name(self) -> (r: &'static str)
        ensures
            r@ == self.named(),
    {
        match self {
            ErrorCode::InvalidRequest => "invalid_request",
            ErrorCode::ProtocolMismatch => "protocol_mismatch",
            ErrorCode::PermissionDenied => "permission_denied",
            ErrorCode::AccountNotAllowed => "account_not_allowed",
            ErrorCode::MailboxNotAllowed => "mailbox_not_allowed",
            ErrorCode::MessageNotFound => "message_not_found",
            ErrorCode::StaleReference => "stale_reference",
            ErrorCode::StaleCursor => "stale_cursor",
            ErrorCode::TransferExpired => "transfer_expired",
            ErrorCode::AuthenticationFailed => "authentication_failed",
            ErrorCode::CredentialUnavailable => "credential_unavailable",
            ErrorCode::TlsFailed => "tls_failed",
            ErrorCode::BrokerUnavailable => "broker_unavailable",
            ErrorCode::ProviderUnavailable => "provider_unavailable",
            ErrorCode::RateLimited => "rate_limited",
            ErrorCode::Timeout => "timeout",
            ErrorCode::Cancelled => "cancelled",
            ErrorCode::ResponseTooLarge => "response_too_large",
            ErrorCode::AttachmentTooLarge => "attachment_too_large",
            ErrorCode::UnsupportedCapability => "unsupported_capability",
            ErrorCode::DraftMailboxUnavailable => "draft_mailbox_unavailable",
            ErrorCode::OperationConflict => "operation_conflict",
            ErrorCode::OperationInProgress => "operation_in_progress",
            ErrorCode::OutcomeUnknown => "outcome_unknown",
            ErrorCode::JournalUnavailable => "journal_unavailable",
            ErrorCode::JournalFull => "journal_full",
            ErrorCode::ExportFailed => "export_failed",
            ErrorCode::ExportCleanupFailed => "export_cleanup_failed",
            ErrorCode::ExportFinalizationFailed => "export_finalization_failed",
            ErrorCode::InternalError => "internal_error",
            ErrorCode::OperationNotFound => "operation_not_found",
        }
    }

    /// Whether the same request may succeed when it is sent again.
    pub open spec fn transient(self) -> bool {
        self is BrokerUnavailable || self is ProviderUnavailable || self is RateLimited
            || self is Timeout
    }

    /// The process status that reports a failure of this kind.
    pub open spec fn status(self) -> u8 {
        match self {
            ErrorCode::InvalidRequest | ErrorCode::ProtocolMismatch => 2,
            ErrorCode::PermissionDenied
            | ErrorCode::AccountNotAllowed
            | ErrorCode::MailboxNotAllowed => 3,
            ErrorCode::CredentialUnavailable
            | ErrorCode::AuthenticationFailed
            | ErrorCode::TlsFailed => 4,
            ErrorCode::BrokerUnavailable
            | ErrorCode::ProviderUnavailable
            | ErrorCode::RateLimited
            | ErrorCode::Timeout => 5,
            ErrorCode::MessageNotFound
            | ErrorCode::StaleReference
            | ErrorCode::StaleCursor
            | ErrorCode::TransferExpired
            | ErrorCode::OperationConflict
            | ErrorCode::OperationNotFound => 6,
            ErrorCode::OperationInProgress | ErrorCode::OutcomeUnknown => 7,
            ErrorCode::Cancelled => 130,
            _ => 8,
        }
    }
}

#[derive(Debug, PartialEq, Eq)]
pub struct Error {
    pub code: ErrorCode,
    pub message: String,
    pub retryable: bool,
}

impl Clone for Error {
    fn clone(&self) -> (r: Self)
        ensures
            r == *self,
    {
        Error { code: self.code, message: self.message.clone(), retryable: self.retryable }
    }
}

impl Error {
    /// The error carries `code` with the reviewed text and retry advice of that code.
    pub open spec fn reports(self, code: ErrorCode) -> bool {
        self.code == code && self.message@ == code.reviewed() && self.retryable == code.transient()
    }

    pub fn new(code: ErrorCode) -> (r: Self)
        ensures
            r.reports(code),
    {
        let message = match code {
            ErrorCode::InvalidRequest => "Invalid request or configuration",
            ErrorCode::ProtocolMismatch => "Unsupported protocol version",
            ErrorCode::PermissionDenied
            | ErrorCode::AccountNotAllowed
            | ErrorCode::MailboxNotAllowed => "Access denied",
            ErrorCode::BrokerUnavailable => "Broker unavailable",
            ErrorCode::RateLimited => "Request capacity exhausted",
            ErrorCode::Timeout => "Request deadline exceeded",
            ErrorCode::ResponseTooLarge => "Result exceeds the configured limit",
            ErrorCode::UnsupportedCapability => "Operation is not supported",
            ErrorCode::Cancelled => "Request cancelled",
            _ => "Operation could not be completed",
        };
        Error {
            code,
            message: message.to_owned(),
            retryable: matches!(
                code,
                ErrorCode::BrokerUnavailable
                    | ErrorCode::ProviderUnavailable
                    | ErrorCode::RateLimited
                    | ErrorCode::Timeout
            ),
        }
    }

    pub fn exit_code(&self) -> (r: u8)
        ensures
            r == self.code.status(),
    {
        match self.code {
            ErrorCode::InvalidRequest | ErrorCode::ProtocolMismatch => 2,
            ErrorCode::PermissionDenied
            | ErrorCode::AccountNotAllowed
            | ErrorCode::MailboxNotAllowed => 3,
            ErrorCode::CredentialUnavailable
            | ErrorCode::AuthenticationFailed
            | ErrorCode::TlsFailed => 4,
            ErrorCode::BrokerUnavailable
            | ErrorCode::ProviderUnavailable
            | ErrorCode::RateLimited
            | ErrorCode::Timeout => 5,
            ErrorCode::MessageNotFound
            | ErrorCode::StaleReference
            | ErrorCode::StaleCursor
            | ErrorCode::TransferExpired
            | ErrorCode::OperationConflict
            | ErrorCode::OperationNotFound => 6,
            ErrorCode::OperationInProgress | ErrorCode::OutcomeUnknown => 7,
            ErrorCode::Cancelled => 130,
            _ => 8,
        }
    }

    /// The error asks the user to run setup.
    pub open spec fn asks_for_setup(self) -> bool {
        self.code is InvalidRequest && !self.retryable && self.message@
            == "Configuration is missing or invalid; run mailctl setup"@
    }

    /// The configuration is missing or invalid.
    pub fn setup_required() -> (r: Self)
        ensures
            r.asks_for_setup(),
    {
        Error {
            code: ErrorCode::InvalidRequest,
            message: "Configuration is missing or invalid; run mailctl setup".to_owned(),
            retryable: false,
        }
    }

    /// The error names the retired capacity settings.
    pub open spec fn names_obsolete_capacity(self) -> bool {
        self.code is InvalidRequest && !self.retryable && self.message@
            == "Remove obsolete runtime capacity settings from the configuration"@
    }

    /// The configuration still carries capacity settings of an earlier layout.
    pub fn obsolete_runtime_capacity() -> (r: Self)
        ensures
            r.names_obsolete_capacity(),
    {
        Error {
            code: ErrorCode::InvalidRequest,
            message: "Remove obsolete runtime capacity settings from the configuration".to_owned(),
            retryable: false,
        }
    }

    /// The error says that the stored state is of another layout.
    pub open spec fn names_schema(self) -> bool {
        self.code is JournalUnavailable && !self.retryable && self.message@
            == "Stored state has an incompatible schema"@
    }

    pub fn incompatible_schema() -> (r: Self)
        ensures
            r.names_schema(),
    {
        Error {
            code: ErrorCode::JournalUnavailable,
            message: "Stored state has an incompatible schema".to_owned(),
            retryable: false,
        }
    }

    /// The error says that the operation was recorded with another draft.
    pub open spec fn names_draft_conflict(self) -> bool {
        self.code is OperationConflict && !self.retryable && self.message@
            == "Draft operation was recorded with different content"@
    }

    pub fn draft_conflict() -> (r: Self)
        ensures
            r.names_draft_conflict(),
    {
        Error {
            code: ErrorCode::OperationConflict,
            message: "Draft operation was recorded with different content".to_owned(),
            retryable: false,
        }
    }

    /// The text that describes the failure to a person.
    pub fn text(&self) -> (r: String)
        ensures
            r@ == self.message@,
    {
        self.message.clone()
    }
}

#[derive(Clone, Copy, Debug, Default)]
pub struct ListAccountsInput {
    pub limit: Option<usize>,
}

#[derive(Debug)]
pub struct ListMailboxesInput {
    pub account: Option<String>,
    pub limit: Option<usize>,
    pub cursor: Option<String>,
    pub reference: Option<String>,
}

#[derive(Debug)]
pub enum Operation {
    ListAccounts(ListAccountsInput),
    Capabilities,
    Health,
    ListMailboxes(ListMailboxesInput),
    SearchMessages(search::SearchMessagesInput),
    GetMessage(message::GetMessageInput),
    ListAttachments(attachment::ListAttachmentsInput),
    GetAttachment(attachment::GetAttachmentInput),
    SaveDraft(draft::SaveDraftInput),
    DraftStatus(draft::DraftStatusInput),
}

/// What an operation gives back.
#[derive(Debug)]
pub enum OperationResult {
    Accounts(AccountDiscovery),
    Capabilities(Capabilities),
    Health(Health),
    Messages(search::MessageSearch),
    Message(message::MessageBody),
    Attachments(attachment::AttachmentList),
    Attachment(attachment::AttachmentChunk),
    Export(attachment::ExportReceipt),
    Draft(draft::DraftReceipt),
    Setup(Setup),
}

/// What setup has established.
#[derive(Debug)]
pub struct Setup {
    pub installation_id: String,
    pub configuration_revision: String,
    pub accounts: usize,
    pub grants: usize,
}

#[derive(Clone, Debug)]
pub struct Envelope<T> {
    pub schema_version: u32,
    pub request_id: String,
    pub success: bool,
    pub result: Option<T>,
    pub error: Option<Error>,
}

impl<T> Envelope<T> {
    /// Exactly one of `result` and `error` is present, and `success` says which.
    pub open spec fn well_formed(self) -> bool {
        self.success == (self.result is Some) && self.success == (self.error is None)
    }

    pub fn from_result(request_id: String, result: Result<T, Error>) -> (r: Self)
        ensures
            r.well_formed(),
            r.schema_version == 1,
            r.request_id == request_id,
            match result {
                Ok(value) => r.result == Some(value),
                Err(error) => r.error == Some(error),
            },
    {
        match result {
            Ok(value) => Envelope {
                schema_version: 1,
                request_id,
                success: true,
                result: Some(value),
                error: None,
            },
            Err(error) => Envelope {
                schema_version: 1,
                request_id,
                success: false,
                result: None,
                error: Some(error),
            },
        }
    }
}

#[derive(Clone, Copy, Debug, PartialEq, Eq, Structural)]
pub enum Availability {
    Unknown,
    Configured,
    Available,
    Unavailable,
}

#[derive(Clone, Debug)]
pub struct Account {
    pub alias: String,
    pub account_id: String,
    pub generation: u64,
    pub from_identities: Vec<String>,
    pub capabilities: Vec<String>,
    pub availability: Availability,
}

#[derive(Clone, Debug)]
pub struct AccountDiscovery {
    pub accounts: Vec<Account>,
    pub complete: bool,
}

#[derive(Clone, Debug)]
pub struct Capabilities {
    pub operations: Vec<String>,
    pub permissions: Vec<Permission>,
    pub health: Health,
    pub capacity: Capacity,
}

/// How much work is taken on at once.
#[derive(Clone, Copy, Debug, PartialEq, Eq, Structural)]
pub struct Capacity {
    pub isolation: Option<IsolationCapacity>,
    pub per_process: ProcessCapacity,
}

#[derive(Clone, Copy, Debug, PartialEq, Eq, Structural)]
pub struct ProcessCapacity {
    pub active_requests: u64,
    pub queued_requests: u64,
    pub buffered_bytes: u64,
}

#[derive(Clone, Copy, Debug, PartialEq, Eq, Structural)]
pub struct IsolationCapacity {
    pub sessions: u64,
    pub active_requests_per_session: u64,
    pub request_bytes: u64,
    pub session_seconds: u64,
}

#[derive(Clone, Debug)]
pub struct Health {
    pub status: String,
    pub listener: String,
    pub accounts: Vec<AccountHealth>,
}

#[derive(Clone, Debug)]
pub struct AccountHealth {
    pub account_id: String,
    pub generation: u64,
    pub availability: Availability,
}

/// The exit status of a command goes by the kind of its failure: transient failures have one status and
/// no others do, and so do refusals of access, wrong requests, and failures of authentication.
pub proof fn statuses_go_by_kind(code: ErrorCode)
    ensures
        code.status() == 5 <==> code.transient(),
        code.status() == 3 <==> code.reviewed() == "Access denied"@,
        code.status() == 3 <==> (code is PermissionDenied || code is AccountNotAllowed || code is MailboxNotAllowed),
        code.status() == 2 <==> (code is InvalidRequest || code is ProtocolMismatch),
        code.status() == 4 <==> (code is CredentialUnavailable || code is AuthenticationFailed || code is TlsFailed),
        code.status() == 6 <==> (code is MessageNotFound || code is StaleReference || code is StaleCursor || code
            is TransferExpired || code is OperationConflict || code is OperationNotFound),
        code.status() == 7 <==> (code is OperationInProgress || code is OutcomeUnknown),
        code.status() == 130 <==> code is Cancelled,
        2 <= code.status() <= 8 || code.status() == 130,
        code.transient() <==> (code is BrokerUnavailable || code is ProviderUnavailable || code is RateLimited || code
            is Timeout),
{
    reveal_strlit("Access denied");
    reveal_strlit("Invalid request or configuration");
    reveal_strlit("Unsupported protocol version");
    reveal_strlit("Broker unavailable");
    reveal_strlit("Request capacity exhausted");
    reveal_strlit("Request deadline exceeded");
    reveal_strlit("Result exceeds the configured limit");
    reveal_strlit("Operation is not supported");
    reveal_strlit("Request cancelled");
    reveal_strlit("Operation could not be completed");
    assert("Access denied"@.len() == 13);
}

/// A refusal of access does not tell what was refused, and failures without a text of their own do not
/// tell what failed.
pub proof fn texts_tell_no_more_than_the_kind(a: ErrorCode, b: ErrorCode)
    ensures
        a.status() == 3 && b.status() == 3 ==> a.reviewed() == b.reviewed(),
        a.status() == 4 && b.status() == 4 ==> a.reviewed() == b.reviewed(),
        a.status() == 6 && b.status() == 6 ==> a.reviewed() == b.reviewed(),
        a.status() == 7 && b.status() == 7 ==> a.reviewed() == b.reviewed(),
{
}

/// A failure is told by its code, with the text and the advice to try again that belong to it.
pub proof fn failures_carry_what_their_code_says(error: Error, code: ErrorCode)
    requires
        error.reports(code),
    ensures
        error.code == code,
        error.retryable <==> code.status() == 5,
        code is Timeout ==> error.message@ == "Request deadline exceeded"@,
        code is RateLimited ==> error.message@ == "Request capacity exhausted"@,
        code is ResponseTooLarge ==> error.message@ == "Result exceeds the configured limit"@,
        code is UnsupportedCapability ==> error.message@ == "Operation is not supported"@,
        code is Cancelled ==> error.message@ == "Request cancelled"@,
        code is BrokerUnavailable ==> error.message@ == "Broker unavailable"@,
        code is InvalidRequest ==> error.message@ == "Invalid request or configuration"@,
        code is ProtocolMismatch ==> error.message@ == "Unsupported protocol version"@,
        code is InternalError ==> error.message@ == "Operation could not be completed"@,
{
}

/// Every code has a name of its own.
#[verifier::spinoff_prover]
#[verifier::rlimit(60)]
pub proof fn codes_have_names_of_their_own(a: ErrorCode, b: ErrorCode)
    ensures
        a.named() == b.named() ==> a == b,
{
    reveal_strlit("invalid_request");
    reveal_strlit("protocol_mismatch");
    reveal_strlit("permission_denied");
    reveal_strlit("account_not_allowed");
    reveal_strlit("mailbox_not_allowed");
    reveal_strlit("message_not_found");
    reveal_strlit("stale_reference");
    reveal_strlit("stale_cursor");
    reveal_strlit("transfer_expired");
    reveal_strlit("authentication_failed");
    reveal_strlit("credential_unavailable");
    reveal_strlit("tls_failed");
    reveal_strlit("broker_unavailable");
    reveal_strlit("provider_unavailable");
    reveal_strlit("rate_limited");
    reveal_strlit("timeout");
    reveal_strlit("cancelled");
    reveal_strlit("response_too_large");
    reveal_strlit("attachment_too_large");
    reveal_strlit("unsupported_capability");
    reveal_strlit("draft_mailbox_unavailable");
    reveal_strlit("operation_conflict");
    reveal_strlit("operation_in_progress");
    reveal_strlit("outcome_unknown");
    reveal_strlit("journal_unavailable");
    reveal_strlit("journal_full");
    reveal_strlit("export_failed");
    reveal_strlit("export_cleanup_failed");
    reveal_strlit("export_finalization_failed");
    reveal_strlit("internal_error");
    reveal_strlit("operation_not_found");
    if a.named() == b.named() {
        assert(a.named().len() == b.named().len());
        assert(a.named()[2] == b.named()[2]);
    }
}

/// The failures with a text of their own: each belongs to one code, is not worth trying again, and tells
/// what to do or what is wrong.
pub proof fn particular_failures_have_their_text(error: Error)
    ensures
        error.asks_for_setup() ==> error.code is InvalidRequest && !error.retryable && error.message@
            == "Configuration is missing or invalid; run mailctl setup"@,
        error.names_obsolete_capacity() ==> error.code is InvalidRequest && !error.retryable && error.message@
            == "Remove obsolete runtime capacity settings from the configuration"@,
        error.names_schema() ==> error.code is JournalUnavailable && !error.retryable && error.message@
            == "Stored state has an incompatible schema"@,
        error.names_draft_conflict() ==> error.code is OperationConflict && !error.retryable && error.message@
            == "Draft operation was recorded with different content"@,
{
}

} // verus!
