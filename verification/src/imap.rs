//! Bounded IMAP operations shared by the application and protocol fixtures.
use vstd::prelude::*;

use crate::domain;
use crate::text::{byte_len, chars_of, control, is_control, utf8_len};

pub mod append;
pub mod attachment;
pub mod body;
pub mod decode;
pub mod discovery;
pub mod endpoint;
pub mod fetch;
pub mod framing;
pub mod mime;
pub mod projection;
pub mod search;
pub mod types;
pub mod wire;

verus! {

#[derive(Clone, Copy, Debug, PartialEq, Eq, Structural)]
pub enum Error {
    InvalidInput,
    Unsupported,
    Transport,
    Tls,
    Timeout,
    Eof,
    Protocol,
    Limit,
    Authentication,
    UnsafeSelection,
    StaleReference,
    MessageNotFound,
    StaleCursor,
    TransferExpired,
}

impl Error {
    /// What went wrong, without anything that the server or the caller said.
    pub open spec fn description(self) -> Seq<char> {
        match self {
            Error::InvalidInput => "invalid IMAP input"@,
            Error::Unsupported => "unsupported IMAP route"@,
            Error::Transport => "IMAP transport failed"@,
            Error::Tls => "IMAP TLS verification failed"@,
            Error::Timeout => "IMAP operation timed out"@,
            Error::Eof => "IMAP connection closed"@,
            Error::Protocol => "invalid IMAP response"@,
            Error::Limit => "IMAP resource limit exceeded"@,
            Error::Authentication => "IMAP authentication failed"@,
            Error::UnsafeSelection => "IMAP read-only selection was not established"@,
            Error::StaleReference => "message reference is stale"@,
            Error::MessageNotFound => "message was not found"@,
            Error::StaleCursor => "message body continuation is stale"@,
            Error::TransferExpired => "attachment transfer expired"@,
        }
    }

    pub fn text(self) -> (r: String)
        ensures
            r@ == self.description(),
    {
        let text = match self {
            Error::InvalidInput => "invalid IMAP input",
            Error::Unsupported => "unsupported IMAP route",
            Error::Transport => "IMAP transport failed",
            Error::Tls => "IMAP TLS verification failed",
            Error::Timeout => "IMAP operation timed out",
            Error::Eof => "IMAP connection closed",
            Error::Protocol => "invalid IMAP response",
            Error::Limit => "IMAP resource limit exceeded",
            Error::Authentication => "IMAP authentication failed",
            Error::UnsafeSelection => "IMAP read-only selection was not established",
            Error::StaleReference => "message reference is stale",
            Error::MessageNotFound => "message was not found",
            Error::StaleCursor => "message body continuation is stale",
            Error::TransferExpired => "attachment transfer expired",
        };
        text.to_owned()
    }

    /// How the application reports the failure.
    pub open spec fn reported(self) -> domain::ErrorCode {
        match self {
            Error::Authentication => domain::ErrorCode::AuthenticationFailed,
            Error::Tls => domain::ErrorCode::TlsFailed,
            Error::Timeout => domain::ErrorCode::Timeout,
            Error::Unsupported => domain::ErrorCode::UnsupportedCapability,
            Error::Limit => domain::ErrorCode::ResponseTooLarge,
            Error::InvalidInput => domain::ErrorCode::InvalidRequest,
            Error::StaleReference => domain::ErrorCode::StaleReference,
            Error::MessageNotFound => domain::ErrorCode::MessageNotFound,
            _ => domain::ErrorCode::ProviderUnavailable,
        }
    }

    pub fn report(self) -> (r: domain::Error)
        ensures
            r.reports(self.reported()),
    {
        domain::Error::new(
            match self {
                Error::Authentication => domain::ErrorCode::AuthenticationFailed,
                Error::Tls => domain::ErrorCode::TlsFailed,
                Error::Timeout => domain::ErrorCode::Timeout,
                Error::Unsupported => domain::ErrorCode::UnsupportedCapability,
                Error::Limit => domain::ErrorCode::ResponseTooLarge,
                Error::InvalidInput => domain::ErrorCode::InvalidRequest,
                Error::StaleReference => domain::ErrorCode::StaleReference,
                Error::MessageNotFound => domain::ErrorCode::MessageNotFound,
                _ => domain::ErrorCode::ProviderUnavailable,
            },
        )
    }
}

/// An address as it was sent, in text.
#[derive(Debug, PartialEq, Eq)]
pub struct Address {
    pub name: Option<String>,
    pub mailbox: Option<String>,
    pub host: Option<String>,
}

/// The envelope of a message as it was sent, in text.
#[derive(Debug, PartialEq, Eq)]
pub struct Envelope {
    pub uid: u32,
    pub subject: Option<String>,
    pub from: Vec<Address>,
    pub to: Vec<Address>,
    pub cc: Vec<Address>,
    pub received_date: Option<String>,
    pub sent_date: Option<String>,
    pub flags: Vec<String>,
    pub message_id: Option<String>,
    pub size: Option<u32>,
}

#[derive(Clone, Copy, Debug, PartialEq, Eq, Structural)]
pub enum TlsMode {
    Implicit,
    StartTls,
}

impl Default for TlsMode {
    fn default() -> (r: Self)
        ensures
            r == TlsMode::Implicit,
    {
        TlsMode::Implicit
    }
}

#[derive(Clone, Copy, Debug, PartialEq, Eq, Structural)]
pub struct Limits {
    pub max_response_bytes: usize,
    pub max_operation_bytes: usize,
    pub max_literal_bytes: usize,
    pub max_responses: usize,
    pub max_parser_steps: usize,
    pub max_nesting: usize,
    pub max_mailboxes: usize,
    pub max_header_bytes: usize,
    pub max_mime_parts: usize,
    pub max_body_wire_bytes: usize,
    pub max_decoded_bytes: usize,
    pub max_text_bytes: usize,
    pub max_decode_steps: usize,
    pub max_attachment_decoded_bytes: usize,
    pub max_attachment_wire_bytes: usize,
    pub max_attachment_chunk_bytes: usize,
    pub operation_timeout_millis: u64,
    pub connect_timeout_millis: u64,
}

impl Limits {
    /// The settings that hold where nothing else is asked for.
    pub open spec fn standard() -> Limits {
        Limits {
            max_response_bytes: 65536,
            max_operation_bytes: 4194304,
            max_literal_bytes: 65536,
            max_responses: 4096,
            max_parser_steps: 8388608,
            max_nesting: 20,
            max_mailboxes: 1000,
            max_header_bytes: 65536,
            max_mime_parts: 200,
            max_body_wire_bytes: 2097152,
            max_decoded_bytes: 8388608,
            max_text_bytes: 262144,
            max_decode_steps: 33554432,
            max_attachment_decoded_bytes: 10485760,
            max_attachment_wire_bytes: 16777216,
            max_attachment_chunk_bytes: 65536,
            operation_timeout_millis: 30000,
            connect_timeout_millis: 10000,
        }
    }

    /// Every ceiling is positive and finite, and the ceilings fit each other.
    pub open spec fn valid(self) -> bool {
        &&& 1 <= self.max_response_bytes <= 262144
        &&& self.max_response_bytes <= self.max_operation_bytes <= 16777216
        &&& 1 <= self.max_literal_bytes <= self.max_response_bytes
        &&& 1 <= self.max_responses <= 16384
        &&& 1 <= self.max_parser_steps <= 33554432
        &&& 1 <= self.max_nesting <= 40
        &&& 1 <= self.max_mailboxes <= 1000
        &&& 1 <= self.max_header_bytes <= 262144
        &&& 1 <= self.max_mime_parts <= 1000
        &&& 1 <= self.max_body_wire_bytes <= 8388608
        &&& 1 <= self.max_decoded_bytes <= 33554432
        &&& 4 <= self.max_text_bytes <= 2097152
        &&& 1 <= self.max_decode_steps <= 134217728
        &&& 1 <= self.max_attachment_decoded_bytes <= 33554432
        &&& 1 <= self.max_attachment_wire_bytes <= 67108864
        &&& 1 <= self.max_attachment_chunk_bytes <= 262144
        &&& 1 <= self.operation_timeout_millis <= 120000
        &&& 1 <= self.connect_timeout_millis <= 30000
    }

    pub fn validate(&self) -> (r: Result<(), Error>)
        ensures
            r == (if self.valid() {
                Ok::<(), Error>(())
            } else {
                Err(Error::InvalidInput)
            }),
    {
        if self.max_response_bytes == 0 || self.max_response_bytes > 262144
            || self.max_operation_bytes < self.max_response_bytes || self.max_operation_bytes
            > 16777216 || self.max_literal_bytes == 0 || self.max_literal_bytes
            > self.max_response_bytes || self.max_responses == 0 || self.max_responses > 16384
            || self.max_parser_steps == 0 || self.max_parser_steps > 33554432 || self.max_nesting
            == 0 || self.max_nesting > 40 || self.max_mailboxes == 0 || self.max_mailboxes > 1000
            || self.max_header_bytes == 0 || self.max_header_bytes > 262144 || self.max_mime_parts
            == 0 || self.max_mime_parts > 1000 || self.max_body_wire_bytes == 0
            || self.max_body_wire_bytes > 8388608 || self.max_decoded_bytes == 0
            || self.max_decoded_bytes > 33554432 || self.max_text_bytes < 4 || self.max_text_bytes
            > 2097152 || self.max_decode_steps == 0 || self.max_decode_steps > 134217728
            || self.max_attachment_decoded_bytes == 0 || self.max_attachment_decoded_bytes
            > 33554432 || self.max_attachment_wire_bytes == 0 || self.max_attachment_wire_bytes
            > 67108864 || self.max_attachment_chunk_bytes == 0 || self.max_attachment_chunk_bytes
            > 262144 || self.operation_timeout_millis == 0 || self.operation_timeout_millis
            > 120000 || self.connect_timeout_millis == 0 || self.connect_timeout_millis > 30000 {
            Err(Error::InvalidInput)
        } else {
            Ok(())
        }
    }
}

impl Default for Limits {
    fn default() -> (r: Self)
        ensures
            r == Limits::standard(),
            r.valid(),
    {
        Limits {
            max_response_bytes: 65536,
            max_operation_bytes: 4194304,
            max_literal_bytes: 65536,
            max_responses: 4096,
            max_parser_steps: 8388608,
            max_nesting: 20,
            max_mailboxes: 1000,
            max_header_bytes: 65536,
            max_mime_parts: 200,
            max_body_wire_bytes: 2097152,
            max_decoded_bytes: 8388608,
            max_text_bytes: 262144,
            max_decode_steps: 33554432,
            max_attachment_decoded_bytes: 10485760,
            max_attachment_wire_bytes: 16777216,
            max_attachment_chunk_bytes: 65536,
            operation_timeout_millis: 30000,
            connect_timeout_millis: 10000,
        }
    }
}

/// What one operation has used so far.
#[derive(Clone, Copy, Debug, PartialEq, Eq, Structural)]
pub struct Metrics {
    pub append_outcome: Option<append::AppendOutcome>,
    pub append_wire_bytes: usize,
    pub mime_bytes: usize,
    pub wire_bytes: usize,
    pub responses: usize,
    pub parser_steps: usize,
    pub max_response_bytes: usize,
    pub max_literal_bytes: usize,
    pub max_buffered_bytes: usize,
    pub decode_steps: usize,
    pub decoded_bytes: usize,
    /// Cumulative attachment payload bytes obtained over the current transfer.
    pub transfer_wire_bytes: usize,
    pub transfer_decoded_bytes: usize,
    pub transfer_decode_steps: usize,
    pub max_transfer_state_bytes: usize,
}

impl Default for Metrics {
    fn default() -> (r: Self)
        ensures
            r.unused(),
    {
        Metrics {
            append_outcome: None,
            append_wire_bytes: 0,
            mime_bytes: 0,
            wire_bytes: 0,
            responses: 0,
            parser_steps: 0,
            max_response_bytes: 0,
            max_literal_bytes: 0,
            max_buffered_bytes: 0,
            decode_steps: 0,
            decoded_bytes: 0,
            transfer_wire_bytes: 0,
            transfer_decoded_bytes: 0,
            transfer_decode_steps: 0,
            max_transfer_state_bytes: 0,
        }
    }
}

impl Metrics {
    /// Nothing has been used.
    pub open spec fn unused(self) -> bool {
        self == Metrics {
            append_outcome: None,
            append_wire_bytes: 0,
            mime_bytes: 0,
            wire_bytes: 0,
            responses: 0,
            parser_steps: 0,
            max_response_bytes: 0,
            max_literal_bytes: 0,
            max_buffered_bytes: 0,
            decode_steps: 0,
            decoded_bytes: 0,
            transfer_wire_bytes: 0,
            transfer_decoded_bytes: 0,
            transfer_decode_steps: 0,
            max_transfer_state_bytes: 0,
        }
    }
}

pub open spec fn is_printable(c: char) -> bool {
    ' ' <= c <= '~'
}

pub open spec fn is_printable_text(s: Seq<char>) -> bool {
    forall|i: int| 0 <= i < s.len() ==> is_printable(#[trigger] s[i])
}

fn printable(text: &str) -> (r: bool)
    ensures
        r == is_printable_text(text@),
{
    let chars = chars_of(text);
    for i in 0..chars.len()
        invariant
            chars@ == text@,
            forall|j: int| 0 <= j < i ==> is_printable(#[trigger] text@[j]),
    {
        if !(' ' <= chars[i] && chars[i] <= '~') {
            assert(!is_printable(text@[i as int]));
            return false;
        }
    }
    true
}

/// Accepts a user name and a password that can be sent as quoted strings.
pub fn credentials(user: &str, password: &str) -> (r: Result<(), Error>)
    ensures
        r == (if user@.len() == 0 || utf8_len(user@) > 4096 || password@.len() == 0 || utf8_len(
            password@,
        ) > 65536 {
            Err::<(), Error>(Error::InvalidInput)
        } else if is_printable_text(user@) && is_printable_text(password@) {
            Ok(())
        } else {
            Err(Error::Unsupported)
        }),
{
    if user.is_empty() || byte_len(user) > 4096 || password.is_empty() || byte_len(password)
        > 65536 {
        return Err(Error::InvalidInput);
    }
    if !printable(user) || !printable(password) {
        return Err(Error::Unsupported);
    }
    Ok(())
}

/// The character can stand in a mailbox name without acting as a pattern or a control.
pub open spec fn is_mailbox_char(c: char) -> bool {
    !is_control(c) && c != '*' && c != '%'
}

pub open spec fn mailbox_verdict(name: Seq<char>) -> Result<(), Error> {
    if name.len() == 0 || utf8_len(name) > 4096 {
        Err(Error::InvalidInput)
    } else if forall|i: int| 0 <= i < name.len() ==> is_mailbox_char(#[trigger] name[i]) {
        Ok(())
    } else {
        Err(Error::Unsupported)
    }
}

/// Accepts a mailbox name that names exactly one mailbox.
pub fn mailbox(name: &str) -> (r: Result<(), Error>)
    ensures
        r == mailbox_verdict(name@),
{
    if name.is_empty() || byte_len(name) > 4096 {
        return Err(Error::InvalidInput);
    }
    let chars = chars_of(name);
    for i in 0..chars.len()
        invariant
            chars@ == name@,
            name@.len() > 0,
            utf8_len(name@) <= 4096,
            forall|j: int| 0 <= j < i ==> is_mailbox_char(#[trigger] name@[j]),
    {
        let c = chars[i];
        if control(c) || c == '*' || c == '%' {
            assert(!is_mailbox_char(name@[i as int]));
            return Err(Error::Unsupported);
        }
    }
    Ok(())
}

/// Each failure is reported under one code: those that a caller can act on under a code of their own, and
/// every other one as an unavailable provider.
pub proof fn failures_are_reported_by_kind(error: Error)
    ensures
        error.reported() == domain::ErrorCode::AuthenticationFailed <==> error == Error::Authentication,
        error.reported() == domain::ErrorCode::TlsFailed <==> error == Error::Tls,
        error.reported() == domain::ErrorCode::Timeout <==> error == Error::Timeout,
        error.reported() == domain::ErrorCode::UnsupportedCapability <==> error == Error::Unsupported,
        error.reported() == domain::ErrorCode::ResponseTooLarge <==> error == Error::Limit,
        error.reported() == domain::ErrorCode::InvalidRequest <==> error == Error::InvalidInput,
        error.reported() == domain::ErrorCode::StaleReference <==> error == Error::StaleReference,
        error.reported() == domain::ErrorCode::MessageNotFound <==> error == Error::MessageNotFound,
        error.reported() == domain::ErrorCode::ProviderUnavailable <==> (error == Error::Transport || error
            == Error::Eof || error == Error::Protocol || error == Error::UnsafeSelection || error
            == Error::StaleCursor || error == Error::TransferExpired),
{
}

/// Different failures are described differently.
pub proof fn failures_are_described_apart(a: Error, b: Error)
    ensures
        a.description() == b.description() ==> a == b,
{
    reveal_strlit("invalid IMAP input");
    reveal_strlit("unsupported IMAP route");
    reveal_strlit("IMAP transport failed");
    reveal_strlit("IMAP TLS verification failed");
    reveal_strlit("IMAP operation timed out");
    reveal_strlit("IMAP connection closed");
    reveal_strlit("invalid IMAP response");
    reveal_strlit("IMAP resource limit exceeded");
    reveal_strlit("IMAP authentication failed");
    reveal_strlit("IMAP read-only selection was not established");
    reveal_strlit("message reference is stale");
    reveal_strlit("message was not found");
    reveal_strlit("message body continuation is stale");
    reveal_strlit("attachment transfer expired");
    if a.description() == b.description() {
        assert(a.description().len() == b.description().len());
        assert(a.description()[0] == b.description()[0]);
        assert(a.description()[5] == b.description()[5]);
        assert(a.description()[13] == b.description()[13]);
    }
}

/// The standard limits are valid ones, and no limit is zero or above its ceiling in valid ones.
pub proof fn standard_limits_are_valid(limits: Limits)
    ensures
        Limits::standard().valid(),
        limits.valid() ==> {
            &&& limits.max_response_bytes <= 256 * 1024 && limits.max_operation_bytes <= 16 * 1024 * 1024
            &&& 0 < limits.max_literal_bytes <= limits.max_response_bytes <= limits.max_operation_bytes
            &&& 0 < limits.max_responses <= 16 * 1024 && 0 < limits.max_parser_steps <= 32 * 1024 * 1024
            &&& 0 < limits.max_nesting <= 40 && 0 < limits.max_mailboxes <= 1000
            &&& 0 < limits.max_header_bytes <= 256 * 1024 && 0 < limits.max_mime_parts <= 1000
            &&& 0 < limits.max_body_wire_bytes <= 8 * 1024 * 1024
            &&& 0 < limits.max_decoded_bytes <= 32 * 1024 * 1024
            &&& 4 <= limits.max_text_bytes <= 2 * 1024 * 1024
            &&& 0 < limits.max_decode_steps <= 128 * 1024 * 1024
            &&& 0 < limits.max_attachment_decoded_bytes <= 32 * 1024 * 1024
            &&& 0 < limits.max_attachment_wire_bytes <= 64 * 1024 * 1024
            &&& 0 < limits.max_attachment_chunk_bytes <= 256 * 1024
            &&& 0 < limits.operation_timeout_millis <= 120 * 1000
            &&& 0 < limits.connect_timeout_millis <= 30 * 1000
        },
        0 < limits.max_response_bytes <= 256 * 1024 && limits.max_response_bytes <= limits.max_operation_bytes
            <= 16 * 1024 * 1024 && 0 < limits.max_literal_bytes <= limits.max_response_bytes && 0
            < limits.max_responses <= 16 * 1024 && 0 < limits.max_parser_steps <= 32 * 1024 * 1024 && 0
            < limits.max_nesting <= 40 && 0 < limits.max_mailboxes <= 1000 && 0 < limits.max_header_bytes <= 256
            * 1024 && 0 < limits.max_mime_parts <= 1000 && 0 < limits.max_body_wire_bytes <= 8 * 1024 * 1024 && 0
            < limits.max_decoded_bytes <= 32 * 1024 * 1024 && 4 <= limits.max_text_bytes <= 2 * 1024 * 1024 && 0
            < limits.max_decode_steps <= 128 * 1024 * 1024 && 0 < limits.max_attachment_decoded_bytes <= 32 * 1024
            * 1024 && 0 < limits.max_attachment_wire_bytes <= 64 * 1024 * 1024 && 0
            < limits.max_attachment_chunk_bytes <= 256 * 1024 && 0 < limits.operation_timeout_millis <= 120
            * 1000 && 0 < limits.connect_timeout_millis <= 30 * 1000 ==> limits.valid(),
{
}

/// A mailbox name is accepted exactly where it has one to 4096 bytes and no control character or
/// wildcard; a name that could stand for other mailboxes is never accepted.
pub proof fn mailbox_names_are_plain(name: Seq<char>)
    ensures
        mailbox_verdict(name) is Ok <==> 0 < name.len() && utf8_len(name) <= 4096 && forall|i: int|
            0 <= i < name.len() ==> !is_control(#[trigger] name[i]) && name[i] != '*' && name[i] != '%',
        mailbox_verdict(Seq::empty()) == Err::<(), Error>(Error::InvalidInput),
        utf8_len(name) > 4096 ==> mailbox_verdict(name) == Err::<(), Error>(Error::InvalidInput),
        name.len() > 0 && utf8_len(name) <= 4096 && (name.contains('*') || name.contains('%'))
            ==> mailbox_verdict(name) == Err::<(), Error>(Error::Unsupported),
{
    if name.contains('*') {
        let i = choose|i: int| 0 <= i < name.len() && name[i] == '*';
        assert(!is_mailbox_char(name[i]));
    }
    if name.contains('%') {
        let i = choose|i: int| 0 <= i < name.len() && name[i] == '%';
        assert(!is_mailbox_char(name[i]));
    }
    if forall|i: int|
        0 <= i < name.len() ==> !is_control(#[trigger] name[i]) && name[i] != '*' && name[i] != '%' {
        assert forall|i: int| 0 <= i < name.len() implies is_mailbox_char(#[trigger] name[i]) by {}
    } else {
        let i = choose|i: int|
            0 <= i < name.len() && !(!is_control(#[trigger] name[i]) && name[i] != '*' && name[i] != '%');
        assert(!is_mailbox_char(name[i]));
    }
}

/// Printable text is made of the characters from the space to the tilde.
pub proof fn printable_text_is_plain(s: Seq<char>, i: int)
    requires
        0 <= i < s.len(),
        is_printable_text(s),
    ensures
        0x20 <= s[i] as int && (s[i] as int) < 0x7f,
        !is_control(s[i]),
{
    let c: char = s[i];
    assert(is_printable(c));
}

} // verus!
