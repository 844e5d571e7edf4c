//! Resource ceilings: what each setting may be, and how the settings relate.
use vstd::prelude::*;

use crate::domain::Error;
use crate::encoding::request_buffer_bytes;
use crate::encoding::request_buffer_size;

verus! {

#[derive(Clone, Copy, Debug, PartialEq, Eq, Structural)]
pub struct Limits {
    pub envelope_bytes: usize,
    pub json_nesting: usize,
    pub search_page: usize,
    pub search_uid_window: usize,
    pub search_windows: usize,
    pub mailbox_page: usize,
    pub mailbox_inventory: usize,
    pub text_page_bytes: usize,
    pub wire_fetch_bytes: usize,
    pub header_bytes: usize,
    pub mime_depth: usize,
    pub mime_parts: usize,
    pub attachment_decoded_bytes: usize,
    pub attachment_wire_bytes: usize,
    pub attachment_chunk_bytes: usize,
    pub transfer_seconds: usize,
    pub transfers_per_account: usize,
    pub token_bytes: usize,
    pub draft_mime_bytes: usize,
    pub operation_seconds: usize,
    pub connection_seconds: usize,
    pub account_connections: usize,
    pub account_pending_requests: usize,
    pub secret_bytes: usize,
    pub command_stderr_bytes: usize,
    pub secret_command_seconds: usize,
    pub journal_records: usize,
    pub accounts: usize,
    pub grants: usize,
    pub initialization_seconds: usize,
    pub active_requests: usize,
    pub queued_requests: usize,
    pub buffered_bytes: usize,
    pub credential_workers: usize,
    pub queued_credentials: usize,
    pub doctor_checks_per_minute: usize,
    pub connection_lifetime_seconds: usize,
}

impl Default for Limits {
    fn default() -> (r: Self)
        ensures
            r.valid(),
            r == Limits::standard(),
    {
        let limits = Limits {
            envelope_bytes: 16 * 1024 * 1024,
            json_nesting: 32,
            search_page: 50,
            search_uid_window: 1000,
            search_windows: 10,
            mailbox_page: 200,
            mailbox_inventory: 1000,
            text_page_bytes: 256 * 1024,
            wire_fetch_bytes: 2 * 1024 * 1024,
            header_bytes: 64 * 1024,
            mime_depth: 20,
            mime_parts: 200,
            attachment_decoded_bytes: 10 * 1024 * 1024,
            attachment_wire_bytes: 16 * 1024 * 1024,
            attachment_chunk_bytes: 64 * 1024,
            transfer_seconds: 300,
            transfers_per_account: 2,
            token_bytes: 2048,
            draft_mime_bytes: 1024 * 1024,
            operation_seconds: 30,
            connection_seconds: 10,
            account_connections: 2,
            account_pending_requests: 16,
            secret_bytes: 16 * 1024,
            command_stderr_bytes: 8 * 1024,
            secret_command_seconds: 15,
            journal_records: 100000,
            accounts: 32,
            grants: 8,
            initialization_seconds: 5,
            active_requests: 16,
            queued_requests: 64,
            buffered_bytes: 64 * 1024 * 1024,
            credential_workers: 2,
            queued_credentials: 8,
            doctor_checks_per_minute: 2,
            connection_lifetime_seconds: 300,
        };
        proof {
            crate::encoding::request_buffer_bound(limits.envelope_bytes as nat);
        }
        limits
    }
}

impl Limits {
    /// The settings that hold where the operator states none.
    pub open spec fn standard() -> Limits {
        Limits {
            envelope_bytes: 16777216,
            json_nesting: 32,
            search_page: 50,
            search_uid_window: 1000,
            search_windows: 10,
            mailbox_page: 200,
            mailbox_inventory: 1000,
            text_page_bytes: 262144,
            wire_fetch_bytes: 2097152,
            header_bytes: 65536,
            mime_depth: 20,
            mime_parts: 200,
            attachment_decoded_bytes: 10485760,
            attachment_wire_bytes: 16777216,
            attachment_chunk_bytes: 65536,
            transfer_seconds: 300,
            transfers_per_account: 2,
            token_bytes: 2048,
            draft_mime_bytes: 1048576,
            operation_seconds: 30,
            connection_seconds: 10,
            account_connections: 2,
            account_pending_requests: 16,
            secret_bytes: 16384,
            command_stderr_bytes: 8192,
            secret_command_seconds: 15,
            journal_records: 100000,
            accounts: 32,
            grants: 8,
            initialization_seconds: 5,
            active_requests: 16,
            queued_requests: 64,
            buffered_bytes: 67108864,
            credential_workers: 2,
            queued_credentials: 8,
            doctor_checks_per_minute: 2,
            connection_lifetime_seconds: 300,
        }
    }

    /// The largest value that each setting may take.
    pub open spec fn greatest() -> Limits {
        Limits {
            envelope_bytes: 67108864,
            json_nesting: 64,
            search_page: 200,
            search_uid_window: 10000,
            search_windows: 100,
            mailbox_page: 1000,
            mailbox_inventory: 1000,
            text_page_bytes: 2097152,
            wire_fetch_bytes: 8388608,
            header_bytes: 262144,
            mime_depth: 40,
            mime_parts: 1000,
            attachment_decoded_bytes: 33554432,
            attachment_wire_bytes: 67108864,
            attachment_chunk_bytes: 262144,
            transfer_seconds: 600,
            transfers_per_account: 4,
            token_bytes: 8192,
            draft_mime_bytes: 8388608,
            operation_seconds: 120,
            connection_seconds: 30,
            account_connections: 4,
            account_pending_requests: 64,
            secret_bytes: 65536,
            command_stderr_bytes: 32768,
            secret_command_seconds: 60,
            journal_records: 1000000,
            accounts: 256,
            grants: 32,
            initialization_seconds: 10,
            active_requests: 64,
            queued_requests: 256,
            buffered_bytes: 268435456,
            credential_workers: 8,
            queued_credentials: 32,
            doctor_checks_per_minute: 12,
            connection_lifetime_seconds: 900,
        }
    }

    /// Every setting is positive.
    pub open spec fn positive(self) -> bool {
        &&& self.envelope_bytes > 0
        &&& self.json_nesting > 0
        &&& self.search_page > 0
        &&& self.search_uid_window > 0
        &&& self.search_windows > 0
        &&& self.mailbox_page > 0
        &&& self.mailbox_inventory > 0
        &&& self.text_page_bytes > 0
        &&& self.wire_fetch_bytes > 0
        &&& self.header_bytes > 0
        &&& self.mime_depth > 0
        &&& self.mime_parts > 0
        &&& self.attachment_decoded_bytes > 0
        &&& self.attachment_wire_bytes > 0
        &&& self.attachment_chunk_bytes > 0
        &&& self.transfer_seconds > 0
        &&& self.transfers_per_account > 0
        &&& self.token_bytes > 0
        &&& self.draft_mime_bytes > 0
        &&& self.operation_seconds > 0
        &&& self.connection_seconds > 0
        &&& self.account_connections > 0
        &&& self.account_pending_requests > 0
        &&& self.secret_bytes > 0
        &&& self.command_stderr_bytes > 0
        &&& self.secret_command_seconds > 0
        &&& self.journal_records > 0
        &&& self.accounts > 0
        &&& self.grants > 0
        &&& self.initialization_seconds > 0
        &&& self.active_requests > 0
        &&& self.queued_requests > 0
        &&& self.buffered_bytes > 0
        &&& self.credential_workers > 0
        &&& self.queued_credentials > 0
        &&& self.doctor_checks_per_minute > 0
        &&& self.connection_lifetime_seconds > 0
    }

    /// No setting exceeds the one of `ceiling`.
    pub open spec fn within(self, ceiling: Limits) -> bool {
        &&& self.envelope_bytes <= ceiling.envelope_bytes
        &&& self.json_nesting <= ceiling.json_nesting
        &&& self.search_page <= ceiling.search_page
        &&& self.search_uid_window <= ceiling.search_uid_window
        &&& self.search_windows <= ceiling.search_windows
        &&& self.mailbox_page <= ceiling.mailbox_page
        &&& self.mailbox_inventory <= ceiling.mailbox_inventory
        &&& self.text_page_bytes <= ceiling.text_page_bytes
        &&& self.wire_fetch_bytes <= ceiling.wire_fetch_bytes
        &&& self.header_bytes <= ceiling.header_bytes
        &&& self.mime_depth <= ceiling.mime_depth
        &&& self.mime_parts <= ceiling.mime_parts
        &&& self.attachment_decoded_bytes <= ceiling.attachment_decoded_bytes
        &&& self.attachment_wire_bytes <= ceiling.attachment_wire_bytes
        &&& self.attachment_chunk_bytes <= ceiling.attachment_chunk_bytes
        &&& self.transfer_seconds <= ceiling.transfer_seconds
        &&& self.transfers_per_account <= ceiling.transfers_per_account
        &&& self.token_bytes <= ceiling.token_bytes
        &&& self.draft_mime_bytes <= ceiling.draft_mime_bytes
        &&& self.operation_seconds <= ceiling.operation_seconds
        &&& self.connection_seconds <= ceiling.connection_seconds
        &&& self.account_connections <= ceiling.account_connections
        &&& self.account_pending_requests <= ceiling.account_pending_requests
        &&& self.secret_bytes <= ceiling.secret_bytes
        &&& self.command_stderr_bytes <= ceiling.command_stderr_bytes
        &&& self.secret_command_seconds <= ceiling.secret_command_seconds
        &&& self.journal_records <= ceiling.journal_records
        &&& self.accounts <= ceiling.accounts
        &&& self.grants <= ceiling.grants
        &&& self.initialization_seconds <= ceiling.initialization_seconds
        &&& self.active_requests <= ceiling.active_requests
        &&& self.queued_requests <= ceiling.queued_requests
        &&& self.buffered_bytes <= ceiling.buffered_bytes
        &&& self.credential_workers <= ceiling.credential_workers
        &&& self.queued_credentials <= ceiling.queued_credentials
        &&& self.doctor_checks_per_minute <= ceiling.doctor_checks_per_minute
        &&& self.connection_lifetime_seconds <= ceiling.connection_lifetime_seconds
    }

    /// The settings are in range, one message and one response fit the shared buffer together,
    /// and no part of an operation outlasts the operation.
    pub open spec fn valid(self) -> bool {
        &&& self.positive()
        &&& self.within(Limits::greatest())
        &&& self.buffered_bytes >= request_buffer_size(self.envelope_bytes as nat)
            + self.envelope_bytes + 192
        &&& self.envelope_bytes >= 1024
        &&& self.connection_seconds <= self.operation_seconds
        &&& self.initialization_seconds <= self.operation_seconds
        &&& self.mailbox_page <= self.mailbox_inventory
    }

    /// Whether no setting exceeds the one of `ceiling`.
    pub fn fits_within(&self, ceiling: &Limits) -> (r: bool)
        ensures
            r == self.within(*ceiling),
    {
        self.envelope_bytes <= ceiling.envelope_bytes
            && self.json_nesting <= ceiling.json_nesting
            && self.search_page <= ceiling.search_page
            && self.search_uid_window <= ceiling.search_uid_window
            && self.search_windows <= ceiling.search_windows
            && self.mailbox_page <= ceiling.mailbox_page
            && self.mailbox_inventory <= ceiling.mailbox_inventory
            && self.text_page_bytes <= ceiling.text_page_bytes
            && self.wire_fetch_bytes <= ceiling.wire_fetch_bytes
            && self.header_bytes <= ceiling.header_bytes
            && self.mime_depth <= ceiling.mime_depth
            && self.mime_parts <= ceiling.mime_parts
            && self.attachment_decoded_bytes <= ceiling.attachment_decoded_bytes
            && self.attachment_wire_bytes <= ceiling.attachment_wire_bytes
            && self.attachment_chunk_bytes <= ceiling.attachment_chunk_bytes
            && self.transfer_seconds <= ceiling.transfer_seconds
            && self.transfers_per_account <= ceiling.transfers_per_account
            && self.token_bytes <= ceiling.token_bytes
            && self.draft_mime_bytes <= ceiling.draft_mime_bytes
            && self.operation_seconds <= ceiling.operation_seconds
            && self.connection_seconds <= ceiling.connection_seconds
            && self.account_connections <= ceiling.account_connections
            && self.account_pending_requests <= ceiling.account_pending_requests
            && self.secret_bytes <= ceiling.secret_bytes
            && self.command_stderr_bytes <= ceiling.command_stderr_bytes
            && self.secret_command_seconds <= ceiling.secret_command_seconds
            && self.journal_records <= ceiling.journal_records
            && self.accounts <= ceiling.accounts
            && self.grants <= ceiling.grants
            && self.initialization_seconds <= ceiling.initialization_seconds
            && self.active_requests <= ceiling.active_requests
            && self.queued_requests <= ceiling.queued_requests
            && self.buffered_bytes <= ceiling.buffered_bytes
            && self.credential_workers <= ceiling.credential_workers
            && self.queued_credentials <= ceiling.queued_credentials
            && self.doctor_checks_per_minute <= ceiling.doctor_checks_per_minute
            && self.connection_lifetime_seconds <= ceiling.connection_lifetime_seconds
    }

    /// Whether every setting is positive and at most its largest value.
    fn in_range(&self) -> (r: bool)
        ensures
            r == (self.positive() && self.within(Limits::greatest())),
    {
        self.envelope_bytes > 0 && self.envelope_bytes <= 64 * 1024 * 1024
            && self.json_nesting > 0 && self.json_nesting <= 64
            && self.search_page > 0 && self.search_page <= 200
            && self.search_uid_window > 0 && self.search_uid_window <= 10000
            && self.search_windows > 0 && self.search_windows <= 100
            && self.mailbox_page > 0 && self.mailbox_page <= 1000
            && self.mailbox_inventory > 0 && self.mailbox_inventory <= 1000
            && self.text_page_bytes > 0 && self.text_page_bytes <= 2 * 1024 * 1024
            && self.wire_fetch_bytes > 0 && self.wire_fetch_bytes <= 8 * 1024 * 1024
            && self.header_bytes > 0 && self.header_bytes <= 256 * 1024
            && self.mime_depth > 0 && self.mime_depth <= 40
            && self.mime_parts > 0 && self.mime_parts <= 1000
            && self.attachment_decoded_bytes > 0 && self.attachment_decoded_bytes <= 32 * 1024 * 1024
            && self.attachment_wire_bytes > 0 && self.attachment_wire_bytes <= 64 * 1024 * 1024
            && self.attachment_chunk_bytes > 0 && self.attachment_chunk_bytes <= 256 * 1024
            && self.transfer_seconds > 0 && self.transfer_seconds <= 600
            && self.transfers_per_account > 0 && self.transfers_per_account <= 4
            && self.token_bytes > 0 && self.token_bytes <= 8192
            && self.draft_mime_bytes > 0 && self.draft_mime_bytes <= 8 * 1024 * 1024
            && self.operation_seconds > 0 && self.operation_seconds <= 120
            && self.connection_seconds > 0 && self.connection_seconds <= 30
            && self.account_connections > 0 && self.account_connections <= 4
            && self.account_pending_requests > 0 && self.account_pending_requests <= 64
            && self.secret_bytes > 0 && self.secret_bytes <= 64 * 1024
            && self.command_stderr_bytes > 0 && self.command_stderr_bytes <= 32 * 1024
            && self.secret_command_seconds > 0 && self.secret_command_seconds <= 60
            && self.journal_records > 0 && self.journal_records <= 1000000
            && self.accounts > 0 && self.accounts <= 256
            && self.grants > 0 && self.grants <= 32
            && self.initialization_seconds > 0 && self.initialization_seconds <= 10
            && self.active_requests > 0 && self.active_requests <= 64
            && self.queued_requests > 0 && self.queued_requests <= 256
            && self.buffered_bytes > 0 && self.buffered_bytes <= 256 * 1024 * 1024
            && self.credential_workers > 0 && self.credential_workers <= 8
            && self.queued_credentials > 0 && self.queued_credentials <= 32
            && self.doctor_checks_per_minute > 0 && self.doctor_checks_per_minute <= 12
            && self.connection_lifetime_seconds > 0 && self.connection_lifetime_seconds <= 900
    }

    pub fn validate(&self) -> (r: Result<(), Error>)
        ensures
            r is Ok <==> self.valid(),
            r matches Err(error) ==> error.asks_for_setup(),
    {
        if !self.in_range() {
            return Err(Error::setup_required());
        }
        proof {
            crate::encoding::request_buffer_bound(self.envelope_bytes as nat);
        }
        if self.buffered_bytes < request_buffer_bytes(self.envelope_bytes) + self.envelope_bytes
            + 192 || self.envelope_bytes < 1024 || self.connection_seconds > self.operation_seconds
            || self.initialization_seconds > self.operation_seconds || self.mailbox_page
            > self.mailbox_inventory {
            return Err(Error::setup_required());
        }
        Ok(())
    }
}

/// Settings that a grant states for itself.
#[derive(Clone, Copy, Debug, Default)]
pub struct LimitOverrides {
    pub envelope_bytes: Option<usize>,
    pub json_nesting: Option<usize>,
    pub search_page: Option<usize>,
    pub search_uid_window: Option<usize>,
    pub search_windows: Option<usize>,
    pub mailbox_page: Option<usize>,
    pub mailbox_inventory: Option<usize>,
    pub text_page_bytes: Option<usize>,
    pub wire_fetch_bytes: Option<usize>,
    pub header_bytes: Option<usize>,
    pub mime_depth: Option<usize>,
    pub mime_parts: Option<usize>,
    pub attachment_decoded_bytes: Option<usize>,
    pub attachment_wire_bytes: Option<usize>,
    pub attachment_chunk_bytes: Option<usize>,
    pub transfer_seconds: Option<usize>,
    pub transfers_per_account: Option<usize>,
    pub token_bytes: Option<usize>,
    pub draft_mime_bytes: Option<usize>,
    pub operation_seconds: Option<usize>,
    pub connection_seconds: Option<usize>,
    pub account_connections: Option<usize>,
    pub account_pending_requests: Option<usize>,
    pub secret_bytes: Option<usize>,
    pub command_stderr_bytes: Option<usize>,
    pub secret_command_seconds: Option<usize>,
    pub journal_records: Option<usize>,
    pub accounts: Option<usize>,
    pub grants: Option<usize>,
    pub initialization_seconds: Option<usize>,
    pub active_requests: Option<usize>,
    pub queued_requests: Option<usize>,
    pub buffered_bytes: Option<usize>,
    pub credential_workers: Option<usize>,
    pub queued_credentials: Option<usize>,
    pub doctor_checks_per_minute: Option<usize>,
    pub connection_lifetime_seconds: Option<usize>,
}

/// The value stated for a setting, or the one it is inherited from.
pub open spec fn stated(value: Option<usize>, inherited: usize) -> usize {
    match value {
        Some(value) => value,
        None => inherited,
    }
}

fn stated_or(value: Option<usize>, inherited: usize) -> (r: usize)
    ensures
        r == stated(value, inherited),
{
    match value {
        Some(value) => value,
        None => inherited,
    }
}

impl LimitOverrides {
    /// `ceiling` with the stated settings put in.
    pub open spec fn applied(self, ceiling: Limits) -> Limits {
        Limits {
            envelope_bytes: stated(self.envelope_bytes, ceiling.envelope_bytes),
            json_nesting: stated(self.json_nesting, ceiling.json_nesting),
            search_page: stated(self.search_page, ceiling.search_page),
            search_uid_window: stated(self.search_uid_window, ceiling.search_uid_window),
            search_windows: stated(self.search_windows, ceiling.search_windows),
            mailbox_page: stated(self.mailbox_page, ceiling.mailbox_page),
            mailbox_inventory: stated(self.mailbox_inventory, ceiling.mailbox_inventory),
            text_page_bytes: stated(self.text_page_bytes, ceiling.text_page_bytes),
            wire_fetch_bytes: stated(self.wire_fetch_bytes, ceiling.wire_fetch_bytes),
            header_bytes: stated(self.header_bytes, ceiling.header_bytes),
            mime_depth: stated(self.mime_depth, ceiling.mime_depth),
            mime_parts: stated(self.mime_parts, ceiling.mime_parts),
            attachment_decoded_bytes: stated(self.attachment_decoded_bytes, ceiling.attachment_decoded_bytes),
            attachment_wire_bytes: stated(self.attachment_wire_bytes, ceiling.attachment_wire_bytes),
            attachment_chunk_bytes: stated(self.attachment_chunk_bytes, ceiling.attachment_chunk_bytes),
            transfer_seconds: stated(self.transfer_seconds, ceiling.transfer_seconds),
            transfers_per_account: stated(self.transfers_per_account, ceiling.transfers_per_account),
            token_bytes: stated(self.token_bytes, ceiling.token_bytes),
            draft_mime_bytes: stated(self.draft_mime_bytes, ceiling.draft_mime_bytes),
            operation_seconds: stated(self.operation_seconds, ceiling.operation_seconds),
            connection_seconds: stated(self.connection_seconds, ceiling.connection_seconds),
            account_connections: stated(self.account_connections, ceiling.account_connections),
            account_pending_requests: stated(self.account_pending_requests, ceiling.account_pending_requests),
            secret_bytes: stated(self.secret_bytes, ceiling.secret_bytes),
            command_stderr_bytes: stated(self.command_stderr_bytes, ceiling.command_stderr_bytes),
            secret_command_seconds: stated(self.secret_command_seconds, ceiling.secret_command_seconds),
            journal_records: stated(self.journal_records, ceiling.journal_records),
            accounts: stated(self.accounts, ceiling.accounts),
            grants: stated(self.grants, ceiling.grants),
            initialization_seconds: stated(self.initialization_seconds, ceiling.initialization_seconds),
            active_requests: stated(self.active_requests, ceiling.active_requests),
            queued_requests: stated(self.queued_requests, ceiling.queued_requests),
            buffered_bytes: stated(self.buffered_bytes, ceiling.buffered_bytes),
            credential_workers: stated(self.credential_workers, ceiling.credential_workers),
            queued_credentials: stated(self.queued_credentials, ceiling.queued_credentials),
            doctor_checks_per_minute: stated(self.doctor_checks_per_minute, ceiling.doctor_checks_per_minute),
            connection_lifetime_seconds: stated(self.connection_lifetime_seconds, ceiling.connection_lifetime_seconds),
        }
    }

    /// Settings may only be lowered, and the result must stand on its own.
    pub fn resolve(self, ceiling: &Limits) -> (r: Result<Limits, Error>)
        ensures
            match r {
                Ok(limits) => limits == self.applied(*ceiling) && limits.within(*ceiling)
                    && limits.valid(),
                Err(error) => error.asks_for_setup() && !(self.applied(*ceiling).within(*ceiling)
                    && self.applied(*ceiling).valid()),
            },
    {
        let resolved = Limits {
            envelope_bytes: stated_or(self.envelope_bytes, ceiling.envelope_bytes),
            json_nesting: stated_or(self.json_nesting, ceiling.json_nesting),
            search_page: stated_or(self.search_page, ceiling.search_page),
            search_uid_window: stated_or(self.search_uid_window, ceiling.search_uid_window),
            search_windows: stated_or(self.search_windows, ceiling.search_windows),
            mailbox_page: stated_or(self.mailbox_page, ceiling.mailbox_page),
            mailbox_inventory: stated_or(self.mailbox_inventory, ceiling.mailbox_inventory),
            text_page_bytes: stated_or(self.text_page_bytes, ceiling.text_page_bytes),
            wire_fetch_bytes: stated_or(self.wire_fetch_bytes, ceiling.wire_fetch_bytes),
            header_bytes: stated_or(self.header_bytes, ceiling.header_bytes),
            mime_depth: stated_or(self.mime_depth, ceiling.mime_depth),
            mime_parts: stated_or(self.mime_parts, ceiling.mime_parts),
            attachment_decoded_bytes: stated_or(self.attachment_decoded_bytes, ceiling.attachment_decoded_bytes),
            attachment_wire_bytes: stated_or(self.attachment_wire_bytes, ceiling.attachment_wire_bytes),
            attachment_chunk_bytes: stated_or(self.attachment_chunk_bytes, ceiling.attachment_chunk_bytes),
            transfer_seconds: stated_or(self.transfer_seconds, ceiling.transfer_seconds),
            transfers_per_account: stated_or(self.transfers_per_account, ceiling.transfers_per_account),
            token_bytes: stated_or(self.token_bytes, ceiling.token_bytes),
            draft_mime_bytes: stated_or(self.draft_mime_bytes, ceiling.draft_mime_bytes),
            operation_seconds: stated_or(self.operation_seconds, ceiling.operation_seconds),
            connection_seconds: stated_or(self.connection_seconds, ceiling.connection_seconds),
            account_connections: stated_or(self.account_connections, ceiling.account_connections),
            account_pending_requests: stated_or(self.account_pending_requests, ceiling.account_pending_requests),
            secret_bytes: stated_or(self.secret_bytes, ceiling.secret_bytes),
            command_stderr_bytes: stated_or(self.command_stderr_bytes, ceiling.command_stderr_bytes),
            secret_command_seconds: stated_or(self.secret_command_seconds, ceiling.secret_command_seconds),
            journal_records: stated_or(self.journal_records, ceiling.journal_records),
            accounts: stated_or(self.accounts, ceiling.accounts),
            grants: stated_or(self.grants, ceiling.grants),
            initialization_seconds: stated_or(self.initialization_seconds, ceiling.initialization_seconds),
            active_requests: stated_or(self.active_requests, ceiling.active_requests),
            queued_requests: stated_or(self.queued_requests, ceiling.queued_requests),
            buffered_bytes: stated_or(self.buffered_bytes, ceiling.buffered_bytes),
            credential_workers: stated_or(self.credential_workers, ceiling.credential_workers),
            queued_credentials: stated_or(self.queued_credentials, ceiling.queued_credentials),
            doctor_checks_per_minute: stated_or(self.doctor_checks_per_minute, ceiling.doctor_checks_per_minute),
            connection_lifetime_seconds: stated_or(self.connection_lifetime_seconds, ceiling.connection_lifetime_seconds),
        };
        if !resolved.fits_within(ceiling) {
            return Err(Error::setup_required());
        }
        match resolved.validate() {
            Ok(()) => Ok(resolved),
            Err(error) => Err(error),
        }
    }
}

/// Every limit has its default and its ceiling, and no default is above its ceiling.
pub proof fn defaults_are_below_their_ceilings()
    ensures
        Limits::standard().within(Limits::greatest()),
        Limits::standard().positive(),
        ({
            let (least, most) = (Limits::standard(), Limits::greatest());
            &&& least.envelope_bytes == 16 * 1024 * 1024 && most.envelope_bytes == 64 * 1024 * 1024
            &&& least.json_nesting == 32 && most.json_nesting == 64
            &&& least.search_page == 50 && most.search_page == 200
            &&& least.search_uid_window == 1000 && most.search_uid_window == 10000
            &&& least.search_windows == 10 && most.search_windows == 100
            &&& least.mailbox_page == 200 && most.mailbox_page == 1000
            &&& least.mailbox_inventory == 1000 && most.mailbox_inventory == 1000
            &&& least.text_page_bytes == 256 * 1024 && most.text_page_bytes == 2 * 1024 * 1024
            &&& least.wire_fetch_bytes == 2 * 1024 * 1024 && most.wire_fetch_bytes == 8 * 1024 * 1024
            &&& least.header_bytes == 64 * 1024 && most.header_bytes == 256 * 1024
            &&& least.mime_depth == 20 && most.mime_depth == 40
            &&& least.mime_parts == 200 && most.mime_parts == 1000
            &&& least.attachment_decoded_bytes == 10 * 1024 * 1024 && most.attachment_decoded_bytes == 32 * 1024 * 1024
            &&& least.attachment_wire_bytes == 16 * 1024 * 1024 && most.attachment_wire_bytes == 64 * 1024 * 1024
            &&& least.attachment_chunk_bytes == 64 * 1024 && most.attachment_chunk_bytes == 256 * 1024
            &&& least.transfer_seconds == 300 && most.transfer_seconds == 600
            &&& least.transfers_per_account == 2 && most.transfers_per_account == 4
            &&& least.token_bytes == 2 * 1024 && most.token_bytes == 8 * 1024
            &&& least.draft_mime_bytes == 1 * 1024 * 1024 && most.draft_mime_bytes == 8 * 1024 * 1024
            &&& least.operation_seconds == 30 && most.operation_seconds == 120
            &&& least.connection_seconds == 10 && most.connection_seconds == 30
            &&& least.account_connections == 2 && most.account_connections == 4
            &&& least.account_pending_requests == 16 && most.account_pending_requests == 64
            &&& least.secret_bytes == 16 * 1024 && most.secret_bytes == 64 * 1024
            &&& least.command_stderr_bytes == 8 * 1024 && most.command_stderr_bytes == 32 * 1024
            &&& least.secret_command_seconds == 15 && most.secret_command_seconds == 60
            &&& least.journal_records == 100000 && most.journal_records == 1000000
            &&& least.accounts == 32 && most.accounts == 256
            &&& least.grants == 8 && most.grants == 32
            &&& least.initialization_seconds == 5 && most.initialization_seconds == 10
            &&& least.active_requests == 16 && most.active_requests == 64
            &&& least.queued_requests == 64 && most.queued_requests == 256
            &&& least.buffered_bytes == 64 * 1024 * 1024 && most.buffered_bytes == 256 * 1024 * 1024
            &&& least.credential_workers == 2 && most.credential_workers == 8
            &&& least.queued_credentials == 8 && most.queued_credentials == 32
            &&& least.doctor_checks_per_minute == 2 && most.doctor_checks_per_minute == 12
            &&& least.connection_lifetime_seconds == 300 && most.connection_lifetime_seconds == 900
        }),
{
}

/// Each limit counts where limits are held against each other: what lies within a ceiling lies within
/// every higher one, and limits that lie within each other are the same.
pub proof fn limits_are_ordered(a: Limits, b: Limits, c: Limits)
    ensures
        a.within(a),
        a.within(b) && b.within(c) ==> a.within(c),
        a.within(b) && b.within(a) ==> a == b,
{
}

/// Limits of one each.
pub open spec fn ones() -> Limits {
    Limits {
        envelope_bytes: 1,
        json_nesting: 1,
        search_page: 1,
        search_uid_window: 1,
        search_windows: 1,
        mailbox_page: 1,
        mailbox_inventory: 1,
        text_page_bytes: 1,
        wire_fetch_bytes: 1,
        header_bytes: 1,
        mime_depth: 1,
        mime_parts: 1,
        attachment_decoded_bytes: 1,
        attachment_wire_bytes: 1,
        attachment_chunk_bytes: 1,
        transfer_seconds: 1,
        transfers_per_account: 1,
        token_bytes: 1,
        draft_mime_bytes: 1,
        operation_seconds: 1,
        connection_seconds: 1,
        account_connections: 1,
        account_pending_requests: 1,
        secret_bytes: 1,
        command_stderr_bytes: 1,
        secret_command_seconds: 1,
        journal_records: 1,
        accounts: 1,
        grants: 1,
        initialization_seconds: 1,
        active_requests: 1,
        queued_requests: 1,
        buffered_bytes: 1,
        credential_workers: 1,
        queued_credentials: 1,
        doctor_checks_per_minute: 1,
        connection_lifetime_seconds: 1,
    }
}

/// Limits are valid exactly where none is zero or above its ceiling, a message and its request fit the
/// buffers, connecting and starting fit an operation, and a page of mailboxes fits the inventory.
pub proof fn valid_limits_fit_together(limits: Limits)
    ensures
        limits.valid() <==> {
            &&& ones().within(limits)
            &&& limits.within(Limits::greatest())
            &&& limits.envelope_bytes >= 1024
            &&& limits.buffered_bytes - limits.envelope_bytes - 192 >= request_buffer_size(
                limits.envelope_bytes as nat,
            )
            &&& !(limits.operation_seconds < limits.connection_seconds)
            &&& !(limits.operation_seconds < limits.initialization_seconds)
            &&& !(limits.mailbox_inventory < limits.mailbox_page)
        },
{
}

/// Overrides that state nothing, and those that state every limit.
pub open spec fn unstated() -> LimitOverrides {
    LimitOverrides {
        envelope_bytes: None,
        json_nesting: None,
        search_page: None,
        search_uid_window: None,
        search_windows: None,
        mailbox_page: None,
        mailbox_inventory: None,
        text_page_bytes: None,
        wire_fetch_bytes: None,
        header_bytes: None,
        mime_depth: None,
        mime_parts: None,
        attachment_decoded_bytes: None,
        attachment_wire_bytes: None,
        attachment_chunk_bytes: None,
        transfer_seconds: None,
        transfers_per_account: None,
        token_bytes: None,
        draft_mime_bytes: None,
        operation_seconds: None,
        connection_seconds: None,
        account_connections: None,
        account_pending_requests: None,
        secret_bytes: None,
        command_stderr_bytes: None,
        secret_command_seconds: None,
        journal_records: None,
        accounts: None,
        grants: None,
        initialization_seconds: None,
        active_requests: None,
        queued_requests: None,
        buffered_bytes: None,
        credential_workers: None,
        queued_credentials: None,
        doctor_checks_per_minute: None,
        connection_lifetime_seconds: None,
    }
}

pub open spec fn fully_stated(limits: Limits) -> LimitOverrides {
    LimitOverrides {
        envelope_bytes: Some(limits.envelope_bytes),
        json_nesting: Some(limits.json_nesting),
        search_page: Some(limits.search_page),
        search_uid_window: Some(limits.search_uid_window),
        search_windows: Some(limits.search_windows),
        mailbox_page: Some(limits.mailbox_page),
        mailbox_inventory: Some(limits.mailbox_inventory),
        text_page_bytes: Some(limits.text_page_bytes),
        wire_fetch_bytes: Some(limits.wire_fetch_bytes),
        header_bytes: Some(limits.header_bytes),
        mime_depth: Some(limits.mime_depth),
        mime_parts: Some(limits.mime_parts),
        attachment_decoded_bytes: Some(limits.attachment_decoded_bytes),
        attachment_wire_bytes: Some(limits.attachment_wire_bytes),
        attachment_chunk_bytes: Some(limits.attachment_chunk_bytes),
        transfer_seconds: Some(limits.transfer_seconds),
        transfers_per_account: Some(limits.transfers_per_account),
        token_bytes: Some(limits.token_bytes),
        draft_mime_bytes: Some(limits.draft_mime_bytes),
        operation_seconds: Some(limits.operation_seconds),
        connection_seconds: Some(limits.connection_seconds),
        account_connections: Some(limits.account_connections),
        account_pending_requests: Some(limits.account_pending_requests),
        secret_bytes: Some(limits.secret_bytes),
        command_stderr_bytes: Some(limits.command_stderr_bytes),
        secret_command_seconds: Some(limits.secret_command_seconds),
        journal_records: Some(limits.journal_records),
        accounts: Some(limits.accounts),
        grants: Some(limits.grants),
        initialization_seconds: Some(limits.initialization_seconds),
        active_requests: Some(limits.active_requests),
        queued_requests: Some(limits.queued_requests),
        buffered_bytes: Some(limits.buffered_bytes),
        credential_workers: Some(limits.credential_workers),
        queued_credentials: Some(limits.queued_credentials),
        doctor_checks_per_minute: Some(limits.doctor_checks_per_minute),
        connection_lifetime_seconds: Some(limits.connection_lifetime_seconds),
    }
}

/// A limit that is not stated is inherited, and a stated one is taken as it is stated.
pub proof fn stated_limits_replace_inherited_ones(limits: Limits, inherited: Limits)
    ensures
        unstated().applied(inherited) == inherited,
        fully_stated(limits).applied(inherited) == limits,
{
}

} // verus!
