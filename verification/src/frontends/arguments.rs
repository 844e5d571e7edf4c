//! Independent command trees sharing startup and operator arguments.
use vstd::prelude::*;

use super::diagnostics;
use crate::domain::attachment::{AttachmentStart, GetAttachmentInput, ListAttachmentsInput};
use crate::domain::draft::{DraftContent, DraftStatusInput, SaveDraftInput};
use crate::domain::message::GetMessageInput;
use crate::domain::search::{SearchCriteria, SearchMessagesInput};
use crate::domain::{Error, ErrorCode, ListAccountsInput, ListMailboxesInput, Operation};
use crate::encoding::{depth_fits, nodes_fit, validate_json_bounds};
use crate::text::{byte_len, utf8_len};

verus! {

/// What every command shares.
#[derive(Debug)]
pub struct Options {
    /// Use the separately provisioned local service and its operator-assigned access grant.
    pub isolated: bool,
    pub config: String,
    pub grant: Option<String>,
    pub read_only: bool,
    pub accounts: Vec<String>,
    pub json: bool,
    pub diagnostics: diagnostics::Options,
}

#[derive(Debug)]
pub enum Administration {
    /// Validate configuration, or add/update one named account without replacing others.
    Setup(Setup),
    Credential(Credential),
    /// Inspect local readiness; authenticate only when asked to.
    Doctor { check_account: bool },
}

#[derive(Debug)]
pub struct Setup {
    pub alias: Option<String>,
    pub server: Option<String>,
    pub username: Option<String>,
}

#[derive(Clone, Copy, Debug, PartialEq, Eq, Structural)]
pub enum Credential {
    Store,
    Delete,
    Status,
}

/// The identity of a draft as the user states it.
#[derive(Debug)]
pub struct DraftIdentity {
    pub mailbox: String,
    pub account_id: u128,
    pub account_generation: u64,
    pub operation_id: u128,
}

impl DraftIdentity {
    pub fn save(self, draft: DraftContent) -> (r: Operation)
        ensures
            r == Operation::SaveDraft(
                SaveDraftInput {
                    mailbox: self.mailbox,
                    account_id: self.account_id,
                    account_generation: self.account_generation,
                    operation_id: self.operation_id,
                    draft: Box::new(draft),
                },
            ),
    {
        Operation::SaveDraft(
            SaveDraftInput {
                mailbox: self.mailbox,
                account_id: self.account_id,
                account_generation: self.account_generation,
                operation_id: self.operation_id,
                draft: Box::new(draft),
            },
        )
    }
}

/// A command about email.
#[derive(Debug)]
pub enum Email {
    DraftSave { identity: DraftIdentity, input: String },
    DraftStatus { identity: DraftIdentity, reconcile: bool },
    AttachmentExport { attachment: String, root: String, name: String },
    AttachmentList { message: String },
    AttachmentGet { attachment: String },
    MessageGet { message: String, cursor: Option<String> },
    MessageSearch {
        mailbox: String,
        criteria: SearchCriteria,
        limit: Option<u16>,
        cursor: Option<String>,
    },
    MailboxList { limit: Option<u16>, cursor: Option<String>, reference: Option<String> },
    AccountList { limit: Option<u16> },
    CapabilityShow,
    Administration(Administration),
}

/// A command line after parsing.
#[derive(Debug)]
pub enum Command {
    Cli(Email),
    Mcp { use_configured_grant: bool, administration: Option<Administration> },
}

/// What a command line asks for.
#[derive(Debug)]
pub enum Action {
    DraftSave { identity: DraftIdentity, input: String },
    Export { attachment: String, root: String, name: String },
    Email(Operation),
    Mcp { use_configured_grant: bool },
    Setup(Setup),
    Credential(Credential),
    Doctor { check_account: bool },
}

#[derive(Debug)]
pub struct Invocation {
    pub options: Options,
    pub action: Action,
}

pub open spec fn administers(value: Administration) -> Action {
    match value {
        Administration::Setup(args) => Action::Setup(args),
        Administration::Credential(command) => Action::Credential(command),
        Administration::Doctor { check_account } => Action::Doctor { check_account },
    }
}

fn administer(value: Administration) -> (r: Action)
    ensures
        r == administers(value),
{
    match value {
        Administration::Setup(args) => Action::Setup(args),
        Administration::Credential(command) => Action::Credential(command),
        Administration::Doctor { check_account } => Action::Doctor { check_account },
    }
}

pub open spec fn widened(limit: Option<u16>) -> Option<usize> {
    match limit {
        Some(limit) => Some(limit as usize),
        None => None,
    }
}

fn widen(limit: Option<u16>) -> (r: Option<usize>)
    ensures
        r == widened(limit),
{
    match limit {
        Some(limit) => Some(limit as usize),
        None => None,
    }
}

/// The action of a command: every command has exactly one, and commands of either program that
/// administer it mean the same.
pub open spec fn meaning(command: Command) -> Action {
    match command {
        Command::Mcp { use_configured_grant, administration } => match administration {
            Some(administration) => administers(administration),
            None => Action::Mcp { use_configured_grant },
        },
        Command::Cli(email) => match email {
            Email::DraftSave { identity, input } => Action::DraftSave { identity, input },
            Email::DraftStatus { identity, reconcile } => Action::Email(
                Operation::DraftStatus(
                    DraftStatusInput {
                        mailbox: identity.mailbox,
                        account_id: identity.account_id,
                        account_generation: identity.account_generation,
                        operation_id: identity.operation_id,
                        reconcile,
                    },
                ),
            ),
            Email::AttachmentExport { attachment, root, name } => Action::Export {
                attachment,
                root,
                name,
            },
            Email::AttachmentList { message } => Action::Email(
                Operation::ListAttachments(ListAttachmentsInput { message }),
            ),
            Email::AttachmentGet { attachment } => Action::Email(
                Operation::GetAttachment(
                    GetAttachmentInput::Start(AttachmentStart { attachment }),
                ),
            ),
            Email::MessageGet { message, cursor } => Action::Email(
                Operation::GetMessage(GetMessageInput { message, cursor }),
            ),
            Email::MessageSearch { mailbox, criteria, limit, cursor } => Action::Email(
                Operation::SearchMessages(
                    SearchMessagesInput { mailbox, criteria, limit: widened(limit), cursor },
                ),
            ),
            Email::MailboxList { limit, cursor, reference } => Action::Email(
                Operation::ListMailboxes(
                    ListMailboxesInput { account: None, limit: widened(limit), cursor, reference },
                ),
            ),
            Email::AccountList { limit } => Action::Email(
                Operation::ListAccounts(ListAccountsInput { limit: widened(limit) }),
            ),
            Email::CapabilityShow => Action::Email(Operation::Capabilities),
            Email::Administration(administration) => administers(administration),
        },
    }
}

impl Invocation {
    /// The invocation that a parsed command line stands for.
    pub fn from_command(options: Options, command: Command) -> (r: Self)
        ensures
            r.options == options,
            r.action == meaning(command),
    {
        let action = match command {
            Command::Mcp { use_configured_grant, administration } => match administration {
                Some(administration) => administer(administration),
                None => Action::Mcp { use_configured_grant },
            },
            Command::Cli(email) => match email {
                Email::DraftSave { identity, input } => Action::DraftSave { identity, input },
                Email::DraftStatus { identity, reconcile } => Action::Email(
                    Operation::DraftStatus(
                        DraftStatusInput {
                            mailbox: identity.mailbox,
                            account_id: identity.account_id,
                            account_generation: identity.account_generation,
                            operation_id: identity.operation_id,
                            reconcile,
                        },
                    ),
                ),
                Email::AttachmentExport { attachment, root, name } => Action::Export {
                    attachment,
                    root,
                    name,
                },
                Email::AttachmentList { message } => Action::Email(
                    Operation::ListAttachments(ListAttachmentsInput { message }),
                ),
                Email::AttachmentGet { attachment } => Action::Email(
                    Operation::GetAttachment(
                        GetAttachmentInput::Start(AttachmentStart { attachment }),
                    ),
                ),
                Email::MessageGet { message, cursor } => Action::Email(
                    Operation::GetMessage(GetMessageInput { message, cursor }),
                ),
                Email::MessageSearch { mailbox, criteria, limit, cursor } => Action::Email(
                    Operation::SearchMessages(
                        SearchMessagesInput { mailbox, criteria, limit: widen(limit), cursor },
                    ),
                ),
                Email::MailboxList { limit, cursor, reference } => Action::Email(
                    Operation::ListMailboxes(
                        ListMailboxesInput { account: None, limit: widen(limit), cursor, reference },
                    ),
                ),
                Email::AccountList { limit } => Action::Email(
                    Operation::ListAccounts(ListAccountsInput { limit: widen(limit) }),
                ),
                Email::CapabilityShow => Action::Email(Operation::Capabilities),
                Email::Administration(administration) => administer(administration),
            },
        };
        Invocation { options, action }
    }
}

/// What is wrong with the text of search criteria before it is decoded, if anything is.
pub open spec fn criteria_fault(text: Seq<char>) -> Option<Seq<char>> {
    if utf8_len(text) > 1048576 {
        Some("Search criteria exceed the input limit"@)
    } else if !depth_fits(vstd::utf8::encode_utf8(text), 32) {
        Some("Invalid search criteria"@)
    } else {
        None
    }
}

pub fn search_criteria(value: &str) -> (r: Result<(), &'static str>)
    ensures
        match r {
            Ok(()) => criteria_fault(value@) is None,
            Err(fault) => criteria_fault(value@) == Some(fault@),
        },
{
    if byte_len(value) > 1048576 {
        return Err("Search criteria exceed the input limit");
    }
    match crate::encoding::validate_json_depth(value.as_bytes(), 32) {
        Ok(()) => Ok(()),
        Err(_) => Err("Invalid search criteria"),
    }
}

fn invalid() -> (r: Error)
    ensures
        r.reports(ErrorCode::InvalidRequest),
{
    Error::new(ErrorCode::InvalidRequest)
}

/// What the system says of a composition file.
#[derive(Clone, Copy, Debug, PartialEq, Eq, Structural)]
pub struct InputFile {
    pub regular: bool,
    pub length: u64,
}

/// Accepts a composition file before it is read.
pub fn check_input_file(file: Option<InputFile>, maximum: usize) -> (r: Result<(), Error>)
    ensures
        match file {
            Some(file) if file.regular => if file.length <= maximum {
                r == Ok::<(), Error>(())
            } else {
                r matches Err(error) && error.reports(ErrorCode::ResponseTooLarge)
            },
            _ => r matches Err(error) && error.reports(ErrorCode::InvalidRequest),
        },
{
    match file {
        Some(file) => {
            if !file.regular {
                return Err(invalid());
            }
            if file.length > maximum as u64 {
                return Err(Error::new(ErrorCode::ResponseTooLarge));
            }
            Ok(())
        },
        None => Err(invalid()),
    }
}

/// Accepts the text of a composition before it is decoded: it may have grown since it was examined.
pub fn check_composition(bytes: &[u8], maximum: usize, nesting: usize) -> (r: Result<(), Error>)
    ensures
        match r {
            Ok(()) => bytes@.len() <= maximum && depth_fits(bytes@, nesting as nat) && nodes_fit(
                bytes@,
                4096,
            ),
            Err(error) => if bytes@.len() > maximum {
                error.reports(ErrorCode::ResponseTooLarge)
            } else {
                error.reports(ErrorCode::InvalidRequest) && !(depth_fits(bytes@, nesting as nat)
                    && nodes_fit(bytes@, 4096))
            },
        },
{
    if bytes.len() > maximum {
        return Err(Error::new(ErrorCode::ResponseTooLarge));
    }
    match validate_json_bounds(bytes, nesting, 4096) {
        Ok(()) => Ok(()),
        Err(_) => Err(invalid()),
    }
}

/// What a command line names is what is asked for: each argument stands in the field of its name, and
/// nothing that was not named is filled in.
pub proof fn arguments_keep_their_places(
    message: String,
    mailbox: String,
    cursor: Option<String>,
    limit: Option<u16>,
    identity: DraftIdentity,
    reconcile: bool,
    criteria: SearchCriteria,
    reference: Option<String>,
)
    ensures
        meaning(Command::Cli(Email::MessageGet { message, cursor })) matches Action::Email(
            Operation::GetMessage(input),
        ) && input.message == message && input.cursor == cursor,
        meaning(Command::Cli(Email::AttachmentList { message })) matches Action::Email(
            Operation::ListAttachments(input),
        ) && input.message == message,
        meaning(Command::Cli(Email::AttachmentGet { attachment: message })) matches Action::Email(
            Operation::GetAttachment(GetAttachmentInput::Start(start)),
        ) && start.attachment == message,
        meaning(Command::Cli(Email::MessageSearch { mailbox, criteria, limit, cursor })) matches Action::Email(
            Operation::SearchMessages(input),
        ) && input.mailbox == mailbox && input.criteria == criteria && input.cursor == cursor && (input.limit is Some
            <==> limit is Some) && (limit matches Some(count) ==> input.limit == Some(count as usize)),
        meaning(Command::Cli(Email::MailboxList { limit, cursor, reference })) matches Action::Email(
            Operation::ListMailboxes(input),
        ) && input.cursor == cursor && input.reference == reference && input.account is None && (input.limit is Some
            <==> limit is Some),
        meaning(Command::Cli(Email::AccountList { limit })) matches Action::Email(Operation::ListAccounts(input))
            && (input.limit is Some <==> limit is Some),
        meaning(Command::Cli(Email::CapabilityShow)) == Action::Email(Operation::Capabilities),
        meaning(Command::Cli(Email::DraftStatus { identity, reconcile })) matches Action::Email(
            Operation::DraftStatus(input),
        ) && input.mailbox == identity.mailbox && input.account_id == identity.account_id && input.account_generation
            == identity.account_generation && input.operation_id == identity.operation_id && input.reconcile
            == reconcile,
{
}

/// A command that serves tools serves them unless it carries a command of administration, which then runs
/// as it would alone.
pub proof fn administration_runs_alike(administration: Administration, use_configured_grant: bool)
    ensures
        meaning(Command::Mcp { use_configured_grant, administration: Some(administration) }) == meaning(
            Command::Cli(Email::Administration(administration)),
        ),
        meaning(Command::Mcp { use_configured_grant, administration: None }) == (Action::Mcp { use_configured_grant }),
        administration matches Administration::Setup(args) ==> meaning(Command::Cli(Email::Administration(administration)))
            == Action::Setup(args),
        administration matches Administration::Credential(command) ==> meaning(
            Command::Cli(Email::Administration(administration)),
        ) == Action::Credential(command),
        administration matches Administration::Doctor { check_account } ==> meaning(
            Command::Cli(Email::Administration(administration)),
        ) == (Action::Doctor { check_account }),
{
}

/// A draft that is saved is found again by its status: both are asked for by the same account, generation
/// and operation.
pub proof fn saved_drafts_are_found_again(
    identity: DraftIdentity,
    draft: DraftContent,
    reconcile: bool,
    saved: Operation,
)
    requires
        call_ensures(DraftIdentity::save, (identity, draft), saved),
    ensures
        saved matches Operation::SaveDraft(save) && {
            &&& *save.draft == draft
            &&& meaning(Command::Cli(Email::DraftStatus { identity, reconcile })) matches Action::Email(
                Operation::DraftStatus(status),
            ) && status.mailbox == save.mailbox && status.account_id == save.account_id && status.account_generation
                == save.account_generation && status.operation_id == save.operation_id
        },
{
}

/// A file is taken as input where it is a regular one within the limit.
pub proof fn inputs_are_regular_files(file: Option<InputFile>, maximum: usize, r: Result<(), Error>)
    requires
        call_ensures(check_input_file, (file, maximum), r),
    ensures
        r is Ok <==> (file matches Some(found) && found.regular && found.length <= maximum),
        file is None ==> (r matches Err(error) && error.code is InvalidRequest),
        file matches Some(found) ==> found.regular && found.length > maximum ==> (r matches Err(error) && error.code
            is ResponseTooLarge),
{
}

/// Search criteria on a command line have at most a mebibyte and nest at most 32 deep.
pub proof fn criteria_are_bounded(text: Seq<char>)
    ensures
        criteria_fault(text) is None <==> utf8_len(text) <= 1024 * 1024 && depth_fits(vstd::utf8::encode_utf8(text), 32),
        utf8_len(text) > 1024 * 1024 ==> criteria_fault(text) == Some("Search criteria exceed the input limit"@),
        criteria_fault(text) is Some && utf8_len(text) <= 1024 * 1024 ==> criteria_fault(text) == Some(
            "Invalid search criteria"@,
        ),
{
}

} // verus!
