//! Durable acknowledgement proof for draft creation.
//!
//! This module records only the information needed to decide whether an APPEND
//! may run again. It deliberately does not compose drafts or persist email
//! content. The caller must hold the installation's account writer lock from
//! before [`DraftJournal::prepare`] through outcome recording. The rows are kept
//! in a local database, which the caller reads and writes in one transaction
//! around each method.
use crate::text::{chars_of, same, same_bytes, same_text_ignoring_case, lowered_text};
use vstd::prelude::*;

verus! {

/// The version of the database's tables.
pub const SCHEMA_VERSION: i64 = 1;

/// The immutable identity of a draft operation. Identifiers are UUIDs as numbers.
#[derive(Clone, Copy, Debug, PartialEq, Eq, Structural)]
pub struct DraftOperationIdentity {
    pub account_id: u128,
    pub account_generation: u64,
    pub operation_id: u128,
}

/// The immutable facts that allow a prepared operation to be dispatched.
///
/// `mailbox_identity` is an opaque mailbox identity, never a mutable Drafts
/// alias. `content_sha256` is the hash of frozen MIME bytes; callers retain the
/// bytes and composition input needed to reconstruct them.
#[derive(Clone, Debug)]
pub struct PreparedDraftOperation {
    pub identity: DraftOperationIdentity,
    pub mailbox_identity: String,
    pub content_sha256: [u8; 32],
}

/// A server-provided identity for a created message, when APPENDUID was present.
#[derive(Clone, Copy, Debug, PartialEq, Eq, Structural)]
pub struct AppendedMessageIdentity {
    pub uid_validity: u32,
    pub uid: u32,
}

/// The durable acknowledgement state of a draft operation.
#[derive(Clone, Copy, Debug, PartialEq, Eq, Structural)]
pub enum DraftOperationState {
    Prepared,
    InFlight,
    Created { appended_message: Option<AppendedMessageIdentity> },
    Rejected,
    OutcomeUnknown,
}

/// An immutable operation together with its durable state.
#[derive(Clone, Debug)]
pub struct PersistedDraftOperation {
    pub operation: PreparedDraftOperation,
    pub state: DraftOperationState,
}

/// Errors intentionally omit the database's raw messages and its path.
///
/// A failure while persisting `Created` after APPEND acknowledgement is not a
/// signal to retry. The caller must retain an uncertain result and use its
/// separately authorized reconciliation path.
#[derive(Clone, Copy, Debug, PartialEq, Eq, Structural)]
pub enum DraftJournalError {
    Unavailable,
    InvalidDatabase,
    InvalidOperation,
    OperationConflict,
    OperationNotPrepared,
    NotDispatchable(DraftOperationState),
}

impl DraftJournalError {
    /// What is told to a user.
    pub fn text(&self) -> (r: &'static str)
        ensures
            r@ == match *self {
                DraftJournalError::Unavailable => "The draft journal is unavailable"@,
                DraftJournalError::InvalidDatabase => "The draft journal is invalid"@,
                DraftJournalError::InvalidOperation => "The draft operation is invalid"@,
                DraftJournalError::OperationConflict =>
                    "The draft operation conflicts with its recorded input"@,
                DraftJournalError::OperationNotPrepared => "The draft operation was not prepared"@,
                DraftJournalError::NotDispatchable(state) => match state {
                    DraftOperationState::Prepared => "The draft operation cannot be dispatched"@,
                    DraftOperationState::InFlight => "The draft operation is already in progress"@,
                    DraftOperationState::Created { .. } =>
                        "The draft operation was already acknowledged"@,
                    DraftOperationState::Rejected => "The draft operation was rejected"@,
                    DraftOperationState::OutcomeUnknown =>
                        "The draft operation has an uncertain outcome"@,
                },
            },
    {
        match self {
            DraftJournalError::Unavailable => "The draft journal is unavailable",
            DraftJournalError::InvalidDatabase => "The draft journal is invalid",
            DraftJournalError::InvalidOperation => "The draft operation is invalid",
            DraftJournalError::OperationConflict =>
                "The draft operation conflicts with its recorded input",
            DraftJournalError::OperationNotPrepared => "The draft operation was not prepared",
            DraftJournalError::NotDispatchable(state) => match state {
                DraftOperationState::Prepared => "The draft operation cannot be dispatched",
                DraftOperationState::InFlight => "The draft operation is already in progress",
                DraftOperationState::Created { .. } =>
                    "The draft operation was already acknowledged",
                DraftOperationState::Rejected => "The draft operation was rejected",
                DraftOperationState::OutcomeUnknown =>
                    "The draft operation has an uncertain outcome",
            },
        }
    }
}

/// What the journal says of one operation: the facts that it froze, and its state.
pub struct Record {
    pub mailbox: Seq<char>,
    pub content: Seq<u8>,
    pub state: DraftOperationState,
}

impl PreparedDraftOperation {
    /// The record of the operation in a given state.
    pub open spec fn record(self, state: DraftOperationState) -> Record {
        Record { mailbox: self.mailbox_identity@, content: self.content_sha256@, state }
    }

    /// The operation froze the facts of `record`.
    pub open spec fn matches(self, record: Record) -> bool {
        self.mailbox_identity@ == record.mailbox && self.content_sha256@ == record.content
    }
}

impl PersistedDraftOperation {
    /// The value holds the record of operation `identity`.
    pub open spec fn holds(self, identity: DraftOperationIdentity, record: Record) -> bool {
        self.operation.identity == identity && self.operation.record(self.state) == record
    }

    fn copied(&self) -> (r: Self)
        ensures
            r.holds(self.operation.identity, self.operation.record(self.state)),
    {
        PersistedDraftOperation {
            operation: PreparedDraftOperation {
                identity: self.operation.identity,
                mailbox_identity: self.operation.mailbox_identity.clone(),
                content_sha256: self.operation.content_sha256,
            },
            state: self.state,
        }
    }
}

/// A mailbox identity has between 1 and 4,096 characters.
pub open spec fn is_mailbox_identity(value: Seq<char>) -> bool {
    1 <= value.len() <= 4096
}

fn mailbox_identity(value: &str) -> (r: bool)
    ensures
        r == is_mailbox_identity(value@),
{
    let count: usize = chars_of(value).len();
    1 <= count && count <= 4096
}

/// The generation as the database holds it.
pub open spec fn stored_generation(generation: u64) -> Result<i64, DraftJournalError> {
    if generation <= i64::MAX {
        Ok(generation as i64)
    } else {
        Err(DraftJournalError::InvalidDatabase)
    }
}

pub fn sqlite_generation(generation: u64) -> (r: Result<i64, DraftJournalError>)
    ensures
        r == stored_generation(generation),
{
    if generation <= i64::MAX as u64 {
        Ok(generation as i64)
    } else {
        Err(DraftJournalError::InvalidDatabase)
    }
}

/// What is wrong with an operation that is to be journaled.
pub open spec fn operation_fault(operation: PreparedDraftOperation) -> Option<DraftJournalError> {
    if !is_mailbox_identity(operation.mailbox_identity@) {
        Some(DraftJournalError::InvalidOperation)
    } else if operation.identity.account_generation > i64::MAX {
        Some(DraftJournalError::InvalidDatabase)
    } else {
        None
    }
}

pub fn validate_operation(operation: &PreparedDraftOperation) -> (r: Result<(), DraftJournalError>)
    ensures
        r == match operation_fault(*operation) {
            Some(error) => Err::<(), DraftJournalError>(error),
            None => Ok(()),
        },
{
    if !mailbox_identity(operation.mailbox_identity.as_str()) {
        return Err(DraftJournalError::InvalidOperation);
    }
    match sqlite_generation(operation.identity.account_generation) {
        Ok(_) => Ok(()),
        Err(error) => Err(error),
    }
}

/// What is wrong with an outcome that is to be recorded: it must end the operation, and a created
/// message has no zero in its identity.
pub open spec fn outcome_fault(
    identity: DraftOperationIdentity,
    outcome: DraftOperationState,
) -> Option<DraftJournalError> {
    let named = match outcome {
        DraftOperationState::Prepared | DraftOperationState::InFlight => false,
        DraftOperationState::Created { appended_message: Some(message) } => message.uid != 0
            && message.uid_validity != 0,
        _ => true,
    };
    if !named {
        Some(DraftJournalError::InvalidOperation)
    } else if identity.account_generation > i64::MAX {
        Some(DraftJournalError::InvalidDatabase)
    } else {
        None
    }
}

/// An outcome can be recorded: it ends the operation, and what it names exists.
pub fn check_outcome(identity: &DraftOperationIdentity, outcome: DraftOperationState) -> (r: Result<
    (),
    DraftJournalError,
>)
    ensures
        r == match outcome_fault(*identity, outcome) {
            Some(error) => Err::<(), DraftJournalError>(error),
            None => Ok(()),
        },
{
    match outcome {
        DraftOperationState::Prepared | DraftOperationState::InFlight => {
            return Err(DraftJournalError::InvalidOperation);
        },
        DraftOperationState::Created { appended_message: Some(message) } => {
            if message.uid == 0 || message.uid_validity == 0 {
                return Err(DraftJournalError::InvalidOperation);
            }
        },
        _ => {},
    }
    match sqlite_generation(identity.account_generation) {
        Ok(_) => Ok(()),
        Err(error) => Err(error),
    }
}

/// A local journal for the acknowledgement boundary around APPEND.
///
/// The caller owns authorization and the OS-backed account writer lock. Hold
/// that lock across `prepare`, `begin_dispatch`, network I/O, and the matching
/// outcome method. Do not call the transition methods during recovery without
/// proving that the previous writer no longer owns the account.
pub struct DraftJournal {
    records: Vec<PersistedDraftOperation>,
}

spec fn lists(
    records: Seq<PersistedDraftOperation>,
    identity: DraftOperationIdentity,
    i: int,
) -> bool {
    0 <= i < records.len() && records[i].operation.identity == identity
}

spec fn unique(records: Seq<PersistedDraftOperation>) -> bool {
    forall|i: int, j: int|
        0 <= i < j < records.len() ==> (#[trigger] records[i]).operation.identity != (
        #[trigger] records[j]).operation.identity
}

spec fn table(records: Seq<PersistedDraftOperation>) -> Map<DraftOperationIdentity, Record> {
    Map::new(
        |identity: DraftOperationIdentity| exists|i: int| lists(records, identity, i),
        |identity: DraftOperationIdentity|
            {
                let i = choose|i: int| lists(records, identity, i);
                records[i].operation.record(records[i].state)
            },
    )
}

proof fn row_is_read(records: Seq<PersistedDraftOperation>, i: int)
    requires
        unique(records),
        0 <= i < records.len(),
    ensures
        table(records).contains_key(records[i].operation.identity),
        table(records)[records[i].operation.identity] == records[i].operation.record(
            records[i].state,
        ),
{
    let identity = records[i].operation.identity;
    assert(lists(records, identity, i));
    let k = choose|k: int| lists(records, identity, k);
    assert(k == i);
}

proof fn row_is_added(records: Seq<PersistedDraftOperation>, added: PersistedDraftOperation)
    requires
        unique(records),
        !table(records).contains_key(added.operation.identity),
    ensures
        unique(records.push(added)),
        table(records.push(added)) == table(records).insert(
            added.operation.identity,
            added.operation.record(added.state),
        ),
{
    let after = records.push(added);
    assert forall|i: int| 0 <= i < records.len() implies (#[trigger] records[i]).operation.identity
        != added.operation.identity by {
        row_is_read(records, i);
    }
    assert(unique(after));
    assert forall|identity: DraftOperationIdentity|
        table(after).contains_key(identity) == table(records).insert(
            added.operation.identity,
            added.operation.record(added.state),
        ).contains_key(identity) by {
        if table(after).contains_key(identity) {
            let i = choose|i: int| lists(after, identity, i);
            if i < records.len() {
                assert(lists(records, identity, i));
            }
        }
        if table(records).contains_key(identity) {
            let i = choose|i: int| lists(records, identity, i);
            assert(lists(after, identity, i));
        }
        if identity == added.operation.identity {
            assert(lists(after, identity, records.len() as int));
        }
    }
    assert forall|identity: DraftOperationIdentity|
        table(after).contains_key(identity) implies #[trigger] table(after)[identity] == table(
        records,
    ).insert(added.operation.identity, added.operation.record(added.state))[identity] by {
        let i = choose|i: int| lists(after, identity, i);
        row_is_read(after, i);
        if i < records.len() {
            row_is_read(records, i);
        }
    }
    assert(table(after) =~= table(records).insert(
        added.operation.identity,
        added.operation.record(added.state),
    ));
}

proof fn row_is_changed(
    records: Seq<PersistedDraftOperation>,
    at: int,
    changed: PersistedDraftOperation,
)
    requires
        unique(records),
        0 <= at < records.len(),
        records[at].operation.identity == changed.operation.identity,
    ensures
        unique(records.update(at, changed)),
        table(records.update(at, changed)) == table(records).insert(
            changed.operation.identity,
            changed.operation.record(changed.state),
        ),
{
    let after = records.update(at, changed);
    assert(unique(after));
    let expected = table(records).insert(
        changed.operation.identity,
        changed.operation.record(changed.state),
    );
    assert forall|identity: DraftOperationIdentity|
        table(after).contains_key(identity) == expected.contains_key(identity) by {
        if table(after).contains_key(identity) {
            let i = choose|i: int| lists(after, identity, i);
            assert(lists(records, identity, i));
        }
        if table(records).contains_key(identity) {
            let i = choose|i: int| lists(records, identity, i);
            assert(lists(after, identity, i));
        }
        if identity == changed.operation.identity {
            assert(lists(after, identity, at));
        }
    }
    assert forall|identity: DraftOperationIdentity|
        table(after).contains_key(identity) implies #[trigger] table(after)[identity]
        == expected[identity] by {
        let i = choose|i: int| lists(after, identity, i);
        row_is_read(after, i);
        if i != at {
            row_is_read(records, i);
        }
    }
    assert(table(after) =~= expected);
}

/// One operation may go from `before` to `after`: it is prepared, dispatched and then ended, and its
/// facts never change.
pub open spec fn advances(before: Option<Record>, after: Record) -> bool {
    match before {
        None => after.state is Prepared,
        Some(before) => {
            &&& before.mailbox == after.mailbox
            &&& before.content == after.content
            &&& match before.state {
                DraftOperationState::Prepared => after.state is InFlight,
                DraftOperationState::InFlight => !(after.state is Prepared)
                    && !(after.state is InFlight),
                _ => false,
            }
        },
    }
}

/// What a method leaves of the journal: all of it, or all of it but one operation that advanced.
pub open spec fn steps(
    before: Map<DraftOperationIdentity, Record>,
    after: Map<DraftOperationIdentity, Record>,
) -> bool {
    ||| after == before
    ||| exists|identity: DraftOperationIdentity|
        {
            &&& after == before.insert(identity, #[trigger] after[identity])
            &&& advances(
                if before.contains_key(identity) {
                    Some(before[identity])
                } else {
                    None
                },
                after[identity],
            )
        }
}

impl DraftJournal {
    pub closed spec fn view(&self) -> Map<DraftOperationIdentity, Record> {
        table(self.records@)
    }

    /// Each operation stands in one row.
    pub closed spec fn well_formed(&self) -> bool {
        unique(self.records@)
    }

    fn find(&self, identity: &DraftOperationIdentity) -> (r: Option<usize>)
        requires
            self.well_formed(),
        ensures
            match r {
                Some(i) => {
                    &&& i < self.records@.len()
                    &&& self.records@[i as int].operation.identity == *identity
                    &&& self@.contains_key(*identity)
                    &&& self@[*identity] == self.records@[i as int].operation.record(
                        self.records@[i as int].state,
                    )
                },
                None => !self@.contains_key(*identity),
            },
    {
        for i in 0..self.records.len()
            invariant
                self.well_formed(),
                forall|j: int|
                    0 <= j < i ==> (#[trigger] self.records@[j]).operation.identity != *identity,
        {
            if self.records[i].operation.identity == *identity {
                proof {
                    row_is_read(self.records@, i as int);
                }
                return Some(i);
            }
        }
        proof {
            if self@.contains_key(*identity) {
                let i = choose|i: int| lists(self.records@, *identity, i);
                assert(self.records@[i].operation.identity == *identity);
            }
        }
        None
    }

    /// The journal that the rows of a database make up. Every row must decode, and no operation may
    /// stand in two of them.
    pub fn load(rows: &Vec<DatabaseRow>) -> (r: Result<Self, DraftJournalError>)
        ensures
            match r {
                Ok(journal) => {
                    &&& journal.well_formed()
                    &&& forall|i: int|
                        0 <= i < rows@.len() ==> (match decoded(#[trigger] rows@[i]) {
                            Some((identity, record)) => journal@.contains_key(identity)
                                && journal@[identity] == record,
                            None => false,
                        })
                    &&& forall|identity: DraftOperationIdentity|
                        journal@.contains_key(identity) ==> exists|i: int|
                            0 <= i < rows@.len() && row_names(#[trigger] rows@[i], identity)
                    &&& forall|i: int, j: int|
                        0 <= i < j < rows@.len() ==> !same_operation(
                            #[trigger] rows@[i],
                            #[trigger] rows@[j],
                        )
                },
                Err(error) => {
                    &&& error == DraftJournalError::InvalidDatabase
                    &&& {
                        ||| exists|i: int| 0 <= i < rows@.len() && decoded(#[trigger] rows@[i]) is None
                        ||| exists|i: int, j: int|
                            0 <= i < j < rows@.len() && same_operation(
                                #[trigger] rows@[i],
                                #[trigger] rows@[j],
                            )
                    }
                },
            },
    {
        let mut journal = DraftJournal { records: Vec::new() };
        proof {
            assert(table(Seq::<PersistedDraftOperation>::empty()) =~= Map::empty()) by {
                assert forall|identity: DraftOperationIdentity|
                    !table(Seq::<PersistedDraftOperation>::empty()).contains_key(identity) by {
                    if table(Seq::<PersistedDraftOperation>::empty()).contains_key(identity) {
                        let i = choose|i: int|
                            lists(Seq::<PersistedDraftOperation>::empty(), identity, i);
                    }
                }
            }
        }
        for i in 0..rows.len()
            invariant
                journal.well_formed(),
                forall|k: int|
                    0 <= k < i ==> (match decoded(#[trigger] rows@[k]) {
                        Some((identity, record)) => journal@.contains_key(identity)
                            && journal@[identity] == record,
                        None => false,
                    }),
                forall|identity: DraftOperationIdentity|
                    journal@.contains_key(identity) ==> exists|k: int|
                        0 <= k < i && row_names(#[trigger] rows@[k], identity),
                forall|k: int, n: int|
                    0 <= k < n < i ==> !same_operation(#[trigger] rows@[k], #[trigger] rows@[n]),
        {
            let ghost before = journal@;
            let record = match decode_row(&rows[i]) {
                Ok(record) => record,
                Err(error) => {
                    assert(decoded(rows@[i as int]) is None);
                    return Err(error);
                },
            };
            if journal.find(&record.operation.identity).is_some() {
                proof {
                    let k = choose|k: int|
                        0 <= k < i && row_names(#[trigger] rows@[k], record.operation.identity);
                    assert(same_operation(rows@[k], rows@[i as int]));
                }
                return Err(DraftJournalError::InvalidDatabase);
            }
            proof {
                row_is_added(journal.records@, record);
                assert(row_names(rows@[i as int], record.operation.identity));
            }
            journal.records.push(record);
            proof {
                assert forall|k: int| 0 <= k < i + 1 implies (match decoded(#[trigger] rows@[k]) {
                    Some((identity, kept)) => journal@.contains_key(identity)
                        && journal@[identity] == kept,
                    None => false,
                }) by {
                    if k < i {
                        assert(match decoded(rows@[k]) {
                            Some((identity, _)) => before.contains_key(identity),
                            None => false,
                        });
                    }
                }
                assert forall|k: int, n: int| 0 <= k < n < i + 1 implies !same_operation(
                    #[trigger] rows@[k],
                    #[trigger] rows@[n],
                ) by {
                    if n == i {
                        assert(match decoded(rows@[k]) {
                            Some((identity, _)) => before.contains_key(identity),
                            None => false,
                        });
                    }
                }
                assert forall|identity: DraftOperationIdentity|
                    journal@.contains_key(identity) implies exists|k: int|
                    0 <= k < i + 1 && row_names(#[trigger] rows@[k], identity) by {
                    if identity == record.operation.identity {
                        assert(row_names(rows@[i as int], identity));
                    } else {
                        assert(before.contains_key(identity));
                        let k = choose|k: int|
                            0 <= k < i && row_names(#[trigger] rows@[k], identity);
                        assert(row_names(rows@[k], identity));
                    }
                }
            }
        }
        Ok(journal)
    }

    /// Persists a dispatchable operation, or returns its exact prior state.
    ///
    /// Reusing an operation UUID is permitted only when every frozen fact is
    /// identical. This method never changes a prior state.
    pub fn prepare(&mut self, operation: PreparedDraftOperation) -> (r: Result<
        PersistedDraftOperation,
        DraftJournalError,
    >)
        requires
            old(self).well_formed(),
        ensures
            final(self).well_formed(),
            steps(old(self)@, final(self)@),
            match operation_fault(operation) {
                Some(error) => r == Err::<PersistedDraftOperation, DraftJournalError>(error)
                    && final(self)@ == old(self)@,
                None => {
                    let identity = operation.identity;
                    let fresh = operation.record(DraftOperationState::Prepared);
                    if !old(self)@.contains_key(identity) {
                        &&& final(self)@ == old(self)@.insert(identity, fresh)
                        &&& r is Ok
                        &&& r->Ok_0.holds(identity, fresh)
                    } else if operation.matches(old(self)@[identity]) {
                        &&& final(self)@ == old(self)@
                        &&& r is Ok
                        &&& r->Ok_0.holds(identity, old(self)@[identity])
                    } else {
                        &&& final(self)@ == old(self)@
                        &&& r == Err::<PersistedDraftOperation, DraftJournalError>(
                            DraftJournalError::OperationConflict,
                        )
                    }
                },
            },
    {
        match validate_operation(&operation) {
            Ok(()) => {},
            Err(error) => {
                return Err(error);
            },
        }
        let identity = operation.identity;
        match self.find(&identity) {
            Some(i) => if agree(&operation, &self.records[i].operation) {
                Ok(self.records[i].copied())
            } else {
                Err(DraftJournalError::OperationConflict)
            },
            None => {
                let added = PersistedDraftOperation {
                    operation,
                    state: DraftOperationState::Prepared,
                };
                let answer = added.copied();
                proof {
                    row_is_added(self.records@, added);
                    assert(advances(None, added.operation.record(added.state)));
                }
                self.records.push(added);
                proof {
                    assert(self@ == old(self)@.insert(identity, self@[identity]));
                }
                Ok(answer)
            },
        }
    }

    /// Atomically marks a prepared operation as in flight before APPEND bytes
    /// are allowed on the transport.
    pub fn begin_dispatch(&mut self, operation: &PreparedDraftOperation) -> (r: Result<
        PersistedDraftOperation,
        DraftJournalError,
    >)
        requires
            old(self).well_formed(),
        ensures
            final(self).well_formed(),
            steps(old(self)@, final(self)@),
            match r {
                Ok(dispatched) => {
                    let identity = operation.identity;
                    let started = operation.record(DraftOperationState::InFlight);
                    &&& operation_fault(*operation) is None
                    &&& old(self)@.contains_key(identity)
                    &&& old(self)@[identity] == operation.record(DraftOperationState::Prepared)
                    &&& final(self)@ == old(self)@.insert(identity, started)
                    &&& dispatched.holds(identity, started)
                },
                Err(error) => {
                    &&& final(self)@ == old(self)@
                    &&& Some(error) == dispatch_fault(old(self)@, *operation)
                },
            },
            r is Ok <==> dispatch_fault(old(self)@, *operation) is None,
    {
        match validate_operation(operation) {
            Ok(()) => {},
            Err(error) => {
                return Err(error);
            },
        }
        match self.find(&operation.identity) {
            None => Err(DraftJournalError::OperationNotPrepared),
            Some(i) => {
                if !agree(operation, &self.records[i].operation) {
                    return Err(DraftJournalError::OperationConflict);
                }
                if self.records[i].state != DraftOperationState::Prepared {
                    return Err(DraftJournalError::NotDispatchable(self.records[i].state));
                }
                Ok(self.mark(i, DraftOperationState::InFlight))
            },
        }
    }

    /// Sets the state of the row at `i`.
    fn mark(&mut self, i: usize, state: DraftOperationState) -> (r: PersistedDraftOperation)
        requires
            old(self).well_formed(),
            i < old(self).records@.len(),
            advances(
                Some(
                    old(self).records@[i as int].operation.record(
                        old(self).records@[i as int].state,
                    ),
                ),
                old(self).records@[i as int].operation.record(state),
            ),
        ensures
            final(self).well_formed(),
            steps(old(self)@, final(self)@),
            final(self)@ == old(self)@.insert(
                old(self).records@[i as int].operation.identity,
                old(self).records@[i as int].operation.record(state),
            ),
            r.holds(
                old(self).records@[i as int].operation.identity,
                old(self).records@[i as int].operation.record(state),
            ),
    {
        let mut changed = self.records[i].copied();
        changed.state = state;
        let answer = changed.copied();
        proof {
            row_is_changed(self.records@, i as int, changed);
            row_is_read(self.records@, i as int);
        }
        self.records.set(i, changed);
        proof {
            let identity = changed.operation.identity;
            assert(self@ == old(self)@.insert(identity, self@[identity]));
        }
        answer
    }

    /// Records how the dispatched operation `identity` ended.
    fn record_outcome(&mut self, identity: &DraftOperationIdentity, outcome: DraftOperationState) -> (r:
        Result<PersistedDraftOperation, DraftJournalError>)
        requires
            old(self).well_formed(),
        ensures
            final(self).well_formed(),
            steps(old(self)@, final(self)@),
            records_outcome(old(self)@, final(self)@, *identity, outcome, r),
    {
        match check_outcome(identity, outcome) {
            Ok(()) => {},
            Err(error) => {
                return Err(error);
            },
        }
        match self.find(identity) {
            None => Err(DraftJournalError::OperationNotPrepared),
            Some(i) => {
                if self.records[i].state != DraftOperationState::InFlight {
                    return Err(DraftJournalError::NotDispatchable(self.records[i].state));
                }
                Ok(self.mark(i, outcome))
            },
        }
    }

    /// Records tagged APPEND success. An absent APPENDUID remains a creation.
    pub fn record_created(
        &mut self,
        identity: &DraftOperationIdentity,
        appended_message: Option<AppendedMessageIdentity>,
    ) -> (r: Result<PersistedDraftOperation, DraftJournalError>)
        requires
            old(self).well_formed(),
        ensures
            final(self).well_formed(),
            steps(old(self)@, final(self)@),
            records_outcome(
                old(self)@,
                final(self)@,
                *identity,
                DraftOperationState::Created { appended_message },
                r,
            ),
    {
        self.record_outcome(identity, DraftOperationState::Created { appended_message })
    }

    /// Records a definitive server rejection.
    pub fn record_rejected(&mut self, identity: &DraftOperationIdentity) -> (r: Result<
        PersistedDraftOperation,
        DraftJournalError,
    >)
        requires
            old(self).well_formed(),
        ensures
            final(self).well_formed(),
            steps(old(self)@, final(self)@),
            records_outcome(
                old(self)@,
                final(self)@,
                *identity,
                DraftOperationState::Rejected,
                r,
            ),
    {
        self.record_outcome(identity, DraftOperationState::Rejected)
    }

    /// Records an uncertain result, including local disconnect or cancellation.
    /// The operation remains non-dispatchable after reopening the journal.
    pub fn record_outcome_unknown(&mut self, identity: &DraftOperationIdentity) -> (r: Result<
        PersistedDraftOperation,
        DraftJournalError,
    >)
        requires
            old(self).well_formed(),
        ensures
            final(self).well_formed(),
            steps(old(self)@, final(self)@),
            records_outcome(
                old(self)@,
                final(self)@,
                *identity,
                DraftOperationState::OutcomeUnknown,
                r,
            ),
    {
        self.record_outcome(identity, DraftOperationState::OutcomeUnknown)
    }

    /// Reads a persisted operation without dispatching or recovering it.
    pub fn inspect(&self, identity: &DraftOperationIdentity) -> (r: Result<
        Option<PersistedDraftOperation>,
        DraftJournalError,
    >)
        requires
            self.well_formed(),
        ensures
            match r {
                Ok(found) => {
                    &&& identity.account_generation <= i64::MAX
                    &&& match found {
                        Some(found) => self@.contains_key(*identity) && found.holds(
                            *identity,
                            self@[*identity],
                        ),
                        None => !self@.contains_key(*identity),
                    }
                },
                Err(error) => {
                    &&& error == DraftJournalError::InvalidDatabase
                    &&& identity.account_generation > i64::MAX
                },
            },
    {
        match sqlite_generation(identity.account_generation) {
            Ok(_) => {},
            Err(error) => {
                return Err(error);
            },
        }
        match self.find(identity) {
            Some(i) => Ok(Some(self.records[i].copied())),
            None => Ok(None),
        }
    }
}

/// Why an operation may not be dispatched.
pub open spec fn dispatch_fault(
    journal: Map<DraftOperationIdentity, Record>,
    operation: PreparedDraftOperation,
) -> Option<DraftJournalError> {
    if operation_fault(operation) is Some {
        operation_fault(operation)
    } else if !journal.contains_key(operation.identity) {
        Some(DraftJournalError::OperationNotPrepared)
    } else if !operation.matches(journal[operation.identity]) {
        Some(DraftJournalError::OperationConflict)
    } else if !(journal[operation.identity].state is Prepared) {
        Some(DraftJournalError::NotDispatchable(journal[operation.identity].state))
    } else {
        None
    }
}

/// What the journal becomes when an outcome is recorded, and what is answered: only an operation in
/// flight is ended, and nothing else changes.
pub open spec fn records_outcome(
    before: Map<DraftOperationIdentity, Record>,
    after: Map<DraftOperationIdentity, Record>,
    identity: DraftOperationIdentity,
    outcome: DraftOperationState,
    r: Result<PersistedDraftOperation, DraftJournalError>,
) -> bool {
    let refused = if outcome_fault(identity, outcome) is Some {
        outcome_fault(identity, outcome)
    } else if !before.contains_key(identity) {
        Some(DraftJournalError::OperationNotPrepared)
    } else if !(before[identity].state is InFlight) {
        Some(DraftJournalError::NotDispatchable(before[identity].state))
    } else {
        None
    };
    match refused {
        Some(error) => {
            &&& after == before
            &&& r == Err::<PersistedDraftOperation, DraftJournalError>(error)
        },
        None => {
            let ended = Record { state: outcome, ..before[identity] };
            &&& after == before.insert(identity, ended)
            &&& r is Ok
            &&& r->Ok_0.holds(identity, ended)
        },
    }
}

fn agree(a: &PreparedDraftOperation, b: &PreparedDraftOperation) -> (r: bool)
    ensures
        r == (a.mailbox_identity@ == b.mailbox_identity@ && a.content_sha256@ == b.content_sha256@),
{
    same(a.mailbox_identity.as_str(), b.mailbox_identity.as_str()) && same_bytes(
        a.content_sha256.as_slice(),
        b.content_sha256.as_slice(),
    )
}

/// An operation is dispatched at most once: in a journal that goes through any number of steps, an
/// operation that was ever dispatched is never prepared again, and it keeps the facts that were
/// frozen when it was prepared.
pub proof fn operations_are_dispatched_once(
    journals: Seq<Map<DraftOperationIdentity, Record>>,
    identity: DraftOperationIdentity,
    early: int,
    late: int,
)
    requires
        0 <= early <= late < journals.len(),
        forall|i: int|
            0 <= i < journals.len() - 1 ==> steps(#[trigger] journals[i], journals[i + 1]),
        journals[early].contains_key(identity),
    ensures
        journals[late].contains_key(identity),
        journals[late][identity].mailbox == journals[early][identity].mailbox,
        journals[late][identity].content == journals[early][identity].content,
        !(journals[early][identity].state is Prepared) ==> !(
        journals[late][identity].state is Prepared),
    decreases late - early,
{
    if early < late {
        assert(steps(journals[early], journals[early + 1]));
        operations_are_dispatched_once(journals, identity, early + 1, late);
    }
}

/// An outcome is final: whatever follows, an operation that was created, rejected or left uncertain
/// stays so.
pub proof fn outcomes_are_final(
    journals: Seq<Map<DraftOperationIdentity, Record>>,
    identity: DraftOperationIdentity,
    early: int,
    late: int,
)
    requires
        0 <= early <= late < journals.len(),
        forall|i: int|
            0 <= i < journals.len() - 1 ==> steps(#[trigger] journals[i], journals[i + 1]),
        journals[early].contains_key(identity),
        !(journals[early][identity].state is Prepared),
        !(journals[early][identity].state is InFlight),
    ensures
        journals[late].contains_key(identity),
        journals[late][identity] == journals[early][identity],
    decreases late - early,
{
    if early < late {
        assert(steps(journals[early], journals[early + 1]));
        outcomes_are_final(journals, identity, early + 1, late);
    }
}

/// An operation that was dispatched, whatever became of it, refuses to be dispatched again and names
/// its state.
pub proof fn begun_operations_refuse_dispatch(
    journal: Map<DraftOperationIdentity, Record>,
    operation: PreparedDraftOperation,
)
    requires
        journal.contains_key(operation.identity),
        operation.matches(journal[operation.identity]),
        !(journal[operation.identity].state is Prepared),
        operation_fault(operation) is None,
    ensures
        dispatch_fault(journal, operation) == Some(
            DraftJournalError::NotDispatchable(journal[operation.identity].state),
        ),
{
}

/// An uncertain outcome never permits another APPEND: whatever follows, no operation under that identity
/// can be dispatched.
pub proof fn uncertain_outcomes_are_never_repeated(
    journals: Seq<Map<DraftOperationIdentity, Record>>,
    operation: PreparedDraftOperation,
    early: int,
    late: int,
)
    requires
        0 <= early <= late < journals.len(),
        forall|i: int|
            0 <= i < journals.len() - 1 ==> steps(#[trigger] journals[i], journals[i + 1]),
        journals[early].contains_key(operation.identity),
        journals[early][operation.identity].state is OutcomeUnknown,
    ensures
        dispatch_fault(journals[late], operation) is Some,
{
    outcomes_are_final(journals, operation.identity, early, late);
}

/// Identical retries share the recorded outcome: whatever follows, an operation that was recorded still
/// matches its record, with which preparing it again is answered.
pub proof fn identical_retries_share_their_record(
    journals: Seq<Map<DraftOperationIdentity, Record>>,
    operation: PreparedDraftOperation,
    early: int,
    late: int,
)
    requires
        0 <= early <= late < journals.len(),
        forall|i: int|
            0 <= i < journals.len() - 1 ==> steps(#[trigger] journals[i], journals[i + 1]),
        journals[early].contains_key(operation.identity),
        operation.matches(journals[early][operation.identity]),
    ensures
        journals[late].contains_key(operation.identity),
        operation.matches(journals[late][operation.identity]),
{
    operations_are_dispatched_once(journals, operation.identity, early, late);
}

/// One row of the database, as it is read and written.
#[derive(Clone, Debug)]
pub struct DatabaseRow {
    pub operation_id: Vec<u8>,
    pub account_id: Vec<u8>,
    pub account_generation: i64,
    pub mailbox_identity: String,
    pub content_sha256: Vec<u8>,
    pub state: String,
    pub appended_uid_validity: Option<i64>,
    pub appended_uid: Option<i64>,
}

/// A number in big-endian bytes.
pub open spec fn number_of(bytes: Seq<u8>) -> nat
    decreases bytes.len(),
{
    if bytes.len() == 0 {
        0
    } else {
        number_of(bytes.drop_last()) * 256 + bytes.last() as nat
    }
}

/// The lowest `count` bytes of a number, big-endian.
pub open spec fn big_endian(value: nat, count: nat) -> Seq<u8>
    decreases count,
{
    if count == 0 {
        Seq::empty()
    } else {
        big_endian(value / 256, (count - 1) as nat).push((value % 256) as u8)
    }
}

/// 256 to the power of `count`.
pub open spec fn span(count: nat) -> nat
    decreases count,
{
    if count == 0 {
        1
    } else {
        256 * span((count - 1) as nat)
    }
}

proof fn numbers_fit(bytes: Seq<u8>)
    ensures
        number_of(bytes) < span(bytes.len()),
    decreases bytes.len(),
{
    if bytes.len() > 0 {
        numbers_fit(bytes.drop_last());
    }
}

proof fn sixteen_bytes()
    ensures
        span(16) == u128::MAX + 1,
        forall|count: nat| count <= 16 ==> #[trigger] span(count) <= span(16),
{
    reveal_with_fuel(span, 17);
    assert forall|count: nat| count <= 16 implies #[trigger] span(count) <= span(16) by {
        span_grows(count, 16);
    }
}

proof fn span_grows(low: nat, high: nat)
    requires
        low <= high,
    ensures
        1 <= span(low) <= span(high),
    decreases high,
{
    if high > 0 {
        if low < high {
            span_grows(low, (high - 1) as nat);
        } else {
            span_grows((low - 1) as nat, (high - 1) as nat);
        }
    }
}

/// A number that fits comes back from its bytes.
pub proof fn numbers_read_back(value: nat, count: nat)
    requires
        value < span(count),
    ensures
        big_endian(value, count).len() == count,
        number_of(big_endian(value, count)) == value,
    decreases count,
{
    if count > 0 {
        assert(value / 256 < span((count - 1) as nat));
        numbers_read_back(value / 256, (count - 1) as nat);
        let bytes = big_endian(value, count);
        assert(bytes.drop_last() =~= big_endian(value / 256, (count - 1) as nat));
    }
}

fn bytes_of(value: u128, count: usize) -> (r: Vec<u8>)
    ensures
        r@ == big_endian(value as nat, count as nat),
    decreases count,
{
    if count == 0 {
        Vec::new()
    } else {
        let mut bytes = bytes_of(value / 256, count - 1);
        bytes.push((value % 256) as u8);
        bytes
    }
}

/// The UUID that 16 bytes spell.
pub open spec fn uuid_of(bytes: Seq<u8>) -> Option<u128> {
    if bytes.len() == 16 {
        Some(number_of(bytes) as u128)
    } else {
        None
    }
}

fn read_uuid(bytes: &Vec<u8>) -> (r: Option<u128>)
    ensures
        r == uuid_of(bytes@),
{
    if bytes.len() != 16 {
        return None;
    }
    let mut value: u128 = 0;
    for i in 0..16
        invariant
            bytes@.len() == 16,
            value == number_of(bytes@.take(i as int)),
    {
        proof {
            let next = bytes@.take(i + 1);
            assert(next.drop_last() =~= bytes@.take(i as int));
            assert(next.last() == bytes@[i as int]);
            numbers_fit(next);
            sixteen_bytes();
            assert(span(next.len()) <= span(16));
        }
        value = value * 256 + bytes[i] as u128;
    }
    assert(bytes@.take(16) =~= bytes@);
    Some(value)
}

fn read_digest(bytes: &Vec<u8>) -> (r: [u8; 32])
    requires
        bytes@.len() == 32,
    ensures
        r@ == bytes@,
{
    let mut digest = [0u8; 32];
    for i in 0..32
        invariant
            bytes@.len() == 32,
            digest@.len() == 32,
            forall|j: int| 0 <= j < i ==> digest@[j] == bytes@[j],
    {
        digest[i] = bytes[i];
    }
    assert(digest@ =~= bytes@);
    digest
}

/// The created message that two columns name: both or neither is given, and neither is zero.
pub open spec fn appended_of(uid_validity: Option<i64>, uid: Option<i64>) -> Option<
    Option<AppendedMessageIdentity>,
> {
    match (uid_validity, uid) {
        (None, None) => Some(None),
        (Some(uid_validity), Some(uid)) => if 1 <= uid_validity <= u32::MAX && 1 <= uid
            <= u32::MAX {
            Some(
                Some(
                    AppendedMessageIdentity {
                        uid_validity: uid_validity as u32,
                        uid: uid as u32,
                    },
                ),
            )
        } else {
            None
        },
        _ => None,
    }
}

fn read_appended(uid_validity: Option<i64>, uid: Option<i64>) -> (r: Option<
    Option<AppendedMessageIdentity>,
>)
    ensures
        r == appended_of(uid_validity, uid),
{
    match (uid_validity, uid) {
        (None, None) => Some(None),
        (Some(uid_validity), Some(uid)) => if 1 <= uid_validity && uid_validity <= u32::MAX as i64
            && 1 <= uid && uid <= u32::MAX as i64 {
            Some(
                Some(
                    AppendedMessageIdentity {
                        uid_validity: uid_validity as u32,
                        uid: uid as u32,
                    },
                ),
            )
        } else {
            None
        },
        _ => None,
    }
}

/// The word under which a state is stored.
pub open spec fn state_word(state: DraftOperationState) -> Seq<char> {
    match state {
        DraftOperationState::Prepared => "prepared"@,
        DraftOperationState::InFlight => "in_flight"@,
        DraftOperationState::Created { .. } => "created"@,
        DraftOperationState::Rejected => "rejected"@,
        DraftOperationState::OutcomeUnknown => "outcome_unknown"@,
    }
}

/// The message that a state names.
pub open spec fn appended(state: DraftOperationState) -> Option<AppendedMessageIdentity> {
    match state {
        DraftOperationState::Created { appended_message } => appended_message,
        _ => None,
    }
}

/// The state that a word and a created message name. Only a created draft names a message.
pub open spec fn state_of(word: Seq<char>, message: Option<AppendedMessageIdentity>) -> Option<
    DraftOperationState,
> {
    if word == "created"@ {
        Some(DraftOperationState::Created { appended_message: message })
    } else if message is Some {
        None
    } else if word == "prepared"@ {
        Some(DraftOperationState::Prepared)
    } else if word == "in_flight"@ {
        Some(DraftOperationState::InFlight)
    } else if word == "rejected"@ {
        Some(DraftOperationState::Rejected)
    } else if word == "outcome_unknown"@ {
        Some(DraftOperationState::OutcomeUnknown)
    } else {
        None
    }
}

fn read_state(word: &str, message: Option<AppendedMessageIdentity>) -> (r: Option<
    DraftOperationState,
>)
    ensures
        r == state_of(word@, message),
{
    if same(word, "created") {
        Some(DraftOperationState::Created { appended_message: message })
    } else if message.is_some() {
        None
    } else if same(word, "prepared") {
        Some(DraftOperationState::Prepared)
    } else if same(word, "in_flight") {
        Some(DraftOperationState::InFlight)
    } else if same(word, "rejected") {
        Some(DraftOperationState::Rejected)
    } else if same(word, "outcome_unknown") {
        Some(DraftOperationState::OutcomeUnknown)
    } else {
        None
    }
}

/// The operation and the record that a row holds, where the row is valid.
pub open spec fn decoded(row: DatabaseRow) -> Option<(DraftOperationIdentity, Record)> {
    match (
        uuid_of(row.operation_id@),
        uuid_of(row.account_id@),
        appended_of(row.appended_uid_validity, row.appended_uid),
    ) {
        (Some(operation_id), Some(account_id), Some(message)) => match state_of(
            row.state@,
            message,
        ) {
            Some(state) => if row.account_generation >= 0 && row.content_sha256@.len() == 32
                && is_mailbox_identity(row.mailbox_identity@) {
                Some(
                    (
                        DraftOperationIdentity {
                            account_id,
                            account_generation: row.account_generation as u64,
                            operation_id,
                        },
                        Record {
                            mailbox: row.mailbox_identity@,
                            content: row.content_sha256@,
                            state,
                        },
                    ),
                )
            } else {
                None
            },
            None => None,
        },
        _ => None,
    }
}

/// The row holds operation `identity`.
pub open spec fn row_names(row: DatabaseRow, identity: DraftOperationIdentity) -> bool {
    match decoded(row) {
        Some((named, _)) => named == identity,
        None => false,
    }
}

/// Both rows hold one operation.
pub open spec fn same_operation(a: DatabaseRow, b: DatabaseRow) -> bool {
    match decoded(a) {
        Some((identity, _)) => row_names(b, identity),
        None => false,
    }
}

/// Reads a row; one that the journal cannot have written is refused.
pub fn decode_row(row: &DatabaseRow) -> (r: Result<PersistedDraftOperation, DraftJournalError>)
    ensures
        match r {
            Ok(record) => match decoded(*row) {
                Some((identity, value)) => record.holds(identity, value),
                None => false,
            },
            Err(error) => error == DraftJournalError::InvalidDatabase && decoded(*row) is None,
        },
{
    let operation_id = match read_uuid(&row.operation_id) {
        Some(value) => value,
        None => {
            return Err(DraftJournalError::InvalidDatabase);
        },
    };
    let account_id = match read_uuid(&row.account_id) {
        Some(value) => value,
        None => {
            return Err(DraftJournalError::InvalidDatabase);
        },
    };
    if row.account_generation < 0 || row.content_sha256.len() != 32 {
        return Err(DraftJournalError::InvalidDatabase);
    }
    let message = match read_appended(row.appended_uid_validity, row.appended_uid) {
        Some(message) => message,
        None => {
            return Err(DraftJournalError::InvalidDatabase);
        },
    };
    if !mailbox_identity(row.mailbox_identity.as_str()) {
        return Err(DraftJournalError::InvalidDatabase);
    }
    let state = match read_state(row.state.as_str(), message) {
        Some(state) => state,
        None => {
            return Err(DraftJournalError::InvalidDatabase);
        },
    };
    Ok(
        PersistedDraftOperation {
            operation: PreparedDraftOperation {
                identity: DraftOperationIdentity {
                    account_id,
                    account_generation: row.account_generation as u64,
                    operation_id,
                },
                mailbox_identity: row.mailbox_identity.clone(),
                content_sha256: read_digest(&row.content_sha256),
            },
            state,
        },
    )
}

/// The row that holds an operation in its state.
pub open spec fn encodes(row: DatabaseRow, record: PersistedDraftOperation) -> bool {
    let identity = record.operation.identity;
    &&& row.operation_id@ == big_endian(identity.operation_id as nat, 16)
    &&& row.account_id@ == big_endian(identity.account_id as nat, 16)
    &&& row.account_generation == identity.account_generation
    &&& row.mailbox_identity@ == record.operation.mailbox_identity@
    &&& row.content_sha256@ == record.operation.content_sha256@
    &&& row.state@ == state_word(record.state)
    &&& match appended(record.state) {
        Some(message) => {
            &&& row.appended_uid_validity == Some(message.uid_validity as i64)
            &&& row.appended_uid == Some(message.uid as i64)
        },
        None => row.appended_uid_validity is None && row.appended_uid is None,
    }
}

/// Writes an operation as a row.
pub fn encode_row(record: &PersistedDraftOperation) -> (r: Result<DatabaseRow, DraftJournalError>)
    ensures
        match r {
            Ok(row) => encodes(row, *record),
            Err(error) => {
                &&& error == DraftJournalError::InvalidDatabase
                &&& record.operation.identity.account_generation > i64::MAX
            },
        },
        r is Ok <==> record.operation.identity.account_generation <= i64::MAX,
{
    let identity = record.operation.identity;
    let account_generation = match sqlite_generation(identity.account_generation) {
        Ok(value) => value,
        Err(error) => {
            return Err(error);
        },
    };
    let mut content_sha256: Vec<u8> = Vec::new();
    for i in 0..32
        invariant
            content_sha256@ == record.operation.content_sha256@.take(i as int),
    {
        content_sha256.push(record.operation.content_sha256[i]);
        assert(record.operation.content_sha256@.take(i + 1)
            =~= record.operation.content_sha256@.take(i as int).push(
            record.operation.content_sha256@[i as int],
        ));
    }
    assert(record.operation.content_sha256@.take(32) =~= record.operation.content_sha256@);
    let word = match record.state {
        DraftOperationState::Prepared => "prepared",
        DraftOperationState::InFlight => "in_flight",
        DraftOperationState::Created { .. } => "created",
        DraftOperationState::Rejected => "rejected",
        DraftOperationState::OutcomeUnknown => "outcome_unknown",
    };
    let (appended_uid_validity, appended_uid) = match record.state {
        DraftOperationState::Created { appended_message: Some(message) } => (
            Some(message.uid_validity as i64),
            Some(message.uid as i64),
        ),
        _ => (None, None),
    };
    Ok(
        DatabaseRow {
            operation_id: bytes_of(identity.operation_id, 16),
            account_id: bytes_of(identity.account_id, 16),
            account_generation,
            mailbox_identity: record.operation.mailbox_identity.clone(),
            content_sha256,
            state: word.to_string(),
            appended_uid_validity,
            appended_uid,
        },
    )
}

/// What the journal writes it reads back: the row of a valid operation in any state decodes to that
/// operation in that state.
pub proof fn rows_read_back(record: PersistedDraftOperation, row: DatabaseRow)
    requires
        encodes(row, record),
        operation_fault(record.operation) is None,
        match appended(record.state) {
            Some(message) => message.uid != 0 && message.uid_validity != 0,
            None => true,
        },
    ensures
        decoded(row) == Some(
            (record.operation.identity, record.operation.record(record.state)),
        ),
{
    let identity = record.operation.identity;
    sixteen_bytes();
    numbers_read_back(identity.operation_id as nat, 16);
    numbers_read_back(identity.account_id as nat, 16);
    reveal_strlit("prepared");
    reveal_strlit("in_flight");
    reveal_strlit("created");
    reveal_strlit("rejected");
    reveal_strlit("outcome_unknown");
    assert("prepared"@.len() == 8 && "in_flight"@.len() == 9 && "created"@.len() == 7);
    assert("rejected"@.len() == 8 && "outcome_unknown"@.len() == 15);
    assert("prepared"@[0] == 'p' && "rejected"@[0] == 'r');
    assert(state_of(row.state@, appended(record.state)) == Some(record.state));
}

/// How a database is opened.
#[derive(Clone, Copy, Debug, PartialEq, Eq, Structural)]
pub enum Opening {
    /// It is empty: the tables are created.
    Initialize,
    /// It has the current version: its columns are compared.
    Compare,
}

/// An empty database is initialized, one of the current version is compared, and any other is
/// refused.
pub fn opening(version: i64, tables: i64) -> (r: Result<Opening, DraftJournalError>)
    ensures
        r == if version == 0 && tables == 0 {
            Ok::<Opening, DraftJournalError>(Opening::Initialize)
        } else if version == SCHEMA_VERSION {
            Ok(Opening::Compare)
        } else {
            Err(DraftJournalError::InvalidDatabase)
        },
{
    if version == 0 && tables == 0 {
        Ok(Opening::Initialize)
    } else if version == SCHEMA_VERSION {
        Ok(Opening::Compare)
    } else {
        Err(DraftJournalError::InvalidDatabase)
    }
}

/// A column of the table, as the database describes it.
#[derive(Clone, Debug)]
pub struct Column {
    pub name: String,
    pub kind: String,
    pub not_null: i64,
    pub primary_key: i64,
}

/// The column of a given name, of a type in any case of its letters, and with the two marks.
pub open spec fn is_column(
    column: Column,
    name: Seq<char>,
    kind: Seq<char>,
    not_null: int,
    primary_key: int,
) -> bool {
    &&& column.name@ == name
    &&& lowered_text(column.kind@) == lowered_text(kind)
    &&& column.not_null == not_null
    &&& column.primary_key == primary_key
}

fn describes(column: &Column, name: &str, kind: &str, not_null: i64, primary_key: i64) -> (r: bool)
    ensures
        r == is_column(*column, name@, kind@, not_null as int, primary_key as int),
{
    same(column.name.as_str(), name) && same_text_ignoring_case(column.kind.as_str(), kind)
        && column.not_null == not_null && column.primary_key == primary_key
}

/// The columns of the current version, in their order.
pub open spec fn is_current_schema(columns: Seq<Column>) -> bool {
    &&& columns.len() == 8
    &&& is_column(columns[0], "operation_id"@, "BLOB"@, 1, 3)
    &&& is_column(columns[1], "account_id"@, "BLOB"@, 1, 1)
    &&& is_column(columns[2], "account_generation"@, "INTEGER"@, 1, 2)
    &&& is_column(columns[3], "mailbox_identity"@, "TEXT"@, 1, 0)
    &&& is_column(columns[4], "content_sha256"@, "BLOB"@, 1, 0)
    &&& is_column(columns[5], "state"@, "TEXT"@, 1, 0)
    &&& is_column(columns[6], "appended_uid_validity"@, "INTEGER"@, 0, 0)
    &&& is_column(columns[7], "appended_uid"@, "INTEGER"@, 0, 0)
}

pub fn schema_is_current(columns: &Vec<Column>) -> (r: bool)
    ensures
        r == is_current_schema(columns@),
{
    columns.len() == 8 && describes(&columns[0], "operation_id", "BLOB", 1, 3) && describes(
        &columns[1],
        "account_id",
        "BLOB",
        1,
        1,
    ) && describes(&columns[2], "account_generation", "INTEGER", 1, 2) && describes(
        &columns[3],
        "mailbox_identity",
        "TEXT",
        1,
        0,
    ) && describes(&columns[4], "content_sha256", "BLOB", 1, 0) && describes(
        &columns[5],
        "state",
        "TEXT",
        1,
        0,
    ) && describes(&columns[6], "appended_uid_validity", "INTEGER", 0, 0) && describes(
        &columns[7],
        "appended_uid",
        "INTEGER",
        0,
        0,
    )
}

/// Refuses a database whose table is not the current one.
pub fn check_schema(columns: &Vec<Column>) -> (r: Result<(), DraftJournalError>)
    ensures
        r == if is_current_schema(columns@) {
            Ok::<(), DraftJournalError>(())
        } else {
            Err(DraftJournalError::InvalidDatabase)
        },
{
    if schema_is_current(columns) {
        Ok(())
    } else {
        Err(DraftJournalError::InvalidDatabase)
    }
}

/// Refuses a database that did not take the write-ahead log and full synchronization.
pub fn check_durability(journal_mode: &str, synchronous: i64) -> (r: Result<(), DraftJournalError>)
    ensures
        r == if lowered_text(journal_mode@) == lowered_text("wal"@) && synchronous == 2 {
            Ok::<(), DraftJournalError>(())
        } else {
            Err(DraftJournalError::Unavailable)
        },
{
    if same_text_ignoring_case(journal_mode, "wal") && synchronous == 2 {
        Ok(())
    } else {
        Err(DraftJournalError::Unavailable)
    }
}

/// Accepts an update that changed exactly the one row that it names. Another writer took the row
/// where it did not.
pub fn check_changed(rows: usize) -> (r: Result<(), DraftJournalError>)
    ensures
        r == if rows == 1 {
            Ok::<(), DraftJournalError>(())
        } else {
            Err(DraftJournalError::NotDispatchable(DraftOperationState::InFlight))
        },
{
    if rows == 1 {
        Ok(())
    } else {
        Err(DraftJournalError::NotDispatchable(DraftOperationState::InFlight))
    }
}

/// How far an operation has come: recorded, sent, or ended.
pub open spec fn progress(state: DraftOperationState) -> int {
    match state {
        DraftOperationState::Prepared => 1,
        DraftOperationState::InFlight => 2,
        _ => 3,
    }
}

/// An operation goes one step at a time, from being recorded over being sent to its end, and keeps its
/// mailbox and its content.
pub proof fn operations_go_step_by_step(before: Option<Record>, after: Record)
    ensures
        advances(before, after) <==> match before {
            None => progress(after.state) == 1,
            Some(before) => progress(after.state) == progress(before.state) + 1 && after.mailbox == before.mailbox
                && after.content == before.content,
        },
{
}

/// An operation is sent exactly where it is sound, was recorded with the same mailbox and content, and was
/// not begun; what stands in the way is told, a changed content before a state.
pub proof fn only_recorded_operations_are_sent(
    journal: Map<DraftOperationIdentity, Record>,
    operation: PreparedDraftOperation,
)
    ensures
        dispatch_fault(journal, operation) is None <==> {
            &&& 1 <= operation.mailbox_identity@.len() <= 4096
            &&& operation.identity.account_generation <= i64::MAX
            &&& journal.contains_key(operation.identity)
            &&& journal[operation.identity].mailbox == operation.mailbox_identity@
            &&& journal[operation.identity].content == operation.content_sha256@
            &&& journal[operation.identity].state is Prepared
        },
        operation_fault(operation) is None && !journal.contains_key(operation.identity) ==> dispatch_fault(
            journal,
            operation,
        ) == Some(DraftJournalError::OperationNotPrepared),
        operation_fault(operation) is None && journal.contains_key(operation.identity) && (
        journal[operation.identity].mailbox != operation.mailbox_identity@ || journal[operation.identity].content
            != operation.content_sha256@) ==> dispatch_fault(journal, operation) == Some(
            DraftJournalError::OperationConflict,
        ),
        !(1 <= operation.mailbox_identity@.len() <= 4096) ==> dispatch_fault(journal, operation) == Some(
            DraftJournalError::InvalidOperation,
        ),
{
}

/// An operation ends as created, rejected or unknown; a message that was created has a number and a
/// mailbox that has one.
pub proof fn operations_end_in_an_outcome(identity: DraftOperationIdentity, outcome: DraftOperationState)
    ensures
        outcome is Prepared || outcome is InFlight ==> outcome_fault(identity, outcome) == Some(
            DraftJournalError::InvalidOperation,
        ),
        outcome matches DraftOperationState::Created { appended_message: Some(message) } ==> (message.uid == 0
            || message.uid_validity == 0) ==> outcome_fault(identity, outcome) == Some(
            DraftJournalError::InvalidOperation,
        ),
        identity.account_generation <= i64::MAX && (outcome is Rejected || outcome is OutcomeUnknown) ==> outcome_fault(
            identity,
            outcome,
        ) is None,
        identity.account_generation <= i64::MAX ==> (outcome matches DraftOperationState::Created { appended_message }
            ==> (appended_message matches Some(message) ==> message.uid > 0 && message.uid_validity > 0)
            ==> outcome_fault(identity, outcome) is None),
        outcome_fault(identity, outcome) is None ==> identity.account_generation <= i64::MAX && progress(outcome) == 3,
{
}

/// The words by which states are stored, so that a journal reads the same in every version.
pub proof fn states_are_stored_by_their_words(state: DraftOperationState)
    ensures
        state is Prepared ==> state_word(state) == "prepared"@,
        state is InFlight ==> state_word(state) == "in_flight"@,
        state is Created ==> state_word(state) == "created"@,
        state is Rejected ==> state_word(state) == "rejected"@,
        state is OutcomeUnknown ==> state_word(state) == "outcome_unknown"@,
        appended(state) is Some ==> state is Created,
        state_of(state_word(state), appended(state)) == Some(state),
{
    reveal_strlit("prepared");
    reveal_strlit("in_flight");
    reveal_strlit("created");
    reveal_strlit("rejected");
    reveal_strlit("outcome_unknown");
    assert("prepared"@.len() == 8 && "in_flight"@.len() == 9 && "created"@.len() == 7 && "outcome_unknown"@.len() == 15);
    assert("rejected"@[0] == 'r' && "prepared"@[0] == 'p');
}

/// Numbers are stored with the most significant byte first.
pub proof fn the_first_byte_weighs_most(first: u8, rest: Seq<u8>)
    ensures
        number_of(seq![first] + rest) == first * span(rest.len()) + number_of(rest),
    decreases rest.len(),
{
    let whole = seq![first] + rest;
    reveal_with_fuel(number_of, 2);
    reveal_with_fuel(span, 2);
    if rest.len() == 0 {
        assert(whole.drop_last() =~= Seq::<u8>::empty());
        assert(number_of(whole) == first as nat);
        assert(first * span(0) == first) by (nonlinear_arith)
            requires
                span(0) == 1,
        ;
    } else {
        the_first_byte_weighs_most(first, rest.drop_last());
        assert(whole.drop_last() =~= seq![first] + rest.drop_last());
        let (f, s) = (first as int, span((rest.len() - 1) as nat) as int);
        assert((f * s) * 256 == f * (256 * s)) by (nonlinear_arith);
        assert(span(rest.len()) == 256 * s);
        assert(number_of(whole) == number_of(whole.drop_last()) * 256 + rest.last() as nat);
        assert(number_of(rest) == number_of(rest.drop_last()) * 256 + rest.last() as nat);
    }
}

/// In a current journal an operation is found by its account, the generation of that and its own number,
/// and only what is known of the created message may be missing.
pub proof fn journals_are_keyed_by_operation(columns: Seq<Column>)
    requires
        is_current_schema(columns),
    ensures
        columns[1].name@ == "account_id"@ && columns[1].primary_key == 1,
        columns[2].name@ == "account_generation"@ && columns[2].primary_key == 2,
        columns[0].name@ == "operation_id"@ && columns[0].primary_key == 3,
        forall|i: int| 3 <= i < 8 ==> (#[trigger] columns[i]).primary_key == 0,
        forall|i: int| 0 <= i < 6 ==> (#[trigger] columns[i]).not_null == 1,
        columns[6].name@ == "appended_uid_validity"@ && columns[6].not_null == 0,
        columns[7].name@ == "appended_uid"@ && columns[7].not_null == 0,
        columns[3].name@ == "mailbox_identity"@ && columns[4].name@ == "content_sha256"@ && columns[5].name@
            == "state"@,
        columns.len() == 8,
{
}

/// A journal is made where there is nothing yet, read where it is of this version, and refused otherwise;
/// a change that did not meet exactly one row did not happen.
pub proof fn journals_are_opened_with_care(
    version: i64,
    tables: i64,
    rows: usize,
    opened: Result<Opening, DraftJournalError>,
    changed: Result<(), DraftJournalError>,
)
    requires
        call_ensures(opening, (version, tables), opened),
        call_ensures(check_changed, (rows,), changed),
    ensures
        opened == Ok::<Opening, DraftJournalError>(Opening::Initialize) ==> version == 0 && tables == 0,
        version == 0 && tables == 0 ==> opened == Ok::<Opening, DraftJournalError>(Opening::Initialize),
        opened == Ok::<Opening, DraftJournalError>(Opening::Compare) ==> version == SCHEMA_VERSION,
        version != SCHEMA_VERSION && tables > 0 ==> opened == Err::<Opening, DraftJournalError>(
            DraftJournalError::InvalidDatabase,
        ),
        changed is Ok <==> rows == 1,
{
}

} // verus!
