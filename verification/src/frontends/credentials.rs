//! Explicit operator credential commands shared by both executables.
use vstd::prelude::*;

use super::arguments::Credential;
use crate::credentials::SourceError;

verus! {

/// Who puts a credential in place.
#[derive(Clone, Copy, Debug, PartialEq, Eq, Structural)]
pub enum Provisioning {
    Operator,
    External,
}

/// What a credential command does.
#[derive(Clone, Copy, Debug, PartialEq, Eq, Structural)]
pub enum Work {
    /// Ask for the secret, then store it.
    PromptAndStore,
    Remove,
    Inspect,
}

/// What a command comes to: a secret is asked for only where somebody can type it and the source can keep it.
pub open spec fn planned(command: Credential, mutable: bool, json: bool) -> Result<Work, SourceError> {
    match command {
        Credential::Store => if json {
            Err(SourceError::InteractionRequired)
        } else if !mutable {
            Err(SourceError::Unavailable)
        } else {
            Ok(Work::PromptAndStore)
        },
        Credential::Delete => if mutable {
            Ok(Work::Remove)
        } else {
            Err(SourceError::Unavailable)
        },
        Credential::Status => Ok(Work::Inspect),
    }
}

pub fn plan(command: Credential, mutable: bool, json: bool) -> (r: Result<Work, SourceError>)
    ensures
        r == planned(command, mutable, json),
{
    match command {
        Credential::Store => if json {
            Err(SourceError::InteractionRequired)
        } else if !mutable {
            Err(SourceError::Unavailable)
        } else {
            Ok(Work::PromptAndStore)
        },
        Credential::Delete => if mutable {
            Ok(Work::Remove)
        } else {
            Err(SourceError::Unavailable)
        },
        Credential::Status => Ok(Work::Inspect),
    }
}

pub fn provisioning(mutable: bool) -> (r: Provisioning)
    ensures
        r == (if mutable {
            Provisioning::Operator
        } else {
            Provisioning::External
        }),
{
    if mutable {
        Provisioning::Operator
    } else {
        Provisioning::External
    }
}

/// Looking at a secret is always possible; storing and removing one need a store that can be written, and
/// storing also needs somebody to type, which output for programs rules out.
pub proof fn secrets_need_a_store_and_a_person(command: Credential, mutable: bool, json: bool)
    ensures
        command is Status ==> planned(command, mutable, json) == Ok::<Work, SourceError>(Work::Inspect),
        command is Delete ==> (planned(command, mutable, json) == Ok::<Work, SourceError>(Work::Remove) <==> mutable),
        command is Store ==> (planned(command, mutable, json) == Ok::<Work, SourceError>(Work::PromptAndStore)
            <==> mutable && !json),
        command is Store && json ==> planned(command, mutable, json) == Err::<Work, SourceError>(
            SourceError::InteractionRequired,
        ),
        planned(command, mutable, false) is Err ==> planned(command, mutable, false) == Err::<Work, SourceError>(
            SourceError::Unavailable,
        ),
{
}

} // verus!
