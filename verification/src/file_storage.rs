//! Bounded private files and durable replacement shared by configuration and state.
use vstd::prelude::*;

verus! {

/// What the system says of an opened file.
#[derive(Clone, Copy, Debug, PartialEq, Eq, Structural)]
pub struct FileFacts {
    pub regular: bool,
    /// The path leads elsewhere.
    pub redirected: bool,
    pub owner: u32,
    pub mode: u32,
    pub links: u64,
    pub length: u64,
}

/// A regular file under one name that only its owner can use.
pub open spec fn is_private_file(facts: FileFacts, uid: u32) -> bool {
    facts.regular && !facts.redirected && facts.owner == uid && facts.mode & 0o077 == 0 && facts.links
        == 1
}

pub fn private_file(facts: FileFacts, uid: u32) -> (r: bool)
    ensures
        r == is_private_file(facts, uid),
{
    facts.regular && !facts.redirected && facts.owner == uid && facts.mode & 0o077 == 0
        && facts.links == 1
}

/// How the reading of a file goes on.
#[derive(Clone, Copy, Debug, PartialEq, Eq, Structural)]
pub enum Reading {
    /// There is no file.
    Absent,
    /// Read up to one byte more than the maximum.
    Proceed,
    /// The file is not to be read.
    Refuse,
}

/// What opening a file gave: nothing where there is none, and no facts where it failed otherwise.
#[derive(Clone, Copy, Debug, PartialEq, Eq, Structural)]
pub enum Opened {
    NotFound,
    Failed,
    File(FileFacts),
}

pub fn reading(opened: Opened, uid: u32, maximum: usize) -> (r: Reading)
    ensures
        r == (match opened {
            Opened::NotFound => Reading::Absent,
            Opened::Failed => Reading::Refuse,
            Opened::File(facts) => if is_private_file(facts, uid) && facts.length <= maximum {
                Reading::Proceed
            } else {
                Reading::Refuse
            },
        }),
{
    match opened {
        Opened::NotFound => Reading::Absent,
        Opened::Failed => Reading::Refuse,
        Opened::File(facts) => if private_file(facts, uid) && facts.length <= maximum as u64 {
            Reading::Proceed
        } else {
            Reading::Refuse
        },
    }
}

/// Keeps what was read where it is within the maximum: the file may have grown since it was examined.
pub fn within(bytes: Vec<u8>, maximum: usize) -> (r: Option<Vec<u8>>)
    ensures
        r == (if bytes@.len() <= maximum {
            Some(bytes)
        } else {
            None
        }),
{
    if bytes.len() > maximum {
        None
    } else {
        Some(bytes)
    }
}

/// A step of a durable replacement: the new contents reach the disk before they take the old name, and the
/// name reaches the disk before the replacement counts.
#[derive(Clone, Copy, Debug, PartialEq, Eq, Structural)]
pub enum Step {
    Create,
    Write,
    SyncFile,
    Rename,
    SyncDirectory,
    Done,
    /// Remove the temporary file and give up.
    Remove,
}

/// The step after another, by whether that one succeeded.
pub fn next_step(step: Step, succeeded: bool) -> (r: Step)
    ensures
        r == (match step {
            Step::Done | Step::Remove => step,
            _ if !succeeded => Step::Remove,
            Step::Create => Step::Write,
            Step::Write => Step::SyncFile,
            Step::SyncFile => Step::Rename,
            Step::Rename => Step::SyncDirectory,
            Step::SyncDirectory => Step::Done,
        }),
{
    match step {
        Step::Done => Step::Done,
        Step::Remove => Step::Remove,
        Step::Create => if succeeded {
            Step::Write
        } else {
            Step::Remove
        },
        Step::Write => if succeeded {
            Step::SyncFile
        } else {
            Step::Remove
        },
        Step::SyncFile => if succeeded {
            Step::Rename
        } else {
            Step::Remove
        },
        Step::Rename => if succeeded {
            Step::SyncDirectory
        } else {
            Step::Remove
        },
        Step::SyncDirectory => if succeeded {
            Step::Done
        } else {
            Step::Remove
        },
    }
}

/// A private file is a regular one of the user's own, reached by its own name alone, and neither its group
/// nor others may do anything with it.
pub proof fn private_files_are_for_their_owner(facts: FileFacts, uid: u32)
    ensures
        is_private_file(facts, uid) <==> {
            &&& facts.regular && !facts.redirected
            &&& facts.owner == uid
            &&& facts.links == 1
            &&& facts.mode & 0o070 == 0
            &&& facts.mode & 0o007 == 0
        },
{
    let mode = facts.mode;
    assert((mode & 0o077 == 0) == (mode & 0o070 == 0 && mode & 0o007 == 0)) by (bit_vector);
}

/// A file is replaced without a gap: it is renamed into place only when it was written and brought to the
/// disk, the work is done only when its directory was too, and whatever fails leads to its removal.
pub proof fn files_are_replaced_without_a_gap(step: Step, succeeded: bool, r: Step)
    requires
        call_ensures(next_step, (step, succeeded), r),
    ensures
        r is Rename ==> step is SyncFile && succeeded,
        r is SyncFile ==> step is Write && succeeded,
        r is Write ==> step is Create && succeeded,
        r is SyncDirectory ==> step is Rename && succeeded,
        r is Done ==> step is Done || (step is SyncDirectory && succeeded),
        !succeeded && !(step is Done) ==> r is Remove,
        succeeded && !(step is Remove) ==> !(r is Remove),
        !(r is Create),
{
}

/// What was read is given up where it is longer than it may be, and kept whole otherwise.
pub proof fn long_files_are_given_up(bytes: Vec<u8>, maximum: usize, r: Option<Vec<u8>>)
    requires
        call_ensures(within, (bytes, maximum), r),
    ensures
        r is None <==> bytes@.len() > maximum,
        r matches Some(kept) ==> kept@ == bytes@,
{
}

} // verus!
