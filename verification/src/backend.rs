//! In-memory provider adapter for account discovery without provider access.
use vstd::prelude::*;

use crate::domain::Availability;

verus! {

#[derive(Clone, Copy, Debug, Default)]
pub struct InMemoryBackend;

impl InMemoryBackend {
    /// Nothing is known of an account that no provider was asked about.
    pub fn availability(&self) -> (r: Availability)
        ensures
            r == Availability::Unknown,
    {
        Availability::Unknown
    }
}

} // verus!
