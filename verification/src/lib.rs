//! Controlled email access through a shared embedded application contract.
use vstd::prelude::*;

pub mod authentication;
pub mod backend;
pub mod config;
pub mod credentials;
pub mod digest;
pub mod domain;
pub mod draft;
pub mod draft_journal;
pub mod encoding;
pub mod export;
pub mod file_storage;
pub mod frontends;
pub mod host;
pub mod imap;
pub mod ipc;
pub mod isolation;
pub mod order;
pub mod path;
pub mod policy;
pub mod search;
pub mod service;
pub mod text;

verus! {

} // verus!
