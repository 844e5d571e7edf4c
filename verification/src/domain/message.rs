//! Selected message text and its representation metadata.
use vstd::prelude::*;

use super::search::{bounded_text, is_bounded_text};
use crate::text::utf8_len;

verus! {

#[derive(Debug)]
pub struct GetMessageInput {
    /// A message reference returned by search in this installation.
    pub message: String,
    pub cursor: Option<String>,
}

impl GetMessageInput {
    pub open spec fn bounded(self) -> bool {
        &&& is_bounded_text(self.message@, 1, 8192)
        &&& self.cursor matches Some(cursor) ==> is_bounded_text(cursor@, 1, 8192)
    }

    pub fn is_bounded(&self) -> (r: bool)
        ensures
            r == self.bounded(),
    {
        bounded_text(self.message.as_str(), 1, 8192) && match &self.cursor {
            Some(cursor) => bounded_text(cursor.as_str(), 1, 8192),
            None => true,
        }
    }
}

#[derive(Debug)]
pub struct MessageBody {
    pub account_id: String,
    pub generation: u64,
    pub message_reference: String,
    pub body: BodyText,
}

#[derive(Debug)]
pub struct BodyText {
    pub text: String,
    pub selected_part: Option<String>,
    pub source_media_type: Option<String>,
    pub representation_version: String,
    pub converted: bool,
    pub replacements: bool,
    pub truncated: bool,
    pub empty_reason: Option<EmptyBodyReason>,
    pub continuation_available: bool,
    pub next_cursor: Option<String>,
}

#[derive(Clone, Copy, Debug, PartialEq, Eq, Structural)]
pub enum EmptyBodyReason {
    NoSupportedBody,
}

/// References to messages and continuations have one to 8192 bytes.
pub proof fn message_references_are_bounded(input: GetMessageInput)
    ensures
        input.bounded() <==> 1 <= utf8_len(input.message@) <= 8192 && (input.cursor matches Some(cursor) ==> 1
            <= utf8_len(cursor@) <= 8192),
{
}

} // verus!
