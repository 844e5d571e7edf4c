//! Attachment references and session-local decoded chunks.
use vstd::prelude::*;

use super::search::{bounded_text, is_bounded_text};
use crate::text::utf8_len;

verus! {

#[derive(Debug)]
pub struct ExportReceipt {
    pub path: String,
    pub filesystem: String,
    pub total_decoded_bytes: u64,
    pub sha256: String,
}

#[derive(Debug)]
pub struct ListAttachmentsInput {
    pub message: String,
}

impl ListAttachmentsInput {
    pub open spec fn bounded(self) -> bool {
        is_bounded_text(self.message@, 1, 8192)
    }

    pub fn is_bounded(&self) -> (r: bool)
        ensures
            r == self.bounded(),
    {
        bounded_text(self.message.as_str(), 1, 8192)
    }
}

#[derive(Debug)]
pub enum GetAttachmentInput {
    Start(AttachmentStart),
    Continue(AttachmentContinuation),
}

impl GetAttachmentInput {
    pub open spec fn bounded(self) -> bool {
        match self {
            GetAttachmentInput::Start(start) => is_bounded_text(start.attachment@, 1, 8192),
            GetAttachmentInput::Continue(next) => is_bounded_text(next.token@, 1, 8192),
        }
    }

    pub fn is_bounded(&self) -> (r: bool)
        ensures
            r == self.bounded(),
    {
        match self {
            GetAttachmentInput::Start(start) => bounded_text(start.attachment.as_str(), 1, 8192),
            GetAttachmentInput::Continue(next) => bounded_text(next.token.as_str(), 1, 8192),
        }
    }
}

#[derive(Debug)]
pub struct AttachmentStart {
    pub attachment: String,
}

#[derive(Debug)]
pub struct AttachmentContinuation {
    pub token: String,
}

#[derive(Debug)]
pub struct AttachmentMetadata {
    pub reference: String,
    pub display_name: Option<String>,
    pub media_type: String,
    /// Transfer-encoded size reported by the provider, not a decoded byte count.
    pub declared_size: Option<u64>,
    pub available: bool,
}

#[derive(Debug)]
pub struct AttachmentList {
    pub account_id: String,
    pub generation: u64,
    pub message_reference: String,
    pub attachments: Vec<AttachmentMetadata>,
}

#[derive(Debug)]
pub struct AttachmentChunk {
    pub account_id: String,
    pub generation: u64,
    pub attachment_reference: String,
    pub bytes_base64: String,
    pub decoded_offset: u64,
    pub progress: AttachmentProgress,
}

#[derive(Debug)]
pub enum AttachmentProgress {
    Continue { next_token: String },
    Complete { total_decoded_bytes: u64, sha256: String },
}

/// References to attachments and transfers have one to 8192 bytes.
pub proof fn attachment_references_are_bounded(list: ListAttachmentsInput, get: GetAttachmentInput)
    ensures
        list.bounded() <==> 1 <= utf8_len(list.message@) <= 8192,
        get matches GetAttachmentInput::Start(start) ==> (get.bounded() <==> 1 <= utf8_len(start.attachment@) <= 8192),
        get matches GetAttachmentInput::Continue(next) ==> (get.bounded() <==> 1 <= utf8_len(next.token@) <= 8192),
{
}

} // verus!
