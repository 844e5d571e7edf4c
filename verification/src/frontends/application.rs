//! The frontend uses the same operations in an embedded or isolated installation.
use vstd::prelude::*;

use crate::config::Limits;
use crate::domain::attachment::{
    AttachmentChunk, AttachmentContinuation, AttachmentProgress, GetAttachmentInput,
};
use crate::domain::{Error, ErrorCode};
use crate::export::{base64_bytes, base64_text, decode_base64, encode_base64};
use crate::text::{byte_len, chars_of, utf8_len};

verus! {

/// The request that continues a transfer. A transfer that is complete has none.
pub fn next_input(progress: &AttachmentProgress) -> (r: Result<GetAttachmentInput, Error>)
    ensures
        match *progress {
            AttachmentProgress::Continue { next_token } => r matches Ok(
                GetAttachmentInput::Continue(next),
            ) && next.token@ == next_token@,
            AttachmentProgress::Complete { .. } => r matches Err(error) && error.reports(
                ErrorCode::InternalError,
            ),
        },
{
    match progress {
        AttachmentProgress::Continue { next_token } => Ok(
            GetAttachmentInput::Continue(AttachmentContinuation { token: next_token.clone() }),
        ),
        AttachmentProgress::Complete { .. } => Err(Error::new(ErrorCode::InternalError)),
    }
}

/// The padding at the end of a text.
pub open spec fn padding(text: Seq<char>) -> nat
    decreases text.len(),
{
    if text.len() > 0 && text.last() == '=' {
        padding(text.drop_last()) + 1
    } else {
        0
    }
}

fn count_padding(text: &str) -> (r: usize)
    ensures
        r == padding(text@),
{
    let chars = chars_of(text);
    let total: usize = chars.len();
    let mut end: usize = total;
    assert(chars@.take(chars@.len() as int) =~= chars@);
    while end > 0 && chars[end - 1] == '='
        invariant
            end <= total,
            total == chars@.len(),
            total - end + padding(chars@.take(end as int)) == padding(chars@),
        decreases end,
    {
        assert(chars@.take(end as int).drop_last() =~= chars@.take(end - 1));
        end = end - 1;
    }
    total - end
}

/// The bytes that a base64 text will decode to, as far as its length shows.
pub open spec fn estimate(text: Seq<char>) -> nat {
    let whole = utf8_len(text) / 4 * 3;
    if whole < padding(text) {
        0
    } else {
        (whole - padding(text)) as nat
    }
}

/// An attachment that is being downloaded as a whole.
#[derive(Debug)]
pub struct Download {
    pub bytes: Vec<u8>,
}

/// Why a chunk cannot be taken, if it cannot.
pub open spec fn refusal(have: nat, chunk: AttachmentChunk, limits: Limits) -> Option<ErrorCode> {
    let total = have + estimate(chunk.bytes_base64@);
    if chunk.decoded_offset != have {
        Some(ErrorCode::InternalError)
    } else if total > limits.attachment_decoded_bytes || (total + 2) / 3 * 4 + 4096 + utf8_len(
        chunk.attachment_reference@,
    ) > limits.envelope_bytes {
        Some(ErrorCode::ResponseTooLarge)
    } else {
        None
    }
}

/// What a chunk means for a download.
#[derive(Debug)]
pub enum Taken {
    /// Ask for the next chunk.
    More(AttachmentChunk),
    /// The whole attachment, as one chunk.
    Whole(AttachmentChunk),
}

impl Download {
    pub fn new() -> (r: Self)
        ensures
            r.bytes@.len() == 0,
    {
        Download { bytes: Vec::new() }
    }

    /// Refuses a chunk that does not continue the download, or that would make it too large.
    pub fn check(&self, chunk: &AttachmentChunk, limits: &Limits) -> (r: Result<(), Error>)
        requires
            limits.valid(),
        ensures
            match refusal(self.bytes@.len(), *chunk, *limits) {
                Some(code) => r matches Err(error) && error.reports(code),
                None => r == Ok::<(), Error>(()),
            },
    {
        if chunk.decoded_offset != self.bytes.len() as u64 {
            return Err(Error::new(ErrorCode::InternalError));
        }
        let text = chunk.bytes_base64.as_str();
        let whole: usize = byte_len(text) / 4 * 3;
        let decoded: usize = whole.saturating_sub(count_padding(text));
        let total: usize = self.bytes.len().saturating_add(decoded);
        if total > limits.attachment_decoded_bytes {
            return Err(Error::new(ErrorCode::ResponseTooLarge));
        }
        let encoded: usize = (total + 2) / 3 * 4 + 4096;
        if encoded.saturating_add(byte_len(chunk.attachment_reference.as_str()))
            > limits.envelope_bytes {
            return Err(Error::new(ErrorCode::ResponseTooLarge));
        }
        Ok(())
    }

    /// Takes the decoded bytes of a chunk that was checked.
    pub fn take(&mut self, chunk: AttachmentChunk, decoded: Option<Vec<u8>>) -> (r: Result<
        Taken,
        Error,
    >)
        ensures
            match decoded {
                None => (r matches Err(error) && error.reports(ErrorCode::InternalError))
                    && final(self).bytes@ == old(self).bytes@,
                Some(decoded) => {
                    &&& final(self).bytes@ == old(self).bytes@ + decoded@
                    &&& match chunk.progress {
                        AttachmentProgress::Continue { .. } => r == Ok::<Taken, Error>(
                            Taken::More(chunk),
                        ),
                        AttachmentProgress::Complete { .. } => r matches Ok(Taken::Whole(whole))
                            && whole == (AttachmentChunk {
                            bytes_base64: whole.bytes_base64,
                            decoded_offset: 0,
                            ..chunk
                        }) && whole.bytes_base64@ == base64_text(final(self).bytes@)
                            && base64_bytes(whole.bytes_base64@) == Some(final(self).bytes@),
                    }
                },
            },
    {
        let mut decoded = match decoded {
            Some(decoded) => decoded,
            None => {
                return Err(Error::new(ErrorCode::InternalError));
            },
        };
        self.bytes.append(&mut decoded);
        match &chunk.progress {
            AttachmentProgress::Continue { .. } => Ok(Taken::More(chunk)),
            AttachmentProgress::Complete { .. } => {
                let mut whole = chunk;
                whole.bytes_base64 = encode_base64(self.bytes.as_slice());
                whole.decoded_offset = 0;
                Ok(Taken::Whole(whole))
            },
        }
    }

    /// Takes a chunk, in order.
    pub fn accept(&mut self, chunk: AttachmentChunk, limits: &Limits) -> (r: Result<Taken, Error>)
        requires
            limits.valid(),
        ensures
            match refusal(old(self).bytes@.len(), chunk, *limits) {
                Some(code) => (r matches Err(error) && error.reports(code)) && final(self).bytes@
                    == old(self).bytes@,
                None => match base64_bytes(chunk.bytes_base64@) {
                    None => (r matches Err(error) && error.reports(ErrorCode::InternalError))
                        && final(self).bytes@ == old(self).bytes@,
                    Some(decoded) => {
                        &&& final(self).bytes@ == old(self).bytes@ + decoded
                        &&& match chunk.progress {
                            AttachmentProgress::Continue { .. } => r == Ok::<Taken, Error>(
                                Taken::More(chunk),
                            ),
                            AttachmentProgress::Complete { .. } => r matches Ok(
                                Taken::Whole(whole),
                            ) && whole == (AttachmentChunk {
                                bytes_base64: whole.bytes_base64,
                                decoded_offset: 0,
                                ..chunk
                            }) && whole.bytes_base64@ == base64_text(final(self).bytes@)
                                && base64_bytes(whole.bytes_base64@) == Some(final(self).bytes@),
                        }
                    },
                },
            },
    {
        match self.check(&chunk, limits) {
            Ok(()) => {},
            Err(error) => {
                return Err(error);
            },
        }
        let decoded = decode_base64(chunk.bytes_base64.as_str());
        self.take(chunk, decoded)
    }
}

/// The padding of a text is its trailing equals signs.
pub proof fn padding_is_at_the_end(text: Seq<char>, count: nat)
    requires
        text.len() > 0 ==> text.last() != '=',
    ensures
        padding(text + Seq::new(count, |i: int| '=')) == count,
    decreases count,
{
    let whole = text + Seq::new(count, |i: int| '=');
    if count == 0 {
        assert(whole =~= text);
    } else {
        padding_is_at_the_end(text, (count - 1) as nat);
        assert(whole.drop_last() =~= text + Seq::new((count - 1) as nat, |i: int| '='));
        assert(whole.last() == '=');
    }
}

/// Four letters of base64 stand for three bytes, less one for each equals sign at the end.
pub proof fn letters_stand_for_bytes(text: Seq<char>)
    ensures
        padding(text) <= 3 * (utf8_len(text) / 4) ==> estimate(text) + padding(text) == 3 * (utf8_len(text) / 4),
        padding(text) > 3 * (utf8_len(text) / 4) ==> estimate(text) == 0,
{
}

/// A piece of a download is taken exactly where it follows what was taken before and the whole still fits
/// the limits, also in its written form.
pub proof fn pieces_are_taken_in_turn(have: nat, chunk: AttachmentChunk, limits: Limits)
    ensures
        refusal(have, chunk, limits) == Some(ErrorCode::InternalError) <==> chunk.decoded_offset != have,
        refusal(have, chunk, limits) is None ==> {
            &&& have + estimate(chunk.bytes_base64@) <= limits.attachment_decoded_bytes
            &&& 4 * ((have + estimate(chunk.bytes_base64@) + 2) / 3) + 4 * 1024 + utf8_len(
                chunk.attachment_reference@,
            ) <= limits.envelope_bytes
        },
        refusal(have, chunk, limits) == Some(ErrorCode::ResponseTooLarge) <==> chunk.decoded_offset == have && (have
            + estimate(chunk.bytes_base64@) > limits.attachment_decoded_bytes || 4 * ((have + estimate(
            chunk.bytes_base64@,
        ) + 2) / 3) + 4 * 1024 + utf8_len(chunk.attachment_reference@) > limits.envelope_bytes),
{
}

/// A download goes on with the token that its last piece brought, and a finished one does not go on.
pub proof fn downloads_go_on_with_their_token(progress: AttachmentProgress, r: Result<GetAttachmentInput, Error>)
    requires
        call_ensures(next_input, (&progress,), r),
    ensures
        progress matches AttachmentProgress::Continue { next_token } ==> (r matches Ok(GetAttachmentInput::Continue(next))
            && next.token@ == next_token@),
        progress is Complete ==> r is Err,
{
}

} // verus!
