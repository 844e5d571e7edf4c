//! Saving attachments under approved directories.
use base64::Engine;
use vstd::prelude::*;

use crate::digest::{absorb, absorbed, digest_of, sha256, start};
use crate::domain::attachment::{AttachmentChunk, AttachmentProgress, ExportReceipt};
use crate::domain::{Error, ErrorCode};
use crate::encoding::{hex, hex_text};
use crate::imap::attachment::decoder::base64_form;
use crate::path::{components, components_of, same_path, steps};
use crate::policy::name_views;
use crate::text::{
    byte_len, chars_of, decimal, decimal_text, decimals_read_back, lowered_text, same,
    same_text_ignoring_case, string_of, utf8_len,
};

verus! {

pub fn failed() -> (r: Error)
    ensures
        r.reports(ErrorCode::ExportFailed),
{
    Error::new(ErrorCode::ExportFailed)
}

pub fn cleanup_failed() -> (r: Error)
    ensures
        r.reports(ErrorCode::ExportCleanupFailed),
{
    Error::new(ErrorCode::ExportCleanupFailed)
}

/// A letter or a digit of any script.
pub uninterp spec fn is_word_char(c: char) -> bool;

/// `char::is_alphanumeric`. The contract names its answer.
#[verifier::external_body]
fn word_char(c: char) -> (r: bool)
    ensures
        r == is_word_char(c),
{
    c.is_alphanumeric()
}

pub open spec fn is_name_char(c: char) -> bool {
    is_word_char(c) || c == '.' || c == '-' || c == '_' || c == ' '
}

/// The part of a name before its first dot.
pub open spec fn stem(name: Seq<char>) -> Seq<char> {
    match name.index_of_first('.') {
        Some(dot) => name.take(dot),
        None => name,
    }
}

/// A name that some systems keep for devices.
pub open spec fn is_reserved(stem: Seq<char>) -> bool {
    let low = lowered_text(stem);
    ||| low == lowered_text("CON"@)
    ||| low == lowered_text("PRN"@)
    ||| low == lowered_text("AUX"@)
    ||| low == lowered_text("NUL"@)
    ||| stem.len() == 4 && '0' <= stem[3] <= '9' && (low.take(3) == lowered_text("COM"@)
        || low.take(3) == lowered_text("LPT"@))
}

/// A plain file name that means the same on every system: no hidden file, no path, no device.
pub open spec fn is_safe_name(name: Seq<char>) -> bool {
    &&& 1 <= name.len()
    &&& utf8_len(name) <= 200
    &&& name[0] != '.'
    &&& name.last() != '.' && name.last() != ' '
    &&& forall|i: int| 0 <= i < name.len() ==> is_name_char(#[trigger] name[i])
    &&& !is_reserved(stem(name))
}

fn reserved(stem: &str) -> (r: bool)
    ensures
        r == is_reserved(stem@),
{
    if same_text_ignoring_case(stem, "CON") || same_text_ignoring_case(stem, "PRN")
        || same_text_ignoring_case(stem, "AUX") || same_text_ignoring_case(stem, "NUL") {
        return true;
    }
    let chars = chars_of(stem);
    if chars.len() != 4 || chars[3] < '0' || chars[3] > '9' {
        return false;
    }
    let prefix = string_of(&chars, 0, 3);
    assert(lowered_text(prefix@) =~= lowered_text(stem@).take(3));
    same_text_ignoring_case(prefix.as_str(), "COM") || same_text_ignoring_case(
        prefix.as_str(),
        "LPT",
    )
}

pub fn safe_name(name: &str) -> (r: bool)
    ensures
        r == is_safe_name(name@),
{
    let chars = chars_of(name);
    if chars.len() == 0 || byte_len(name) > 200 || chars[0] == '.' || chars[chars.len() - 1] == '.'
        || chars[chars.len() - 1] == ' ' {
        return false;
    }
    for i in 0..chars.len()
        invariant
            chars@ == name@,
            forall|j: int| 0 <= j < i ==> is_name_char(#[trigger] name@[j]),
    {
        let c = chars[i];
        if !word_char(c) && c != '.' && c != '-' && c != '_' && c != ' ' {
            assert(!is_name_char(name@[i as int]));
            return false;
        }
    }
    let stem_text = match crate::text::first_of(&chars, '.') {
        Some(dot) => string_of(&chars, 0, dot),
        None => string_of(&chars, 0, chars.len()),
    };
    assert(stem_text@ =~= stem(name@));
    !reserved(stem_text.as_str())
}

/// The bytes that standard base64 stands for; nothing where the text is not base64.
pub uninterp spec fn base64_bytes(text: Seq<char>) -> Option<Seq<u8>>;

/// `Engine::decode` of `base64` with the standard alphabet and padding. The contract names the bytes.
#[verifier::external_body]
pub(crate) fn decode_base64(text: &str) -> (r: Option<Vec<u8>>)
    ensures
        match r {
            Some(bytes) => base64_bytes(text@) == Some(bytes@),
            None => base64_bytes(text@) is None,
        },
{
    base64::engine::general_purpose::STANDARD.decode(text).ok()
}

/// The standard base64 form of bytes, with padding.
pub uninterp spec fn base64_text(bytes: Seq<u8>) -> Seq<char>;

/// `Engine::encode` of `base64` with the standard alphabet and padding. The contract names the text, from
/// which decoding gives the bytes back.
#[verifier::external_body]
pub(crate) fn encode_base64(bytes: &[u8]) -> (r: String)
    ensures
        r@ == base64_text(bytes@),
        base64_bytes(r@) == Some(bytes@),
{
    base64::engine::general_purpose::STANDARD.encode(bytes)
}

/// The characters that so many bytes take in base64.
pub open spec fn base64_length(bytes: nat) -> nat {
    (bytes + 2) / 3 * 4
}

/// An attachment that is being saved.
pub struct ExportWriter {
    pub active: bool,
    pub maximum: usize,
    pub written: u64,
    pub hasher: sha2::Sha256,
    pub reference: Option<String>,
}

/// The path leads to one of the approved directories.
pub open spec fn is_approved(approved: Seq<String>, root: Seq<char>) -> bool {
    exists|i: int| 0 <= i < approved.len() && steps((#[trigger] approved[i])@) == steps(root)
}

fn allowed(approved: &Vec<String>, root: &str) -> (r: bool)
    ensures
        r == is_approved(approved@, root@),
{
    for i in 0..approved.len()
        invariant
            forall|j: int| 0 <= j < i ==> steps((#[trigger] approved@[j])@) != steps(root@),
    {
        if same_path(approved[i].as_str(), root) {
            return true;
        }
    }
    false
}

/// Why an export cannot start, if it cannot.
pub open spec fn refusal(
    approved: Seq<String>,
    root: Seq<char>,
    name: Seq<char>,
    maximum: usize,
) -> Option<ErrorCode> {
    if !is_approved(approved, root) {
        Some(ErrorCode::PermissionDenied)
    } else if !is_safe_name(name) || maximum == 0 || base64_length(maximum as nat) > usize::MAX {
        Some(ErrorCode::InvalidRequest)
    } else {
        None
    }
}

impl ExportWriter {
    /// The size is one that base64 can carry, and no more than that was written.
    pub open spec fn well_formed(self) -> bool {
        &&& 1 <= self.maximum
        &&& base64_length(self.maximum as nat) <= usize::MAX
        &&& self.written <= self.maximum
        &&& absorbed(self.hasher).len() == self.written
    }

    /// Prepares an export into an approved directory.
    pub fn create(approved: &Vec<String>, root: &str, name: &str, maximum: usize) -> (r: Result<
        Self,
        Error,
    >)
        ensures
            match refusal(approved@, root@, name@, maximum) {
                Some(code) => r matches Err(error) && error.reports(code),
                None => r matches Ok(writer) && writer.well_formed() && writer.active
                    && writer.maximum == maximum && writer.written == 0 && writer.reference is None
                    && absorbed(writer.hasher) == Seq::<u8>::empty(),
            },
    {
        if !allowed(approved, root) {
            return Err(Error::new(ErrorCode::PermissionDenied));
        }
        if !safe_name(name) || maximum == 0 {
            return Err(Error::new(ErrorCode::InvalidRequest));
        }
        let groups: usize = (maximum - 1) / 3 + 1;
        match groups.checked_mul(4) {
            Some(_) => {},
            None => {
                return Err(Error::new(ErrorCode::InvalidRequest));
            },
        }
        Ok(
            ExportWriter { active: true, maximum, written: 0, hasher: start(), reference: None },
        )
    }

    /// The chunk continues what was written: it is the next one of the same attachment.
    pub open spec fn continues(self, chunk: AttachmentChunk) -> bool {
        &&& self.active
        &&& chunk.decoded_offset == self.written
        &&& self.reference matches Some(reference) ==> reference@ == chunk.attachment_reference@
        &&& utf8_len(chunk.bytes_base64@) <= base64_length(self.maximum as nat)
    }

    /// What the bytes of a chunk are, or why they are refused.
    pub open spec fn contents(self, chunk: AttachmentChunk) -> Result<Seq<u8>, ErrorCode> {
        if !self.continues(chunk) {
            Err(ErrorCode::ExportFailed)
        } else {
            match base64_bytes(chunk.bytes_base64@) {
                None => Err(ErrorCode::ExportFailed),
                Some(bytes) => if self.written + bytes.len() > self.maximum {
                    Err(ErrorCode::AttachmentTooLarge)
                } else if bytes.len() == 0 && chunk.progress is Continue {
                    Err(ErrorCode::ExportFailed)
                } else {
                    Ok(bytes)
                },
            }
        }
    }

    /// Whether the chunk continues what was written.
    fn follows(&self, chunk: &AttachmentChunk) -> (r: bool)
        requires
            self.well_formed(),
        ensures
            r == self.continues(*chunk),
    {
        let same_attachment = match &self.reference {
            Some(reference) => same(reference.as_str(), chunk.attachment_reference.as_str()),
            None => true,
        };
        let longest: usize = ((self.maximum - 1) / 3 + 1) * 4;
        self.active && chunk.decoded_offset == self.written && same_attachment && byte_len(
            chunk.bytes_base64.as_str(),
        ) <= longest
    }

    /// What the bytes of a decoded chunk come to.
    pub fn judge(&self, chunk: &AttachmentChunk, decoded: Option<Vec<u8>>) -> (r: Result<
        Vec<u8>,
        Error,
    >)
        requires
            self.well_formed(),
        ensures
            match decoded {
                Some(bytes) if self.continues(*chunk) => if self.written + bytes@.len()
                    > self.maximum {
                    r matches Err(error) && error.reports(ErrorCode::AttachmentTooLarge)
                } else if bytes@.len() == 0 && chunk.progress is Continue {
                    r matches Err(error) && error.reports(ErrorCode::ExportFailed)
                } else {
                    r matches Ok(kept) && kept@ == bytes@
                },
                _ => r matches Err(error) && error.reports(ErrorCode::ExportFailed),
            },
    {
        if !self.follows(chunk) {
            return Err(failed());
        }
        let bytes = match decoded {
            Some(bytes) => bytes,
            None => {
                return Err(failed());
            },
        };
        if bytes.len() as u64 > self.maximum as u64 - self.written {
            return Err(Error::new(ErrorCode::AttachmentTooLarge));
        }
        let more = match &chunk.progress {
            AttachmentProgress::Continue { .. } => true,
            AttachmentProgress::Complete { .. } => false,
        };
        if bytes.len() == 0 && more {
            return Err(failed());
        }
        Ok(bytes)
    }

    /// The bytes of a chunk that are to be written.
    pub fn decode(&self, chunk: &AttachmentChunk) -> (r: Result<Vec<u8>, Error>)
        requires
            self.well_formed(),
        ensures
            match (r, self.contents(*chunk)) {
                (Ok(bytes), Ok(expected)) => bytes@ == expected,
                (Err(error), Err(code)) => error.reports(code),
                _ => false,
            },
    {
        if !self.follows(chunk) {
            return Err(failed());
        }
        self.judge(chunk, decode_base64(chunk.bytes_base64.as_str()))
    }

    /// Notes bytes that were written. The last chunk must state their total and digest.
    pub fn advance(&mut self, chunk: &AttachmentChunk, bytes: &Vec<u8>) -> (r: Result<
        Option<String>,
        Error,
    >)
        requires
            old(self).well_formed(),
            old(self).written + bytes@.len() <= old(self).maximum,
        ensures
            final(self).well_formed(),
            final(self).active == old(self).active,
            final(self).maximum == old(self).maximum,
            final(self).written == old(self).written + bytes@.len(),
            absorbed(final(self).hasher) == absorbed(old(self).hasher) + bytes@,
            match old(self).reference {
                Some(reference) => final(self).reference == Some(reference),
                None => final(self).reference matches Some(reference) && reference@
                    == chunk.attachment_reference@,
            },
            match chunk.progress {
                AttachmentProgress::Continue { .. } => r == Ok::<Option<String>, Error>(None),
                AttachmentProgress::Complete { total_decoded_bytes, sha256: stated } => {
                    let actual = hex_text(sha256(absorbed(old(self).hasher) + bytes@));
                    match r {
                        Ok(digest) => {
                            &&& total_decoded_bytes == final(self).written
                            &&& stated@ == actual
                            &&& digest matches Some(digest)
                            &&& digest@ == actual
                        },
                        Err(error) => error.reports(ErrorCode::ExportFailed) && !(
                        total_decoded_bytes == final(self).written && stated@ == actual),
                    }
                },
            },
    {
        absorb(&mut self.hasher, bytes.as_slice());
        self.written = self.written + bytes.len() as u64;
        if self.reference.is_none() {
            self.reference = Some(chunk.attachment_reference.clone());
        }
        match &chunk.progress {
            AttachmentProgress::Continue { .. } => Ok(None),
            AttachmentProgress::Complete { total_decoded_bytes, sha256 } => {
                let digest = digest_of(&self.hasher);
                let actual = hex(digest.as_slice());
                if *total_decoded_bytes != self.written || !same(sha256.as_str(), actual.as_str()) {
                    return Err(failed());
                }
                Ok(Some(actual))
            },
        }
    }

    /// Ends an export whose file was published.
    pub fn complete(&mut self, path: String, filesystem: String, sha256: String) -> (r: ExportReceipt)
        ensures
            *final(self) == (ExportWriter { active: false, ..*old(self) }),
            r == (ExportReceipt {
                path,
                filesystem,
                total_decoded_bytes: old(self).written,
                sha256,
            }),
    {
        self.active = false;
        ExportReceipt { path, filesystem, total_decoded_bytes: self.written, sha256 }
    }

    /// Ends an export; nothing more is written.
    pub fn abort(&mut self)
        ensures
            *final(self) == (ExportWriter { active: false, ..*old(self) }),
    {
        self.active = false;
    }
}

/// The name of the published file after so many collisions.
pub open spec fn numbered(name: Seq<char>, suffix: u32) -> Seq<char> {
    if suffix == 0 {
        name
    } else {
        name + seq!['-'] + decimal(suffix as nat)
    }
}

pub fn candidate(name: &str, suffix: u32) -> (r: String)
    ensures
        r@ == numbered(name@, suffix),
{
    if suffix == 0 {
        return name.to_owned();
    }
    let mut out = name.to_owned();
    out.push('-');
    let digits = decimal_text(suffix);
    out.push_str(digits.as_str());
    assert(out@ =~= numbered(name@, suffix));
    out
}

/// Every attempt is made with another name.
pub proof fn candidates_differ(name: Seq<char>, some: u32, other: u32)
    requires
        some != other,
    ensures
        numbered(name, some) != numbered(name, other),
{
    decimals_read_back(some as nat);
    decimals_read_back(other as nat);
    let digits = name.len() + 1;
    if some != 0 {
        assert(numbered(name, some).skip(digits as int) =~= decimal(some as nat));
    }
    if other != 0 {
        assert(numbered(name, other).skip(digits as int) =~= decimal(other as nat));
    }
}

/// A directory that exports may go to is named by an absolute path of at most 4,096 bytes that never
/// climbs.
pub open spec fn is_root_path(path: Seq<char>) -> bool {
    &&& path.len() > 0 && path[0] == '/'
    &&& utf8_len(path) <= 4096
    &&& !components(path).contains(".."@)
}

/// The names along the path of a directory that exports go to.
pub fn root_components(root: &str) -> (r: Result<Vec<String>, Error>)
    ensures
        match r {
            Ok(names) => is_root_path(root@) && name_views(names@) == components(root@),
            Err(error) => !is_root_path(root@) && error.reports(ErrorCode::ExportFailed),
        },
{
    let chars = chars_of(root);
    if chars.len() == 0 || chars[0] != '/' || byte_len(root) > 4096 {
        return Err(failed());
    }
    let names = components_of(root);
    for i in 0..names.len()
        invariant
            name_views(names@) == components(root@),
            forall|j: int| 0 <= j < i ==> name_views(names@)[j] != ".."@,
    {
        if same(names[i].as_str(), "..") {
            assert(name_views(names@)[i as int] == ".."@);
            return Err(failed());
        }
    }
    Ok(names)
}

/// Accepts a directory that belongs to the user and that nobody else can use.
pub fn check_root(owner: u32, mode: u32, uid: u32) -> (r: Result<(), Error>)
    ensures
        match r {
            Ok(()) => owner == uid && mode & 0o077 == 0,
            Err(error) => !(owner == uid && mode & 0o077 == 0) && error.reports(
                ErrorCode::ExportFailed,
            ),
        },
{
    if owner != uid || mode & 0o077 != 0 {
        return Err(failed());
    }
    Ok(())
}

/// What identifies a file on a system.
#[derive(Clone, Copy, Debug, PartialEq, Eq, Structural)]
pub struct FileIdentity {
    pub device: i64,
    pub inode: u64,
}

/// What the system says of a published file.
#[derive(Clone, Copy, Debug, PartialEq, Eq, Structural)]
pub struct Published {
    pub mode: u32,
    pub owner: u32,
    pub links: u64,
    pub size: i64,
}

/// The directory is still the one that was opened, and the temporary file the one that was written.
pub fn check_unmoved(
    held: FileIdentity,
    now: FileIdentity,
    file: FileIdentity,
    named: FileIdentity,
    links: u64,
) -> (r: Result<(), Error>)
    ensures
        match r {
            Ok(()) => held == now && file == named && links == 1,
            Err(error) => error.reports(ErrorCode::ExportFailed) && !(held == now && file == named
                && links == 1),
        },
{
    if held != now || file != named || links != 1 {
        return Err(failed());
    }
    Ok(())
}

/// The published file is private, belongs to the owner of the directory, and has the size that was written.
pub fn check_published(published: Published, owner: u32, size: i64) -> (r: Result<(), Error>)
    ensures
        match r {
            Ok(()) => published.mode & 0o777 == 0o600 && published.owner == owner && published.links
                == 1 && published.size == size,
            Err(error) => error.reports(ErrorCode::ExportFailed) && !(published.mode & 0o777 == 0o600
                && published.owner == owner && published.links == 1 && published.size == size),
        },
{
    if published.mode & 0o777 != 0o600 || published.owner != owner || published.links != 1
        || published.size != size {
        return Err(failed());
    }
    Ok(())
}

/// What became of an attempt to give the file one of its names.
#[derive(Clone, Copy, Debug, PartialEq, Eq, Structural)]
pub enum Naming {
    Named,
    Taken,
    Failed,
}

/// The most names that are tried.
pub const CANDIDATES: u32 = 1000;

/// What is done after an attempt: verify the file, try the next name, or give up.
pub fn after_naming(suffix: u32, naming: Naming) -> (r: Result<Option<u32>, Error>)
    ensures
        match naming {
            Naming::Named => r == Ok::<Option<u32>, Error>(None),
            Naming::Taken if suffix + 1 < CANDIDATES => r == Ok::<Option<u32>, Error>(
                Some((suffix + 1) as u32),
            ),
            _ => r matches Err(error) && error.reports(ErrorCode::ExportFailed),
        },
{
    match naming {
        Naming::Named => Ok(None),
        Naming::Taken => if suffix < CANDIDATES - 1 {
            Ok(Some(suffix + 1))
        } else {
            Err(failed())
        },
        Naming::Failed => Err(failed()),
    }
}

/// What stands at the name of the temporary file when it is removed.
#[derive(Clone, Copy, Debug, PartialEq, Eq, Structural)]
pub enum PartialFile {
    Gone,
    Found(FileIdentity),
    Unreadable,
}

/// Whether the temporary file is to be unlinked: only the very file that was written is.
pub fn removal(found: PartialFile, held: Option<FileIdentity>) -> (r: Result<bool, Error>)
    ensures
        match (found, held) {
            (PartialFile::Gone, _) => r == Ok::<bool, Error>(false),
            (PartialFile::Found(named), Some(held)) if named == held => r == Ok::<bool, Error>(true),
            _ => r matches Err(error) && error.reports(ErrorCode::ExportCleanupFailed),
        },
{
    match found {
        PartialFile::Gone => Ok(false),
        PartialFile::Found(named) => match held {
            Some(held) => if named == held {
                Ok(true)
            } else {
                Err(cleanup_failed())
            },
            None => Err(cleanup_failed()),
        },
        PartialFile::Unreadable => Err(cleanup_failed()),
    }
}

/// The outcome of breaking off: a file that was named but not reported outweighs the cleanup.
pub fn abort_outcome(cleanup: Result<(), Error>, unreported_destination: bool) -> (r: Result<(), Error>)
    ensures
        if unreported_destination {
            r matches Err(error) && error.reports(ErrorCode::ExportFinalizationFailed)
        } else {
            r == cleanup
        },
{
    if unreported_destination {
        Err(Error::new(ErrorCode::ExportFinalizationFailed))
    } else {
        cleanup
    }
}

/// Names that devices go by are reserved, in upper or lower case: the console, the printer, the auxiliary
/// and the null device, and the numbered serial and parallel ports.
pub proof fn device_names_are_reserved(name: Seq<char>)
    ensures
        lowered_text(name) == "con"@ || lowered_text(name) == "prn"@ || lowered_text(name) == "aux"@ || lowered_text(
            name,
        ) == "nul"@ ==> is_reserved(name),
        name.len() == 4 && '0' <= name[3] <= '9' && (lowered_text(name.take(3)) == "com"@ || lowered_text(name.take(3))
            == "lpt"@) ==> is_reserved(name),
        is_reserved(name) ==> name.len() == 3 || name.len() == 4,
        is_reserved(name) && name.len() == 4 ==> '0' <= name[3] <= '9',
        is_reserved(name) && name.len() == 3 ==> lowered_text(name) == "con"@ || lowered_text(name) == "prn"@
            || lowered_text(name) == "aux"@ || lowered_text(name) == "nul"@,
        is_reserved(name) && name.len() == 4 ==> lowered_text(name.take(3)) == "com"@ || lowered_text(name.take(3))
            == "lpt"@,
{
    reveal_strlit("con");
    reveal_strlit("prn");
    reveal_strlit("aux");
    reveal_strlit("nul");
    reveal_strlit("com");
    reveal_strlit("lpt");
    reveal_strlit("CON");
    reveal_strlit("PRN");
    reveal_strlit("AUX");
    reveal_strlit("NUL");
    reveal_strlit("COM");
    reveal_strlit("LPT");
    assert(lowered_text("CON"@) =~= "con"@);
    assert(lowered_text("PRN"@) =~= "prn"@);
    assert(lowered_text("AUX"@) =~= "aux"@);
    assert(lowered_text("NUL"@) =~= "nul"@);
    assert(lowered_text("COM"@) =~= "com"@);
    assert(lowered_text("LPT"@) =~= "lpt"@);
    if name.len() == 4 {
        assert(lowered_text(name).take(3) =~= lowered_text(name.take(3)));
    }
    assert(lowered_text(name).len() == name.len());
}

/// A file name is refused where it is empty, too long, hidden, ends in a dot or a space, holds a character
/// that names do not have, or is that of a device up to its first dot; every other one is accepted.
pub proof fn file_names_are_plain(name: Seq<char>, rest: Seq<char>)
    ensures
        is_safe_name(name) <==> {
            &&& name.len() != 0 && utf8_len(name) <= 200
            &&& !(name[0] == '.' || name.last() == '.' || name.last() == ' ')
            &&& forall|i: int|
                0 <= i < name.len() ==> is_word_char(#[trigger] name[i]) || name[i] == '.' || name[i] == '-'
                    || name[i] == '_' || name[i] == ' '
            &&& !is_reserved(stem(name))
        },
        !name.contains('.') ==> stem(name) == name && stem(name + seq!['.'] + rest) == name,
{
    if is_safe_name(name) {
        assert forall|i: int| 0 <= i < name.len() implies is_word_char(#[trigger] name[i]) || name[i] == '.'
            || name[i] == '-' || name[i] == '_' || name[i] == ' ' by {
            assert(is_name_char(name[i]));
        }
    }
    if !name.contains('.') {
        let longer = name + seq!['.'] + rest;
        name.index_of_first_ensures('.');
        longer.index_of_first_ensures('.');
        assert(longer[name.len() as int] == '.');
        assert(longer.contains('.'));
        let dot = longer.index_of_first('.')->0;
        if dot < name.len() {
            assert(longer[dot] == name[dot]);
        }
        assert(longer.take(name.len() as int) =~= name);
    }
}

/// A file is written only below an approved directory, under a safe name, and with room for something.
pub proof fn exports_need_approval(approved: Seq<String>, root: Seq<char>, name: Seq<char>, maximum: usize)
    ensures
        refusal(approved, root, name, maximum) == Some(ErrorCode::PermissionDenied) <==> forall|i: int|
            0 <= i < approved.len() ==> steps((#[trigger] approved[i])@) != steps(root),
        refusal(approved, root, name, maximum) is None ==> is_safe_name(name) && maximum > 0,
        is_approved(approved, root) && is_safe_name(name) && 0 < maximum && 4 * ((maximum + 2) / 3) <= usize::MAX
            ==> refusal(approved, root, name, maximum) is None,
        approved.len() == 0 ==> refusal(approved, root, name, maximum) is Some,
{
}

/// Bytes in base64 take four letters for every three bytes begun.
pub proof fn base64_takes_four_letters_for_three(octets: Seq<u8>)
    ensures
        base64_length(octets.len()) == base64_form(octets).len(),
    decreases octets.len(),
{
    if octets.len() >= 3 {
        base64_takes_four_letters_for_three(octets.skip(3));
        let n = octets.len() as int;
        assert((n + 2) / 3 == (n - 3 + 2) / 3 + 1);
    }
}

/// A piece is written exactly where it is the next one of the same attachment, its contents can be read
/// and fit, and it brings something unless it is the last.
pub proof fn pieces_are_written_in_turn(writer: ExportWriter, chunk: AttachmentChunk)
    ensures
        match writer.contents(chunk) {
            Ok(bytes) => {
                &&& writer.active && chunk.decoded_offset == writer.written
                &&& base64_bytes(chunk.bytes_base64@) == Some(bytes)
                &&& writer.written + bytes.len() <= writer.maximum
                &&& bytes.len() > 0 || !(chunk.progress is Continue)
                &&& writer.reference matches Some(reference) ==> reference@ == chunk.attachment_reference@
            },
            Err(error) => {
                &&& error == ErrorCode::ExportFailed || error == ErrorCode::AttachmentTooLarge
                &&& error == ErrorCode::AttachmentTooLarge <==> writer.continues(chunk) && (base64_bytes(
                    chunk.bytes_base64@,
                ) matches Some(bytes) && writer.written + bytes.len() > writer.maximum)
            },
        },
        !writer.active || chunk.decoded_offset != writer.written ==> writer.contents(chunk) is Err,
{
}

/// A directory for files is the user's own and closed to everybody else.
pub proof fn directories_for_files_are_private(owner: u32, mode: u32, uid: u32, r: Result<(), Error>)
    requires
        call_ensures(check_root, (owner, mode, uid), r),
    ensures
        r is Ok <==> owner == uid && mode & 0o070 == 0 && mode & 0o007 == 0,
        r matches Err(error) ==> error.code is ExportFailed,
{
    assert((mode & 0o077 == 0) == (mode & 0o070 == 0 && mode & 0o007 == 0)) by (bit_vector);
}

/// A file is in place where its directory and its name are still those that were opened, and nothing else
/// names it.
pub proof fn files_stay_in_place(
    held: FileIdentity,
    now: FileIdentity,
    file: FileIdentity,
    named: FileIdentity,
    links: u64,
    r: Result<(), Error>,
)
    requires
        call_ensures(check_unmoved, (held, now, file, named, links), r),
    ensures
        held != now || file != named || links != 1 ==> r is Err,
        held == now && file == named && links == 1 ==> r is Ok,
{
}

/// A published file is the user's own to read and write and nobody else's, has one name, and is as long as
/// what was written.
pub proof fn published_files_are_private(published: Published, owner: u32, size: i64, r: Result<(), Error>)
    requires
        call_ensures(check_published, (published, owner, size), r),
    ensures
        r is Ok ==> published.owner == owner && published.links == 1 && published.size == size,
        r is Ok ==> published.mode & 0o077 == 0 && published.mode & 0o700 == 0o600,
        published.owner != owner || published.links != 1 || published.size != size ==> r is Err,
        published.mode & 0o777 == 0o600 && published.owner == owner && published.links == 1 && published.size == size
            ==> r is Ok,
{
    let mode = published.mode;
    assert(mode & 0o777 == 0o600 ==> mode & 0o077 == 0 && mode & 0o700 == 0o600) by (bit_vector);
}

/// Names are tried one after the other until one is free or all were tried.
pub proof fn names_are_tried_in_turn(suffix: u32, naming: Naming, r: Result<Option<u32>, Error>)
    requires
        call_ensures(after_naming, (suffix, naming), r),
    ensures
        naming is Named ==> r == Ok::<Option<u32>, Error>(None),
        r matches Ok(Some(next)) ==> naming is Taken && next == suffix + 1 && next < CANDIDATES,
        naming is Taken && suffix + 1 >= CANDIDATES ==> r is Err,
        !(naming is Named) && !(naming is Taken) ==> r is Err,
{
}

/// Only the file that was made is removed: what is gone needs no removal, and what is another file is left
/// alone.
pub proof fn only_the_own_file_is_removed(found: PartialFile, held: Option<FileIdentity>, r: Result<bool, Error>)
    requires
        call_ensures(removal, (found, held), r),
    ensures
        r == Ok::<bool, Error>(true) ==> (found matches PartialFile::Found(named) && held == Some(named)),
        r == Ok::<bool, Error>(false) ==> found is Gone,
        found is Gone ==> r is Ok,
        found matches PartialFile::Found(named) ==> held != Some(named) ==> r is Err,
{
}

/// A file whose place was not told is reported as such, whatever its removal came to.
pub proof fn untold_places_are_reported(cleanup: Result<(), Error>, unreported: bool, r: Result<(), Error>)
    requires
        call_ensures(abort_outcome, (cleanup, unreported), r),
    ensures
        unreported ==> (r matches Err(error) && error.code is ExportFinalizationFailed),
        !unreported ==> r == cleanup,
{
}

/// The first name that is tried is the one that was asked for, and every other is that name with a hyphen
/// and a number behind it.
pub proof fn candidates_are_numbered(name: Seq<char>, suffix: u32)
    ensures
        numbered(name, 0) == name,
        suffix > 0 ==> numbered(name, suffix).take(name.len() as int) == name && numbered(name, suffix)[name.len() as int]
            == '-' && numbered(name, suffix).skip(name.len() + 1int) == decimal(suffix as nat),
{
    if suffix > 0 {
        let whole = numbered(name, suffix);
        assert(whole.take(name.len() as int) =~= name);
        assert(whole.skip(name.len() + 1int) =~= decimal(suffix as nat));
    }
}

} // verus!
