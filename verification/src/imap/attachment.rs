//! Bounded attachment transfer ownership and verified IMAP retrieval.
use vstd::prelude::*;

use super::body::selection::{imap_text, is_called, nth_path, part_at, server_text};
use super::endpoint::AuthenticatedConnection;
use super::fetch::Fetch;
use super::mime::{
    attachment, child_path, is_attachment, is_bounded, part_count, part_name, part_text,
    parts_count, validate_structure,
};
use super::types::{same_path, Body, BodyKind, Disposition, Item, Parameter, Section, Structure};
use super::{mailbox, mailbox_verdict, Error, Limits, Metrics};
use crate::config;
use crate::digest::sha256;
use crate::text::{
    are_digits, byte_len, chars_of, control, decimal, decimals_read_back, is_control, lower_text,
    lowered_text, number_of, same_bytes, same_text_ignoring_case, spelled, text_of, trim, trimmed,
    utf8_len,
};

pub mod decoder;

use decoder::{
    base64_form, base64_reads_back, escaped_form, plain_octets_are_kept, pushed,
    quoted_printable_reads_back, stands_for, stops, Decoder, Decoding, TransferEncoding,
    WIRE_SLICE_BYTES,
};

verus! {

/// A metadata-only attachment locator. Its part identifier is safe to retain in a message reference;
/// it is not a transfer credential.
#[derive(Clone, Copy, Debug, PartialEq, Eq, Structural)]
pub struct AttachmentListRequest {
    pub uid: u32,
    pub uid_validity: u32,
}

impl AttachmentListRequest {
    pub fn new(uid: u32, uid_validity: u32) -> (r: Self)
        ensures
            r.uid == uid,
            r.uid_validity == uid_validity,
    {
        AttachmentListRequest { uid, uid_validity }
    }

    /// Accepts the request for a mailbox under its limits.
    pub fn check(&self, name: &str, limits: &Limits) -> (r: Result<(), Error>)
        ensures
            r == (if !limits.valid() {
                Err::<(), Error>(Error::InvalidInput)
            } else if mailbox_verdict(name@) is Err {
                mailbox_verdict(name@)
            } else if self.uid == 0 || self.uid_validity == 0 {
                Err(Error::InvalidInput)
            } else {
                Ok(())
            }),
    {
        match limits.validate() {
            Ok(()) => {},
            Err(error) => {
                return Err(error);
            },
        }
        match mailbox(name) {
            Ok(()) => {},
            Err(error) => {
                return Err(error);
            },
        }
        if self.uid == 0 || self.uid_validity == 0 {
            return Err(Error::InvalidInput);
        }
        Ok(())
    }

    /// The read that describes the message, once its mailbox is selected.
    pub fn selected(&self, uid_validity: u32) -> (r: Result<Fetch, Error>)
        ensures
            r == (if uid_validity == self.uid_validity {
                Ok::<Fetch, Error>(Fetch::Metadata { uid: self.uid })
            } else {
                Err(Error::StaleReference)
            }),
    {
        if uid_validity != self.uid_validity {
            return Err(Error::StaleReference);
        }
        Ok(Fetch::Metadata { uid: self.uid })
    }
}

#[derive(Debug, PartialEq, Eq)]
pub struct AttachmentMetadata {
    pub part: String,
    pub filename: Option<String>,
    pub media_type: String,
    /// The transfer-encoded size reported by BODYSTRUCTURE, when the server supplied one.
    pub declared_size: Option<u64>,
    pub available: bool,
}

#[derive(Clone, Copy, Debug)]
pub struct AttachmentIntegrity {
    pub total_decoded_bytes: u64,
    pub sha256: [u8; 32],
}

/// One decoded page. Only a completed page carries its final byte count and digest.
#[derive(Debug)]
pub struct AttachmentData {
    pub bytes: Vec<u8>,
    pub decoded_offset: u64,
    pub integrity: Option<AttachmentIntegrity>,
}

impl Limits {
    /// The IMAP limits under which attachments are read.
    pub fn attachment(limits: &config::Limits) -> (r: Limits)
        ensures
            r == (Limits {
                max_header_bytes: limits.header_bytes,
                max_nesting: limits.mime_depth,
                max_mime_parts: limits.mime_parts,
                max_attachment_wire_bytes: limits.attachment_wire_bytes,
                max_attachment_decoded_bytes: limits.attachment_decoded_bytes,
                max_attachment_chunk_bytes: limits.attachment_chunk_bytes,
                max_operation_bytes: limits.wire_fetch_bytes,
                ..Limits::standard()
            }),
    {
        let mut out = Limits::default();
        out.max_header_bytes = limits.header_bytes;
        out.max_nesting = limits.mime_depth;
        out.max_mime_parts = limits.mime_parts;
        out.max_attachment_wire_bytes = limits.attachment_wire_bytes;
        out.max_attachment_decoded_bytes = limits.attachment_decoded_bytes;
        out.max_attachment_chunk_bytes = limits.attachment_chunk_bytes;
        out.max_operation_bytes = limits.wire_fetch_bytes;
        out
    }
}

/// The pieces of a text between its dots.
pub open spec fn segments(s: Seq<char>) -> Seq<Seq<char>>
    decreases s.len(),
{
    if s.len() == 0 {
        seq![Seq::empty()]
    } else {
        let before = segments(s.drop_last());
        if s.last() == '.' {
            before.push(Seq::empty())
        } else {
            before.update(before.len() - 1, before.last().push(s.last()))
        }
    }
}

proof fn some_segment(s: Seq<char>)
    ensures
        segments(s).len() >= 1,
    decreases s.len(),
{
    if s.len() > 0 {
        some_segment(s.drop_last());
    }
}

/// The positive number that a piece of a part identifier stands for.
pub open spec fn segment_number(segment: Seq<char>) -> Option<u32> {
    if are_digits(segment) && segment.len() <= 10 && 1 <= number_of(segment) <= u32::MAX {
        Some(number_of(segment) as u32)
    } else {
        None
    }
}

/// The path of the first `count` pieces.
pub open spec fn segments_path(pieces: Seq<Seq<char>>, count: int, limits: Limits) -> Result<
    Seq<u32>,
    Error,
>
    decreases count,
{
    if count <= 0 {
        Ok(Seq::empty())
    } else {
        match segments_path(pieces, count - 1, limits) {
            Err(error) => Err(error),
            Ok(before) => match segment_number(pieces[count - 1]) {
                None => Err(Error::InvalidInput),
                Some(number) => if before.len() + 1 > limits.max_nesting {
                    Err(Error::Limit)
                } else {
                    Ok(before.push(number))
                },
            },
        }
    }
}

/// The path that a part identifier names.
pub open spec fn part_path(part: Seq<char>, limits: Limits) -> Result<Seq<u32>, Error> {
    if part.len() == 0 || utf8_len(part) > limits.max_nesting * 11 {
        Err(Error::InvalidInput)
    } else {
        segments_path(segments(part), segments(part).len() as int, limits)
    }
}

proof fn path_failure_stays(pieces: Seq<Seq<char>>, few: int, many: int, limits: Limits)
    requires
        0 <= few <= many,
        segments_path(pieces, few, limits) is Err,
    ensures
        segments_path(pieces, many, limits) == segments_path(pieces, few, limits),
    decreases many,
{
    if few < many {
        path_failure_stays(pieces, few, many - 1, limits);
    }
}

fn parse_segment(segment: &Vec<char>) -> (r: Option<u32>)
    ensures
        r == segment_number(segment@),
{
    if segment.len() == 0 || segment.len() > 10 {
        return None;
    }
    let mut value: u64 = 0;
    let mut bound: u64 = 1;
    let mut i: usize = 0;
    proof {
        assert(segment@.take(0) =~= Seq::<char>::empty());
        reveal(vstd::arithmetic::power::pow);
    }
    while i < segment.len()
        invariant
            i <= segment@.len() <= 10,
            0 < segment@.len(),
            forall|j: int| 0 <= j < i ==> '0' <= #[trigger] segment@[j] <= '9',
            value == number_of(segment@.take(i as int)),
            value < bound,
            bound == vstd::arithmetic::power::pow(10, i as nat),
            bound <= 10_000_000_000,
        decreases segment@.len() - i,
    {
        let c = segment[i];
        if !('0' <= c && c <= '9') {
            assert(!are_digits(segment@));
            return None;
        }
        proof {
            let now = segment@.take(i + 1);
            assert(now.drop_last() =~= segment@.take(i as int));
            reveal(vstd::arithmetic::power::pow);
            vstd::arithmetic::power::lemma_pow_increases(10, (i + 1) as nat, 10);
            assert(vstd::arithmetic::power::pow(10, 10) == 10_000_000_000) by {
                reveal_with_fuel(vstd::arithmetic::power::pow, 12);
            }
        }
        value = value * 10 + (c as u32 - 0x30) as u64;
        bound = bound * 10;
        i = i + 1;
    }
    assert(segment@.take(segment@.len() as int) =~= segment@);
    if value == 0 || value > 0xffff_ffff {
        return None;
    }
    Some(value as u32)
}

pub open spec fn piece_views(pieces: Seq<Vec<char>>) -> Seq<Seq<char>> {
    pieces.map_values(|piece: Vec<char>| piece@)
}

fn split_dots(text: &str) -> (r: Vec<Vec<char>>)
    ensures
        piece_views(r@) == segments(text@),
{
    let chars = chars_of(text);
    let mut pieces: Vec<Vec<char>> = Vec::new();
    let mut open: Vec<char> = Vec::new();
    let mut i: usize = 0;
    assert(text@.take(0) =~= Seq::<char>::empty());
    assert(piece_views(pieces@).push(open@) =~= segments(text@.take(0)));
    while i < chars.len()
        invariant
            chars@ == text@,
            i <= chars@.len(),
            piece_views(pieces@).push(open@) == segments(text@.take(i as int)),
        decreases chars@.len() - i,
    {
        let ghost before = piece_views(pieces@);
        let ghost old_open = open@;
        assert(text@.take(i + 1).drop_last() =~= text@.take(i as int));
        if chars[i] == '.' {
            let mut next: Vec<char> = Vec::new();
            core::mem::swap(&mut next, &mut open);
            pieces.push(next);
            assert(piece_views(pieces@) =~= before.push(old_open));
            assert(open@ =~= Seq::<char>::empty());
        } else {
            open.push(chars[i]);
        }
        assert(piece_views(pieces@).push(open@) =~= segments(text@.take(i + 1)));
        i = i + 1;
    }
    assert(text@.take(text@.len() as int) =~= text@);
    let ghost before = piece_views(pieces@);
    let ghost last = open@;
    pieces.push(open);
    assert(piece_views(pieces@) =~= before.push(last));
    pieces
}

pub fn parse_part(part: &str, limits: &Limits) -> (r: Result<Vec<u32>, Error>)
    requires
        limits.max_nesting * 11 <= usize::MAX,
    ensures
        match r {
            Ok(path) => part_path(part@, *limits) == Ok::<Seq<u32>, Error>(path@),
            Err(error) => part_path(part@, *limits) == Err::<Seq<u32>, Error>(error),
        },
{
    if part.is_empty() || byte_len(part) > limits.max_nesting * 11 {
        return Err(Error::InvalidInput);
    }
    let pieces = split_dots(part);
    let ghost views = segments(part@);
    let mut path: Vec<u32> = Vec::new();
    assert(path@ =~= Seq::<u32>::empty());
    let mut i: usize = 0;
    while i < pieces.len()
        invariant
            i <= pieces@.len(),
            part@.len() > 0,
            utf8_len(part@) <= limits.max_nesting * 11,
            views == segments(part@),
            piece_views(pieces@) == views,
            path@.len() <= limits.max_nesting,
            segments_path(views, i as int, *limits) == Ok::<Seq<u32>, Error>(path@),
        decreases pieces@.len() - i,
    {
        assert(views[i as int] == pieces@[i as int]@);
        match parse_segment(&pieces[i]) {
            None => {
                proof {
                    path_failure_stays(views, i + 1, views.len() as int, *limits);
                }
                return Err(Error::InvalidInput);
            },
            Some(number) => {
                if path.len() >= limits.max_nesting {
                    proof {
                        path_failure_stays(views, i + 1, views.len() as int, *limits);
                    }
                    return Err(Error::Limit);
                }
                path.push(number);
            },
        }
        i = i + 1;
    }
    Ok(path)
}

/// A path that names a part.
pub open spec fn is_part(path: Seq<u32>, limits: Limits) -> bool {
    &&& 0 < path.len() <= limits.max_nesting
    &&& forall|i: int| 0 <= i < path.len() ==> #[trigger] path[i] > 0
}

proof fn segments_of_more(s: Seq<char>, digits: Seq<char>)
    requires
        forall|i: int| 0 <= i < digits.len() ==> #[trigger] digits[i] != '.',
    ensures
        segments(s + digits) == segments(s).update(
            segments(s).len() - 1,
            segments(s).last() + digits,
        ),
    decreases digits.len(),
{
    some_segment(s);
    if digits.len() == 0 {
        assert(s + digits =~= s);
        assert(segments(s).last() + digits =~= segments(s).last());
        assert(segments(s).update(segments(s).len() - 1, segments(s).last()) =~= segments(s));
    } else {
        segments_of_more(s, digits.drop_last());
        assert((s + digits).drop_last() =~= s + digits.drop_last());
        assert((s + digits).last() == digits.last());
        assert((segments(s).last() + digits.drop_last()).push(digits.last()) =~= segments(s).last()
            + digits);
        assert(segments(s + digits) =~= segments(s).update(
            segments(s).len() - 1,
            segments(s).last() + digits,
        ));
    }
}

proof fn digits_have_no_dot(value: nat)
    ensures
        forall|i: int| 0 <= i < decimal(value).len() ==> #[trigger] decimal(value)[i] != '.',
{
    decimals_read_back(value);
}

proof fn segments_of_part(path: Seq<u32>)
    requires
        path.len() > 0,
    ensures
        segments(part_text(path)) == Seq::new(path.len(), |i: int| decimal(path[i] as nat)),
    decreases path.len(),
{
    let number = decimal(path.last() as nat);
    digits_have_no_dot(path.last() as nat);
    if path.len() == 1 {
        segments_of_more(Seq::empty(), number);
        assert(Seq::<char>::empty() + number =~= number);
        assert(segments(Seq::<char>::empty()) =~= seq![Seq::<char>::empty()]);
        assert(segments(part_text(path)) =~= Seq::new(
            path.len(),
            |i: int| decimal(path[i] as nat),
        ));
    } else {
        segments_of_part(path.drop_last());
        let before = part_text(path.drop_last());
        let dotted = before.push('.');
        assert(dotted.drop_last() =~= before);
        assert(segments(dotted) =~= segments(before).push(Seq::empty()));
        segments_of_more(dotted, number);
        assert(Seq::<char>::empty() + number =~= number);
        assert(segments(part_text(path)) =~= Seq::new(
            path.len(),
            |i: int| decimal(path[i] as nat),
        ));
    }
}

proof fn short_decimal(value: nat, digits: nat)
    requires
        value < vstd::arithmetic::power::pow(10, digits),
        digits > 0,
    ensures
        decimal(value).len() <= digits,
        vstd::utf8::encode_utf8(decimal(value)).len() == decimal(value).len(),
    decreases digits,
{
    reveal(vstd::arithmetic::power::pow);
    decimals_read_back(value);
    vstd::utf8::is_ascii_chars_encode_utf8(decimal(value));
    if value >= 10 {
        assert(value / 10 < vstd::arithmetic::power::pow(10, (digits - 1) as nat));
        if digits == 1 {
            assert(vstd::arithmetic::power::pow(10, 1) == 10) by {
                reveal_with_fuel(vstd::arithmetic::power::pow, 3);
            }
        } else {
            short_decimal(value / 10, (digits - 1) as nat);
        }
    }
}

proof fn path_reads_back(path: Seq<u32>, count: int, limits: Limits)
    requires
        is_part(path, limits),
        0 <= count <= path.len(),
    ensures
        segments_path(Seq::new(path.len(), |i: int| decimal(path[i] as nat)), count, limits) == Ok::<
            Seq<u32>,
            Error,
        >(path.take(count)),
    decreases count,
{
    let pieces = Seq::new(path.len(), |i: int| decimal(path[i] as nat));
    if count > 0 {
        path_reads_back(path, count - 1, limits);
        let value = path[count - 1] as nat;
        assert(pieces[count - 1] == decimal(value));
        decimals_read_back(value);
        assert(vstd::arithmetic::power::pow(10, 10) == 10_000_000_000) by {
            reveal_with_fuel(vstd::arithmetic::power::pow, 12);
        }
        short_decimal(value, 10);
        assert(path.take(count) =~= path.take(count - 1).push(path[count - 1]));
    } else {
        assert(path.take(0) =~= Seq::<u32>::empty());
    }
}

proof fn part_text_is_short(path: Seq<u32>)
    requires
        path.len() > 0,
    ensures
        0 < part_text(path).len() <= path.len() * 11,
        vstd::utf8::is_ascii_chars(part_text(path)),
    decreases path.len(),
{
    let value = path.last() as nat;
    assert(vstd::arithmetic::power::pow(10, 10) == 10_000_000_000) by {
        reveal_with_fuel(vstd::arithmetic::power::pow, 12);
    }
    short_decimal(value, 10);
    decimals_read_back(value);
    if path.len() > 1 {
        part_text_is_short(path.drop_last());
    }
}

/// A part identifier that was handed out is accepted again, and names the same part.
pub proof fn part_names_read_back(path: Seq<u32>, limits: Limits)
    requires
        is_part(path, limits),
    ensures
        part_path(part_text(path), limits) == Ok::<Seq<u32>, Error>(path),
{
    segments_of_part(path);
    path_reads_back(path, path.len() as int, limits);
    assert(path.take(path.len() as int) =~= path);
    part_text_is_short(path);
    vstd::utf8::is_ascii_chars_encode_utf8(part_text(path));
    assert(path.len() * 11 <= limits.max_nesting * 11);
}

/// A character that reorders the text around it.
pub open spec fn is_direction_mark(c: char) -> bool {
    let code = c as u32;
    ||| code == 0x061c
    ||| code == 0x200e
    ||| code == 0x200f
    ||| 0x202a <= code <= 0x202e
    ||| 0x2066 <= code <= 0x2069
}

/// A file name that can be shown: not empty, at most 256 characters, and free of controls and of
/// characters that reorder text.
pub open spec fn is_safe_filename(name: Seq<char>) -> bool {
    &&& 0 < name.len() <= 256
    &&& forall|i: int|
        0 <= i < name.len() ==> !is_control(#[trigger] name[i]) && !is_direction_mark(name[i])
}

pub fn safe_filename(value: &str) -> (r: Option<String>)
    ensures
        match r {
            Some(name) => name@ == trimmed(value@) && is_safe_filename(name@),
            None => !is_safe_filename(trimmed(value@)),
        },
{
    let name = trim(value);
    let chars = chars_of(name.as_str());
    if chars.len() == 0 || chars.len() > 256 {
        return None;
    }
    for i in 0..chars.len()
        invariant
            chars@ == name@,
            name@ == trimmed(value@),
            forall|j: int|
                0 <= j < i ==> !is_control(#[trigger] name@[j]) && !is_direction_mark(name@[j]),
    {
        let code: u32 = chars[i] as u32;
        if control(chars[i]) || code == 0x061c || code == 0x200e || code == 0x200f || (0x202a <= code
            && code <= 0x202e) || (0x2066 <= code && code <= 0x2069) {
            assert(is_control(name@[i as int]) || is_direction_mark(name@[i as int]));
            return None;
        }
    }
    Some(name)
}

/// An attachment of a message, and how it is encoded.
#[derive(Debug)]
pub struct AttachmentDefinition {
    pub part: Vec<u32>,
    pub filename: Option<String>,
    pub media_type: String,
    pub declared_size: Option<u64>,
    pub encoding: Option<TransferEncoding>,
}

/// An attachment as plain values.
pub struct Offer {
    pub part: Seq<u32>,
    pub filename: Option<Seq<char>>,
    pub media_type: Seq<char>,
    pub declared_size: Option<u64>,
    pub encoding: Option<TransferEncoding>,
}

pub open spec fn seen(text: Option<String>) -> Option<Seq<char>> {
    match text {
        Some(text) => Some(text@),
        None => None,
    }
}

impl View for AttachmentDefinition {
    type V = Offer;

    open spec fn view(&self) -> Offer {
        Offer {
            part: self.part@,
            filename: seen(self.filename),
            media_type: self.media_type@,
            declared_size: self.declared_size,
            encoding: self.encoding,
        }
    }
}

/// The value of the first parameter from `i` on that is called `filename`.
pub open spec fn filename_parameter(parameters: Seq<Parameter>, i: int) -> Option<Seq<u8>>
    decreases parameters.len() - i,
{
    if i < 0 || i >= parameters.len() {
        None
    } else if spelled(parameters[i].0@) matches Some(name) && lowered_text(name) == lowered_text(
        "filename"@,
    ) {
        Some(parameters[i].1@)
    } else {
        filename_parameter(parameters, i + 1)
    }
}

/// The file name under which the part is offered, where it can be shown.
pub open spec fn offered_filename(disposition: Option<Disposition>) -> Option<Seq<char>> {
    match disposition {
        None => None,
        Some(disposition) => match filename_parameter(disposition.parameters@, 0) {
            None => None,
            Some(value) => match spelled(value) {
                None => None,
                Some(text) => if is_safe_filename(trimmed(text)) {
                    Some(trimmed(text))
                } else {
                    None
                },
            },
        },
    }
}

fn filename(disposition: &Option<Disposition>) -> (r: Option<String>)
    ensures
        seen(r) == offered_filename(*disposition),
{
    match disposition {
        None => None,
        Some(shown) => {
            let parameters = &shown.parameters;
            let mut i: usize = 0;
            while i < parameters.len()
                invariant
                    i <= parameters@.len(),
                    parameters@ == shown.parameters@,
                    *disposition == Some(*shown),
                    filename_parameter(parameters@, i as int) == filename_parameter(parameters@, 0),
                decreases parameters@.len() - i,
            {
                let found = match text_of(parameters[i].0.as_slice()) {
                    Some(name) => same_text_ignoring_case(name.as_str(), "filename"),
                    None => false,
                };
                if found {
                    return match text_of(parameters[i].1.as_slice()) {
                        Some(text) => safe_filename(text.as_str()),
                        None => None,
                    };
                }
                i = i + 1;
            }
            None
        },
    }
}

/// The media type of a part, before its letters are lowered.
pub open spec fn media_text(kind: BodyKind) -> Result<Seq<char>, Error> {
    match kind {
        BodyKind::Basic { kind, subtype } => match server_text(kind@) {
            Err(error) => Err(error),
            Ok(kind) => match server_text(subtype@) {
                Err(error) => Err(error),
                Ok(subtype) => Ok(kind + "/"@ + subtype),
            },
        },
        BodyKind::Text { subtype } => match server_text(subtype@) {
            Err(error) => Err(error),
            Ok(subtype) => Ok("text"@ + "/"@ + subtype),
        },
        BodyKind::Message { .. } => Ok("message"@ + "/"@ + "rfc822"@),
    }
}

/// The transfer encodings that can be decoded.
pub open spec fn encoding_of(name: Seq<char>) -> Option<TransferEncoding> {
    let name = lowered_text(trimmed(name));
    if name == lowered_text("7bit"@) || name == lowered_text("8bit"@) {
        Some(TransferEncoding::Identity)
    } else if name == lowered_text("base64"@) {
        Some(TransferEncoding::Base64)
    } else if name == lowered_text("quoted-printable"@) {
        Some(TransferEncoding::QuotedPrintable)
    } else {
        None
    }
}

/// The attachment that a part is.
pub open spec fn offer_of(part: Seq<u32>, body: Body, disposition: Option<Disposition>) -> Result<
    Offer,
    Error,
> {
    match media_text(body.kind) {
        Err(error) => Err(error),
        Ok(media) => match server_text(body.transfer_encoding@) {
            Err(error) => Err(error),
            Ok(encoding) => Ok(
                Offer {
                    part,
                    filename: offered_filename(disposition),
                    media_type: lowered_text(media),
                    declared_size: Some(body.size as u64),
                    encoding: encoding_of(encoding),
                },
            ),
        },
    }
}

fn known_encoding(name: &str) -> (r: Option<TransferEncoding>)
    ensures
        r == encoding_of(name@),
{
    let name = trim(name);
    let name = name.as_str();
    if same_text_ignoring_case(name, "7bit") || same_text_ignoring_case(name, "8bit") {
        Some(TransferEncoding::Identity)
    } else if same_text_ignoring_case(name, "base64") {
        Some(TransferEncoding::Base64)
    } else if same_text_ignoring_case(name, "quoted-printable") {
        Some(TransferEncoding::QuotedPrintable)
    } else {
        None
    }
}

pub fn attachment_definition(
    part: Vec<u32>,
    body: &Body,
    disposition: &Option<Disposition>,
) -> (r: Result<AttachmentDefinition, Error>)
    ensures
        match r {
            Ok(definition) => offer_of(part@, *body, *disposition) == Ok::<Offer, Error>(
                definition@,
            ),
            Err(error) => offer_of(part@, *body, *disposition) == Err::<Offer, Error>(error),
        },
{
    let (kind, subtype) = match &body.kind {
        BodyKind::Basic { kind, subtype } => {
            let kind = match imap_text(kind) {
                Ok(kind) => kind,
                Err(error) => {
                    return Err(error);
                },
            };
            match imap_text(subtype) {
                Ok(subtype) => (kind, subtype),
                Err(error) => {
                    return Err(error);
                },
            }
        },
        BodyKind::Text { subtype } => match imap_text(subtype) {
            Ok(subtype) => ("text".to_owned(), subtype),
            Err(error) => {
                return Err(error);
            },
        },
        BodyKind::Message { .. } => ("message".to_owned(), "rfc822".to_owned()),
    };
    let mut media = kind;
    media.push_str("/");
    media.push_str(subtype.as_str());
    assert(media_text(body.kind) == Ok::<Seq<char>, Error>(media@));
    let encoding = match imap_text(&body.transfer_encoding) {
        Ok(encoding) => known_encoding(encoding.as_str()),
        Err(error) => {
            return Err(error);
        },
    };
    Ok(
        AttachmentDefinition {
            part,
            filename: filename(disposition),
            media_type: lower_text(media.as_str()),
            declared_size: Some(body.size as u64),
            encoding,
        },
    )
}

/// The attachments of a structure. An attached message is transferred as its enclosing part, so
/// nothing inside of it is offered on its own.
pub open spec fn offers(structure: Structure, path: Seq<u32>) -> Result<Seq<Offer>, Error>
    decreases structure,
{
    match structure {
        Structure::Single { body, disposition } => if is_attachment(disposition) {
            let part = if path.len() == 0 {
                seq![1u32]
            } else {
                path
            };
            match offer_of(part, body, disposition) {
                Err(error) => Err(error),
                Ok(offer) => Ok(seq![offer]),
            }
        } else {
            Ok(Seq::empty())
        },
        Structure::Multi { bodies, .. } => children_offers(bodies@, path, bodies@.len()),
    }
}

/// The attachments of the first `count` children.
pub open spec fn children_offers(bodies: Seq<Structure>, path: Seq<u32>, count: nat) -> Result<
    Seq<Offer>,
    Error,
>
    decreases bodies, count,
{
    if count == 0 || count > bodies.len() {
        Ok(Seq::empty())
    } else {
        match children_offers(bodies, path, (count - 1) as nat) {
            Err(error) => Err(error),
            Ok(before) => match offers(bodies[count - 1], nth_path(path, count - 1)) {
                Err(error) => Err(error),
                Ok(more) => Ok(before + more),
            },
        }
    }
}

proof fn offers_fail_on(bodies: Seq<Structure>, path: Seq<u32>, few: nat, many: nat)
    requires
        few <= many <= bodies.len(),
        children_offers(bodies, path, few) is Err,
    ensures
        children_offers(bodies, path, many) == children_offers(bodies, path, few),
    decreases many,
{
    if few < many {
        offers_fail_on(bodies, path, few, (many - 1) as nat);
    }
}

pub open spec fn offer_views(definitions: Seq<AttachmentDefinition>) -> Seq<Offer> {
    definitions.map_values(|definition: AttachmentDefinition| definition@)
}

proof fn children_are_fewer(bodies: Seq<Structure>, count: nat)
    requires
        count <= bodies.len(),
    ensures
        count <= parts_count(bodies, count),
        forall|i: int|
            0 <= i < count ==> part_count(#[trigger] bodies[i]) <= parts_count(bodies, count),
    decreases count,
{
    if count > 0 {
        children_are_fewer(bodies, (count - 1) as nat);
        assert(part_count(bodies[count - 1]) >= 1);
    }
}

fn collect(structure: &Structure, path: &Vec<u32>, output: &mut Vec<AttachmentDefinition>) -> (r:
    Result<(), Error>)
    requires
        part_count(*structure) <= u32::MAX,
    ensures
        match r {
            Ok(()) => offers(*structure, path@) matches Ok(found) && offer_views(final(output)@)
                == offer_views(old(output)@) + found,
            Err(error) => offers(*structure, path@) == Err::<Seq<Offer>, Error>(error),
        },
    decreases structure,
{
    match structure {
        Structure::Single { body, disposition } => {
            if attachment(disposition) {
                let part = if path.len() == 0 {
                    let mut part: Vec<u32> = Vec::new();
                    part.push(1);
                    assert(part@ =~= seq![1u32]);
                    part
                } else {
                    let part = path.clone();
                    assert(part@ =~= path@);
                    part
                };
                match attachment_definition(part, body, disposition) {
                    Err(error) => {
                        return Err(error);
                    },
                    Ok(definition) => {
                        output.push(definition);
                        assert(offer_views(output@) =~= offer_views(old(output)@) + seq![
                            definition@,
                        ]);
                    },
                }
            } else {
                assert(offer_views(output@) =~= offer_views(output@) + Seq::empty());
            }
            Ok(())
        },
        Structure::Multi { bodies, .. } => {
            let ghost before = offer_views(output@);
            proof {
                children_are_fewer(bodies@, bodies@.len());
                assert(before =~= before + Seq::empty());
            }
            let mut i: usize = 0;
            while i < bodies.len()
                invariant
                    i <= bodies@.len() <= u32::MAX,
                    *structure matches Structure::Multi { bodies: every, .. } && every == *bodies,
                    forall|j: int| 0 <= j < bodies@.len() ==> part_count(#[trigger] bodies@[j])
                        <= u32::MAX,
                    before == offer_views(old(output)@),
                    children_offers(bodies@, path@, i as nat) matches Ok(found) && offer_views(
                        output@,
                    ) == before + found,
                decreases bodies@.len() - i,
            {
                let ghost found = children_offers(bodies@, path@, i as nat)->Ok_0;
                let child = match child_path(path, i + 1) {
                    Ok(child) => child,
                    Err(error) => {
                        return Err(error);
                    },
                };
                assert(child@ == nth_path(path@, i as int));
                match collect(&bodies[i], &child, output) {
                    Ok(()) => {
                        let ghost more = offers(bodies@[i as int], child@)->Ok_0;
                        assert(offer_views(output@) =~= before + (found + more));
                    },
                    Err(error) => {
                        proof {
                            offers_fail_on(bodies@, path@, (i + 1) as nat, bodies@.len());
                        }
                        return Err(error);
                    },
                }
                i = i + 1;
            }
            Ok(())
        },
    }
}

pub fn attachments(structure: &Structure, limits: &Limits) -> (r: Result<
    Vec<AttachmentDefinition>,
    Error,
>)
    requires
        limits.valid(),
    ensures
        match r {
            Ok(found) => is_bounded(*structure, *limits) && offers(*structure, Seq::empty()) == Ok::<
                Seq<Offer>,
                Error,
            >(offer_views(found@)),
            Err(error) => if is_bounded(*structure, *limits) {
                offers(*structure, Seq::empty()) == Err::<Seq<Offer>, Error>(error)
            } else {
                error == Error::Limit
            },
        },
{
    match validate_structure(structure, limits) {
        Err(error) => {
            return Err(error);
        },
        Ok(()) => {},
    }
    let root: Vec<u32> = Vec::new();
    assert(root@ =~= Seq::<u32>::empty());
    let mut output: Vec<AttachmentDefinition> = Vec::new();
    match collect(structure, &root, &mut output) {
        Ok(()) => {
            assert(offer_views(output@) =~= offers(*structure, Seq::empty())->Ok_0);
            Ok(output)
        },
        Err(error) => Err(error),
    }
}

/// The attachments of the message that a metadata row describes.
pub fn attachment_definitions(items: &Vec<Item>, limits: &Limits) -> (r: Result<
    Vec<AttachmentDefinition>,
    Error,
>)
    requires
        limits.valid(),
    ensures
        match r {
            Ok(found) => exists|i: int, j: int| #[trigger]
                Fetch::is_metadata(items@, i, j) && match items@[j] {
                    Item::BodyStructure(structure) => is_bounded(structure, *limits) && offers(
                        structure,
                        Seq::empty(),
                    ) == Ok::<Seq<Offer>, Error>(offer_views(found@)),
                    _ => false,
                },
            Err(error) => {
                ||| error == Error::Protocol && forall|i: int, j: int|
                    !#[trigger] Fetch::is_metadata(items@, i, j)
                ||| exists|i: int, j: int| #[trigger]
                    Fetch::is_metadata(items@, i, j) && match items@[j] {
                        Item::BodyStructure(structure) => if is_bounded(structure, *limits) {
                            offers(structure, Seq::empty()) == Err::<Seq<Offer>, Error>(error)
                        } else {
                            error == Error::Limit
                        },
                        _ => false,
                    }
            },
        },
{
    let (_, structure) = match (Fetch::Metadata { uid: 0 }).metadata(items) {
        Ok(found) => found,
        Err(error) => {
            return Err(error);
        },
    };
    attachments(structure, limits)
}

impl AttachmentMetadata {
    /// What is told of an offered attachment.
    pub open spec fn tells(self, offer: Offer) -> bool {
        &&& self.part@ == part_text(offer.part)
        &&& match offer.filename {
            Some(name) => self.filename matches Some(told) && told@ == name,
            None => self.filename is None,
        }
        &&& self.media_type@ == offer.media_type
        &&& self.declared_size == offer.declared_size
        &&& self.available == (offer.encoding is Some)
    }
}

/// The list that a caller is shown.
pub fn attachment_list(found: Vec<AttachmentDefinition>) -> (r: Vec<AttachmentMetadata>)
    ensures
        r@.len() == found@.len(),
        forall|i: int| 0 <= i < r@.len() ==> (#[trigger] r@[i]).tells(found@[i]@),
{
    let mut found = found;
    let ghost all = found@;
    let mut list: Vec<AttachmentMetadata> = Vec::new();
    while found.len() > 0
        invariant
            list@.len() + found@.len() == all.len(),
            found@ == all.skip(list@.len() as int),
            forall|i: int| 0 <= i < list@.len() ==> (#[trigger] list@[i]).tells(all[i]@),
        decreases found@.len(),
    {
        let ghost before = list@.len() as int;
        let next = found.remove(0);
        assert(next == all[before]);
        list.push(next.into_metadata());
        assert(found@ =~= all.skip(before + 1));
    }
    list
}

impl AttachmentDefinition {
    pub fn into_metadata(self) -> (r: AttachmentMetadata)
        ensures
            r.part@ == part_text(self.part@),
            r.filename == self.filename,
            r.media_type == self.media_type,
            r.declared_size == self.declared_size,
            r.available == (self.encoding is Some),
    {
        AttachmentMetadata {
            part: part_name(&self.part),
            filename: self.filename,
            media_type: self.media_type,
            declared_size: self.declared_size,
            available: self.encoding.is_some(),
        }
    }
}

/// Incremental decoding state, bound to its mailbox, UIDVALIDITY, UID, and part. The first read
/// binds the authenticated endpoint and username.
pub struct TransferState {
    identity: Option<[u8; 32]>,
    mailbox: String,
    uid: u32,
    uid_validity: u32,
    part: Vec<u32>,
    decoder: Decoder,
    wire_bytes: usize,
    eof: bool,
}

/// How far a transfer has come.
pub struct Transfer {
    /// Who reads, once the first read has begun.
    pub identity: Option<Seq<u8>>,
    pub mailbox: Seq<char>,
    pub uid: u32,
    pub uid_validity: u32,
    pub part: Seq<u32>,
    pub decoding: Decoding,
    /// The bytes that were decoded.
    pub steps: nat,
    pub wire_bytes: nat,
    pub eof: bool,
}

impl View for TransferState {
    type V = Transfer;

    closed spec fn view(&self) -> Transfer {
        Transfer {
            identity: match self.identity {
                Some(identity) => Some(identity@),
                None => None,
            },
            mailbox: self.mailbox@,
            uid: self.uid,
            uid_validity: self.uid_validity,
            part: self.part@,
            decoding: self.decoder@,
            steps: self.decoder.decode_steps as nat,
            wire_bytes: self.wire_bytes as nat,
            eof: self.eof,
        }
    }
}

/// A transfer that can be read from. Completion, a read failure, or cancellation during retrieval
/// leaves it without a state. The application owns deadlines, quotas, and continuation-token
/// authorization.
pub struct AttachmentDecoder {
    state: Option<TransferState>,
}

impl View for AttachmentDecoder {
    type V = Option<Transfer>;

    closed spec fn view(&self) -> Option<Transfer> {
        match self.state {
            Some(state) => Some(state@),
            None => None,
        }
    }
}

pub open spec fn transfer_verdict(
    name: Seq<char>,
    uid: u32,
    validity: u32,
    part: Seq<char>,
    limits: Limits,
) -> Result<Seq<u32>, Error> {
    if !limits.valid() {
        Err(Error::InvalidInput)
    } else {
        match mailbox_verdict(name) {
            Err(error) => Err(error),
            Ok(()) => if uid == 0 || validity == 0 {
                Err(Error::InvalidInput)
            } else {
                part_path(part, limits)
            },
        }
    }
}

impl AttachmentDecoder {
    /// The state, where there is one, is that of a transfer between two reads.
    pub closed spec fn well_formed(self) -> bool {
        self.state matches Some(state) ==> state.well_formed()
    }

    /// Another read may begin.
    pub fn goes_on(&self) -> (r: bool)
        ensures
            r == self@ is Some,
    {
        self.state.is_some()
    }

    pub fn new(name: &str, uid: u32, validity: u32, part: &str, limits: &Limits) -> (r: Result<
        Self,
        Error,
    >)
        ensures
            match r {
                Ok(decoder) => {
                    &&& transfer_verdict(name@, uid, validity, part@, *limits) matches Ok(path)
                    &&& decoder@ == Some(
                        Transfer {
                            identity: None,
                            mailbox: name@,
                            uid,
                            uid_validity: validity,
                            part: path,
                            decoding: Decoding::fresh(TransferEncoding::Identity),
                            steps: 0,
                            wire_bytes: 0,
                            eof: false,
                        },
                    )
                    &&& decoder.well_formed()
                },
                Err(error) => transfer_verdict(name@, uid, validity, part@, *limits) == Err::<
                    Seq<u32>,
                    Error,
                >(error),
            },
    {
        match limits.validate() {
            Err(error) => {
                return Err(error);
            },
            Ok(()) => {},
        }
        match mailbox(name) {
            Err(error) => {
                return Err(error);
            },
            Ok(()) => {},
        }
        if uid == 0 || validity == 0 {
            return Err(Error::InvalidInput);
        }
        let part = match parse_part(part, limits) {
            Err(error) => {
                return Err(error);
            },
            Ok(part) => part,
        };
        Ok(
            AttachmentDecoder {
                state: Some(
                    TransferState {
                        identity: None,
                        mailbox: name.to_owned(),
                        uid,
                        uid_validity: validity,
                        part,
                        decoder: Decoder::new(TransferEncoding::Identity),
                        wire_bytes: 0,
                        eof: false,
                    },
                ),
            },
        )
    }

    /// Takes the state out for one read over this authenticated connection. Whatever the outcome, the
    /// transfer has no state until the read puts it back.
    pub fn begin(&mut self, connection: &AuthenticatedConnection, limits: &Limits) -> (r: Result<
        TransferState,
        Error,
    >)
        requires
            old(self).well_formed(),
        ensures
            final(self)@ is None,
            final(self).well_formed(),
            match r {
                Ok(state) => {
                    &&& limits.valid()
                    &&& old(self)@ matches Some(before) && state@ == (Transfer {
                        identity: Some(connection@),
                        ..before
                    }) && (before.identity matches Some(bound) ==> bound == connection@)
                    &&& state.well_formed()
                },
                Err(error) => match old(self)@ {
                    None => error == Error::TransferExpired,
                    Some(before) => if !limits.valid() {
                        error == Error::InvalidInput
                    } else {
                        error == Error::TransferExpired && (before.identity matches Some(bound)
                            && bound != connection@)
                    },
                },
            },
    {
        let mut state = match self.state.take() {
            Some(state) => state,
            None => {
                return Err(Error::TransferExpired);
            },
        };
        match limits.validate() {
            Err(error) => {
                return Err(error);
            },
            Ok(()) => {},
        }
        let identity = connection.identity();
        match &state.identity {
            Some(bound) => {
                if !same_bytes(bound.as_slice(), identity.as_slice()) {
                    return Err(Error::TransferExpired);
                }
            },
            None => {},
        }
        state.identity = Some(identity);
        Ok(state)
    }
}

impl Transfer {
    /// The offer for the part of this transfer, the first one from `i` on.
    pub open spec fn offered(self, found: Seq<Offer>, i: int) -> Option<Offer>
        decreases found.len() - i,
    {
        if i < 0 || i >= found.len() {
            None
        } else if found[i].part == self.part {
            Some(found[i])
        } else {
            self.offered(found, i + 1)
        }
    }

    /// How many bytes the next slice asks for: one more than the ceiling leaves at most, to see that
    /// it is exceeded.
    pub open spec fn slice(self, limits: Limits) -> int {
        let rest = limits.max_attachment_wire_bytes - self.wire_bytes + 1;
        let half = limits.max_response_bytes / 2;
        let a = if limits.max_literal_bytes < WIRE_SLICE_BYTES {
            limits.max_literal_bytes as int
        } else {
            WIRE_SLICE_BYTES as int
        };
        let b = if half < a {
            half as int
        } else {
            a
        };
        if rest < b {
            rest
        } else {
            b
        }
    }

    /// Another slice is wanted. After the first one, a read ends early at a clean command boundary
    /// where another maximum response pair would approach the operation budget.
    pub open spec fn wants_more(self, fetched: bool, used: usize, limits: Limits) -> bool {
        &&& self.decoding.pending.len() < limits.max_attachment_chunk_bytes
        &&& !self.eof
        &&& !(fetched && limits.max_operation_bytes - used < limits.max_response_bytes * 2)
    }

    /// The metrics of an operation that has brought the transfer this far.
    pub open spec fn published(self, metrics: Metrics) -> Metrics {
        Metrics {
            transfer_wire_bytes: self.wire_bytes as usize,
            transfer_decoded_bytes: self.decoding.octets().len() as usize,
            transfer_decode_steps: self.steps as usize,
            max_transfer_state_bytes: self.decoding.peak as usize,
            ..metrics
        }
    }

    /// What a slice that was read leads to: a short slice also ends the wire form.
    pub open spec fn sliced(self, wire: Seq<u8>, last: bool, limits: Limits) -> Result<
        Transfer,
        Error,
    > {
        if self.wire_bytes + wire.len() > limits.max_attachment_wire_bytes {
            Err(Error::Limit)
        } else {
            match pushed(self.decoding, self.steps, wire, limits) {
                Err(error) => Err(error),
                Ok((after, steps)) => {
                    let read = Transfer {
                        decoding: after,
                        steps,
                        wire_bytes: self.wire_bytes + wire.len(),
                        ..self
                    };
                    if !last {
                        Ok(read)
                    } else {
                        match after.finished(limits) {
                            Err(error) => Err(error),
                            Ok(end) => Ok(Transfer { decoding: end, eof: true, ..read }),
                        }
                    }
                },
            }
        }
    }

    /// Where a transfer stands after a slice that was refused: the slice is counted, as far as it was
    /// looked at, and nothing that was decoded before is lost.
    pub open spec fn failed_from(self, before: Transfer, wire: Seq<u8>, limits: Limits) -> bool {
        &&& self == (Transfer {
            decoding: self.decoding,
            steps: self.steps,
            wire_bytes: before.wire_bytes + wire.len(),
            eof: self.eof,
            ..before
        })
        &&& if before.wire_bytes + wire.len() > limits.max_attachment_wire_bytes {
            self.decoding == before.decoding && self.steps == before.steps && self.eof == before.eof
        } else {
            &&& self.steps == (if before.steps + wire.len() > usize::MAX {
                before.steps
            } else {
                before.steps + wire.len()
            })
            &&& if before.steps + wire.len() > limits.max_decode_steps {
                self.decoding == before.decoding && self.eof == before.eof
            } else {
                match before.decoding.decoded(wire, limits) {
                    Err(_) => stops(before.decoding, wire, limits, self.decoding) && self.eof
                        == before.eof,
                    Ok(decoded) => self.decoding.keeps(decoded) && self.eof,
                }
            }
        }
    }
}

impl TransferState {
    pub closed spec fn well_formed(self) -> bool {
        self.uid > 0 && self.decoder.well_formed()
    }

    pub fn mailbox(&self) -> (r: &str)
        ensures
            r@ == self@.mailbox,
    {
        self.mailbox.as_str()
    }

    pub fn uid(&self) -> (r: u32)
        ensures
            r == self@.uid,
    {
        self.uid
    }

    /// The mailbox has been selected. Only the incarnation that the reference names is read.
    pub fn selected(&self, uid_validity: u32) -> (r: Result<(), Error>)
        ensures
            r == (if uid_validity == self@.uid_validity {
                Ok::<(), Error>(())
            } else {
                Err(Error::StaleReference)
            }),
    {
        if uid_validity != self.uid_validity {
            return Err(Error::StaleReference);
        }
        Ok(())
    }

    /// The first read looks up how the part is encoded.
    pub fn needs_definition(&self) -> (r: bool)
        ensures
            r == (self@.wire_bytes == 0 && !self@.eof),
    {
        self.wire_bytes == 0 && !self.eof
    }

    /// Settles how the part is encoded.
    pub fn define(&mut self, definitions: &Vec<AttachmentDefinition>) -> (r: Result<(), Error>)
        requires
            old(self).well_formed(),
        ensures
            match old(self)@.offered(offer_views(definitions@), 0) {
                None => r == Err::<(), Error>(Error::StaleReference),
                Some(offer) => match offer.encoding {
                    None => r == Err::<(), Error>(Error::Unsupported),
                    Some(encoding) => {
                        &&& r is Ok
                        &&& final(self).well_formed()
                        &&& final(self)@ == (Transfer {
                            decoding: Decoding::fresh(encoding),
                            steps: 0,
                            ..old(self)@
                        })
                    },
                },
            },
            r is Err ==> *final(self) == *old(self),
    {
        let ghost views = offer_views(definitions@);
        let mut i: usize = 0;
        while i < definitions.len()
            invariant
                i <= definitions@.len(),
                views == offer_views(definitions@),
                *self == *old(self),
                self.well_formed(),
                self@.offered(views, i as int) == old(self)@.offered(views, 0),
            decreases definitions@.len() - i,
        {
            assert(views[i as int] == definitions@[i as int]@);
            if same_path(&definitions[i].part, &self.part) {
                return match definitions[i].encoding {
                    None => Err(Error::Unsupported),
                    Some(encoding) => {
                        self.decoder = Decoder::new(encoding);
                        Ok(())
                    },
                };
            }
            i = i + 1;
        }
        Err(Error::StaleReference)
    }

    /// The command that reads the next slice, if another one is wanted.
    pub fn next(&self, fetched: bool, used: usize, limits: &Limits) -> (r: Result<
        Option<Fetch>,
        Error,
    >)
        requires
            self.well_formed(),
            limits.valid(),
        ensures
            match r {
                Ok(None) => !self@.wants_more(fetched, used, *limits),
                Ok(Some(fetch)) => {
                    &&& self@.wants_more(fetched, used, *limits)
                    &&& fetch matches Fetch::Bytes { uid, section, offset, count }
                    &&& uid == self@.uid
                    &&& section matches Some(Section::Part(path)) && path@ == self@.part
                    &&& offset == self@.wire_bytes
                    &&& count == self@.slice(*limits)
                    &&& count > 0
                    &&& self@.wire_bytes <= limits.max_attachment_wire_bytes
                },
                Err(error) => {
                    &&& self@.wants_more(fetched, used, *limits)
                    &&& if self@.wire_bytes > limits.max_attachment_wire_bytes {
                        error == Error::Limit
                    } else {
                        error == Error::InvalidInput && self@.slice(*limits) == 0
                    }
                },
            },
    {
        if self.decoder.pending_len() >= limits.max_attachment_chunk_bytes || self.eof {
            return Ok(None);
        }
        if fetched && limits.max_operation_bytes.saturating_sub(used) < limits.max_response_bytes
            * 2 {
            return Ok(None);
        }
        if self.wire_bytes > limits.max_attachment_wire_bytes {
            return Err(Error::Limit);
        }
        let mut count: usize = WIRE_SLICE_BYTES;
        if limits.max_literal_bytes < count {
            count = limits.max_literal_bytes;
        }
        if limits.max_response_bytes / 2 < count {
            count = limits.max_response_bytes / 2;
        }
        let rest: usize = limits.max_attachment_wire_bytes - self.wire_bytes + 1;
        if rest < count {
            count = rest;
        }
        if count == 0 {
            return Err(Error::InvalidInput);
        }
        let path = self.part.clone();
        assert(path@ =~= self.part@);
        Ok(
            Some(
                Fetch::Bytes {
                    uid: self.uid,
                    section: Some(Section::Part(path)),
                    offset: self.wire_bytes as u32,
                    count: count as u32,
                },
            ),
        )
    }

    fn publish(&self, metrics: &mut Metrics)
        requires
            self.decoder.accounted(),
        ensures
            *final(metrics) == self@.published(*old(metrics)),
    {
        let decoder = self.decoder.snapshot();
        metrics.transfer_wire_bytes = self.wire_bytes;
        metrics.transfer_decoded_bytes = decoder.decoded_bytes;
        metrics.transfer_decode_steps = decoder.decode_steps;
        metrics.max_transfer_state_bytes = decoder.max_state_bytes;
    }

    /// Decodes the slice that was read. `count` bytes had been asked for. What the transfer has used is
    /// told also where it fails.
    pub fn accept(
        &mut self,
        wire: &Vec<u8>,
        count: u32,
        limits: &Limits,
        metrics: &mut Metrics,
    ) -> (r: Result<(), Error>)
        requires
            old(self).well_formed(),
            old(self)@.wire_bytes <= limits.max_attachment_wire_bytes,
            limits.valid(),
            wire@.len() <= count <= WIRE_SLICE_BYTES,
        ensures
            *final(metrics) == final(self)@.published(*old(metrics)),
            match old(self)@.sliced(wire@, wire@.len() < count, *limits) {
                Ok(after) => r is Ok && final(self)@ == after && final(self).well_formed(),
                Err(error) => r == Err::<(), Error>(error) && final(self)@.failed_from(
                    old(self)@,
                    wire@,
                    *limits,
                ),
            },
    {
        let remaining: usize = limits.max_attachment_wire_bytes - self.wire_bytes;
        self.wire_bytes = self.wire_bytes + wire.len();
        self.publish(metrics);
        if wire.len() > remaining {
            return Err(Error::Limit);
        }
        let decoded = self.decoder.push(wire.as_slice(), limits);
        self.publish(metrics);
        decoded?;
        if wire.len() < count as usize {
            self.eof = true;
            let finished = self.decoder.finish(limits);
            self.publish(metrics);
            finished?;
        }
        Ok(())
    }

    /// Hands out the next page. A transfer that goes on keeps its state; a completed one reports how
    /// much it gave out in all, and its digest.
    pub fn finish(self, transfer: &mut AttachmentDecoder, limits: &Limits, metrics: &mut Metrics)
        -> (r: AttachmentData)
        requires
            self.well_formed(),
        ensures
            final(transfer).well_formed(),
            ({
                let pending = self@.decoding.pending;
                let rest = pending.skip(r.bytes@.len() as int);
                let taken = self@.decoding.taken + r.bytes@;
                &&& r.bytes@.len() == (if limits.max_attachment_chunk_bytes < pending.len() {
                    limits.max_attachment_chunk_bytes as nat
                } else {
                    pending.len()
                })
                &&& r.bytes@ == pending.take(r.bytes@.len() as int)
                &&& r.decoded_offset == self@.decoding.taken.len()
                &&& *final(metrics) == self@.published(*old(metrics))
                &&& if self@.eof && rest.len() == 0 {
                    &&& r.integrity matches Some(integrity) && integrity.total_decoded_bytes
                        == taken.len() && integrity.sha256@ == sha256(taken)
                    &&& final(transfer)@ is None
                } else {
                    &&& r.integrity is None
                    &&& final(transfer)@ == Some(
                        Transfer {
                            decoding: Decoding { taken, pending: rest, ..self@.decoding },
                            ..self@
                        },
                    )
                }
            }),
    {
        let mut state = self;
        let bytes = state.decoder.take_chunk(limits.max_attachment_chunk_bytes);
        state.publish(metrics);
        let decoded_offset: u64 = (state.decoder.decoded_offset() - bytes.len()) as u64;
        if state.eof && state.decoder.pending_len() == 0 {
            let (total_decoded_bytes, sha256) = state.decoder.integrity();
            transfer.state = None;
            AttachmentData {
                bytes,
                decoded_offset,
                integrity: Some(AttachmentIntegrity { total_decoded_bytes, sha256 }),
            }
        } else {
            transfer.state = Some(state);
            AttachmentData { bytes, decoded_offset, integrity: None }
        }
    }
}

/// The pages of a transfer follow each other without a gap: each one starts at the number of octets
/// that were handed out before it, and the digest of the last one covers them all.
pub proof fn pages_are_contiguous(before: Decoding, after: Decoding, page: Seq<u8>)
    requires
        page.len() <= before.pending.len(),
        page == before.pending.take(page.len() as int),
        after == (Decoding {
            taken: before.taken + page,
            pending: before.pending.skip(page.len() as int),
            ..before
        }),
    ensures
        after.taken.len() == before.taken.len() + page.len(),
        after.octets() == before.octets(),
{
    assert(after.octets() =~= before.octets());
}

/// Octets as a part with this transfer encoding holds them, where the encoding is one that is known.
pub open spec fn wire_form(encoding: Seq<char>, octets: Seq<u8>) -> Option<Seq<u8>> {
    if encoding == "base64"@ {
        Some(base64_form(octets))
    } else if encoding == "quoted-printable"@ {
        Some(escaped_form(octets, true))
    } else if encoding == "7bit"@ || encoding == "8bit"@ {
        Some(octets)
    } else {
        None
    }
}

/// A transfer undoes the encoding that the part states, whatever the case of its name and the white
/// space around it: what was written in that encoding comes out octet for octet, unless a limit is
/// met. An encoding that is not known is not decoded at all.
pub proof fn transfers_undo_the_stated_encoding(name: Seq<char>, octets: Seq<u8>, limits: Limits)
    ensures
        match wire_form(lowered_text(trimmed(name)), octets) {
            Some(wire) => encoding_of(name) matches Some(encoding) && stands_for(
                encoding,
                wire,
                octets,
                limits,
            ),
            None => encoding_of(name) is None,
        },
{
    reveal_strlit("7bit");
    reveal_strlit("8bit");
    reveal_strlit("base64");
    reveal_strlit("quoted-printable");
    assert(lowered_text("7bit"@) =~= "7bit"@);
    assert(lowered_text("8bit"@) =~= "8bit"@);
    assert(lowered_text("base64"@) =~= "base64"@);
    assert(lowered_text("quoted-printable"@) =~= "quoted-printable"@);
    base64_reads_back(octets, limits);
    quoted_printable_reads_back(octets, true, limits);
    plain_octets_are_kept(octets, limits);
}

/// The offer describes this part: its media type in lower case, its size on the wire, and a file name
/// only where the sender gave one that can be shown.
pub open spec fn offers_part(offer: Offer, part: Structure) -> bool {
    part matches Structure::Single { body, disposition } && {
        &&& is_attachment(disposition)
        &&& offer.declared_size == Some(body.size as u64)
        &&& match body.kind {
            BodyKind::Basic { kind, subtype } => spelled(kind@) matches Some(first) && (spelled(subtype@) matches Some(
                second,
            ) && offer.media_type == lowered_text(first) + seq!['/'] + lowered_text(second)),
            BodyKind::Text { subtype } => spelled(subtype@) matches Some(second) && offer.media_type
                == "text/"@ + lowered_text(second),
            BodyKind::Message { .. } => offer.media_type == "message/rfc822"@,
        }
        &&& spelled(body.transfer_encoding@) matches Some(name) && offer.encoding == encoding_of(name)
        &&& offer.filename matches Some(name) ==> {
            &&& 0 < name.len() <= 256
            &&& disposition matches Some(shown) && exists|i: int|
                0 <= i < shown.parameters@.len() && is_called(#[trigger] shown.parameters@[i], "filename"@)
                    && (spelled(shown.parameters@[i].1@) matches Some(given) && name == trimmed(given))
            &&& forall|i: int| 0 <= i < name.len() ==> !is_control(#[trigger] name[i])
        }
    }
}

proof fn filenames_are_given(parameters: Seq<Parameter>, i: int)
    requires
        0 <= i,
    ensures
        filename_parameter(parameters, i) matches Some(value) ==> exists|k: int|
            i <= k < parameters.len() && is_called(#[trigger] parameters[k], "filename"@) && value
                == parameters[k].1@ && forall|j: int|
                i <= j < k ==> !is_called(#[trigger] parameters[j], "filename"@),
        filename_parameter(parameters, i) is None ==> forall|k: int|
            i <= k < parameters.len() ==> !is_called(#[trigger] parameters[k], "filename"@),
    decreases parameters.len() - i,
{
    if i < parameters.len() {
        filenames_are_given(parameters, i + 1);
    }
}

proof fn joined_texts_are_lowered(a: Seq<char>, b: Seq<char>)
    ensures
        lowered_text(a + b) == lowered_text(a) + lowered_text(b),
{
    assert(lowered_text(a + b) =~= lowered_text(a) + lowered_text(b));
}

proof fn offers_describe_their_part(part: Seq<u32>, body: Body, disposition: Option<Disposition>)
    requires
        is_attachment(disposition),
    ensures
        offer_of(part, body, disposition) matches Ok(offer) ==> offer.part == part && offers_part(
            offer,
            Structure::Single { body, disposition },
        ),
{
    reveal_strlit("/");
    reveal_strlit("text");
    reveal_strlit("text/");
    reveal_strlit("message");
    reveal_strlit("rfc822");
    reveal_strlit("message/rfc822");
    if let Some(shown) = disposition {
        filenames_are_given(shown.parameters@, 0);
    }
    assert(lowered_text("/"@) =~= seq!['/']);
    if let Ok(offer) = offer_of(part, body, disposition) {
        match body.kind {
            BodyKind::Basic { kind, subtype } => {
                let first = spelled(kind@)->0;
                let second = spelled(subtype@)->0;
                joined_texts_are_lowered(first + "/"@, second);
                joined_texts_are_lowered(first, "/"@);
            },
            BodyKind::Text { subtype } => {
                let second = spelled(subtype@)->0;
                joined_texts_are_lowered("text"@ + "/"@, second);
                assert(lowered_text("text"@ + "/"@) =~= "text/"@);
            },
            BodyKind::Message { .. } => {
                assert(lowered_text("message"@ + "/"@ + "rfc822"@) =~= "message/rfc822"@);
            },
        }
    }
}

/// The file name of an attachment is what its first `filename` says, without the white space around
/// it, and only where that can be shown.
pub proof fn filenames_come_from_the_sender(disposition: Disposition, i: int, given: Seq<char>)
    requires
        0 <= i < disposition.parameters@.len(),
        is_called(disposition.parameters@[i], "filename"@),
        forall|j: int| 0 <= j < i ==> !is_called(#[trigger] disposition.parameters@[j], "filename"@),
        spelled(disposition.parameters@[i].1@) == Some(given),
    ensures
        offered_filename(Some(disposition)) == (if 0 < trimmed(given).len() <= 256 && forall|k: int|
            0 <= k < trimmed(given).len() ==> !is_control(#[trigger] trimmed(given)[k])
                && !is_direction_mark(trimmed(given)[k]) {
            Some(trimmed(given))
        } else {
            None
        }),
{
    filenames_are_given(disposition.parameters@, 0);
}

proof fn children_are_offered(bodies: Seq<Structure>, path: Seq<u32>, count: nat)
    requires
        count <= bodies.len(),
        children_offers(bodies, path, count) is Ok,
    ensures
        forall|i: int|
            0 <= i < count ==> (offers(#[trigger] bodies[i], path.push((i + 1) as u32)) matches Ok(more)
                && forall|offer: Offer| #[trigger]
                more.contains(offer) ==> children_offers(bodies, path, count)->Ok_0.contains(offer)),
        forall|offer: Offer| #[trigger]
            children_offers(bodies, path, count)->Ok_0.contains(offer) ==> exists|i: int|
                0 <= i < count && offers(#[trigger] bodies[i], path.push((i + 1) as u32))->Ok_0.contains(
                    offer,
                ),
    decreases count,
{
    if count > 0 {
        children_are_offered(bodies, path, (count - 1) as nat);
        let before = children_offers(bodies, path, (count - 1) as nat)->Ok_0;
        let more = offers(bodies[count - 1], path.push(count as u32))->Ok_0;
        let all = children_offers(bodies, path, count)->Ok_0;
        assert(all == before + more);
        assert forall|offer: Offer| #[trigger] all.contains(offer) == (before.contains(offer)
            || more.contains(offer)) by {
            if before.contains(offer) {
                let k = choose|k: int| 0 <= k < before.len() && before[k] == offer;
                assert(all[k] == offer);
            }
            if more.contains(offer) {
                let k = choose|k: int| 0 <= k < more.len() && more[k] == offer;
                assert(all[before.len() + k] == offer);
            }
            if all.contains(offer) {
                let k = choose|k: int| 0 <= k < all.len() && all[k] == offer;
                if k < before.len() {
                    assert(before[k] == offer);
                } else {
                    assert(more[k - before.len()] == offer);
                }
            }
        }
    }
}

proof fn offers_lie_below(structure: Structure, path: Seq<u32>)
    requires
        part_count(structure) <= u32::MAX,
        offers(structure, path) is Ok,
    ensures
        forall|offer: Offer| #[trigger]
            offers(structure, path)->Ok_0.contains(offer) ==> exists|below: Seq<u32>| #[trigger]
                part_at(structure, below) matches Some(part) && offers_part(offer, part) && offer.part == (
                if path.len() == 0 && below.len() == 0 {
                    seq![1u32]
                } else {
                    path + below
                }),
    decreases structure,
{
    match structure {
        Structure::Single { body, disposition } => {
            if is_attachment(disposition) {
                let part = if path.len() == 0 {
                    seq![1u32]
                } else {
                    path
                };
                offers_describe_their_part(part, body, disposition);
                assert(part_at(structure, Seq::<u32>::empty()) == Some(structure));
                assert(path + Seq::<u32>::empty() =~= path);
            }
        },
        Structure::Multi { bodies, .. } => {
            children_are_offered(bodies@, path, bodies@.len());
            assert forall|offer: Offer| #[trigger]
                offers(structure, path)->Ok_0.contains(offer) implies exists|below: Seq<u32>| #[trigger]
                part_at(structure, below) matches Some(part) && offers_part(offer, part) && offer.part == (
                if path.len() == 0 && below.len() == 0 {
                    seq![1u32]
                } else {
                    path + below
                }) by {
                let i = choose|i: int|
                    0 <= i < bodies@.len() && offers(
                        #[trigger] bodies@[i],
                        path.push((i + 1) as u32),
                    )->Ok_0.contains(offer);
                children_are_fewer(bodies@, bodies@.len());
                child_counts(bodies@, i as nat, bodies@.len());
                offers_lie_below(bodies@[i], path.push((i + 1) as u32));
                let below = choose|below: Seq<u32>| #[trigger]
                    part_at(bodies@[i], below) matches Some(part) && offers_part(offer, part)
                        && offer.part == path.push((i + 1) as u32) + below;
                let longer = seq![(i + 1) as u32] + below;
                assert(longer.drop_first() =~= below);
                assert(part_at(structure, longer) == part_at(bodies@[i], below));
                assert(path.push((i + 1) as u32) + below =~= path + longer);
            }
        },
    }
}

proof fn child_counts(bodies: Seq<Structure>, i: nat, count: nat)
    requires
        i < count <= bodies.len(),
    ensures
        part_count(bodies[i as int]) <= parts_count(bodies, count),
    decreases count,
{
    if i + 1 < count {
        child_counts(bodies, i, (count - 1) as nat);
    }
}

proof fn parts_below_are_offered(structure: Structure, path: Seq<u32>, below: Seq<u32>)
    requires
        offers(structure, path) is Ok,
        part_at(structure, below) matches Some(Structure::Single { disposition, .. }) && is_attachment(
            disposition,
        ),
    ensures
        exists|offer: Offer| #[trigger]
            offers(structure, path)->Ok_0.contains(offer) && offer.part == (if path.len() == 0
                && below.len() == 0 {
                seq![1u32]
            } else {
                path + below
            }),
    decreases below.len(),
{
    if below.len() == 0 {
        let body = structure->body;
        let disposition = structure->Single_disposition;
        let part = if path.len() == 0 {
            seq![1u32]
        } else {
            path
        };
        let offer = offer_of(part, body, disposition)->Ok_0;
        assert(path + below =~= path);
        assert(seq![offer][0] == offer);
        assert(offers(structure, path)->Ok_0.contains(offer));
    } else {
        let bodies = structure->bodies@;
        let i = below[0] - 1;
        children_are_offered(bodies, path, bodies.len());
        assert(offers(bodies[i], path.push((i + 1) as u32)) is Ok);
        parts_below_are_offered(bodies[i], path.push((i + 1) as u32), below.drop_first());
        let offer = choose|offer: Offer| #[trigger]
            offers(bodies[i], path.push((i + 1) as u32))->Ok_0.contains(offer) && offer.part
                == path.push((i + 1) as u32) + below.drop_first();
        assert(path.push((i + 1) as u32) + below.drop_first() =~= path + below);
        assert(offers(structure, path)->Ok_0.contains(offer));
    }
}

/// The list of attachments is that of the parts which the sender wants to be offered as files: every
/// entry names such a part by its place and describes it, and every such part has an entry.
pub proof fn the_list_is_that_of_the_offered_parts(structure: Structure)
    requires
        structure is Multi,
        part_count(structure) <= u32::MAX,
        offers(structure, Seq::empty()) is Ok,
    ensures
        forall|offer: Offer| #[trigger]
            offers(structure, Seq::empty())->Ok_0.contains(offer) ==> (part_at(structure, offer.part) matches Some(
                part,
            ) && offers_part(offer, part)),
        forall|path: Seq<u32>|
            (#[trigger] part_at(structure, path) matches Some(Structure::Single { disposition, .. })
                && is_attachment(disposition)) ==> exists|offer: Offer| #[trigger]
                offers(structure, Seq::empty())->Ok_0.contains(offer) && offer.part == path,
{
    offers_lie_below(structure, Seq::empty());
    assert forall|offer: Offer| #[trigger]
        offers(structure, Seq::empty())->Ok_0.contains(offer) implies (part_at(structure, offer.part) matches Some(
        part,
    ) && offers_part(offer, part)) by {
        let below = choose|below: Seq<u32>| #[trigger]
            part_at(structure, below) matches Some(part) && offers_part(offer, part) && offer.part == (
            if below.len() == 0 {
                seq![1u32]
            } else {
                Seq::empty() + below
            });
        assert(Seq::<u32>::empty() + below =~= below);
        assert(below.len() > 0);
    }
    assert forall|path: Seq<u32>|
        (#[trigger] part_at(structure, path) matches Some(Structure::Single { disposition, .. })
            && is_attachment(disposition)) implies exists|offer: Offer| #[trigger]
        offers(structure, Seq::empty())->Ok_0.contains(offer) && offer.part == path by {
        parts_below_are_offered(structure, Seq::empty(), path);
        assert(Seq::<u32>::empty() + path =~= path);
        assert(path.len() > 0);
    }
}

/// A transfer is decoded as the list says of the part that it reads, and of no other part.
pub proof fn transfers_find_their_part(transfer: Transfer, found: Seq<Offer>)
    ensures
        match transfer.offered(found, 0) {
            Some(offer) => found.contains(offer) && offer.part == transfer.part,
            None => forall|i: int| 0 <= i < found.len() ==> (#[trigger] found[i]).part != transfer.part,
        },
{
    offered_from(transfer, found, 0);
}

proof fn offered_from(transfer: Transfer, found: Seq<Offer>, i: int)
    requires
        0 <= i,
    ensures
        match transfer.offered(found, i) {
            Some(offer) => found.contains(offer) && offer.part == transfer.part,
            None => forall|k: int| i <= k < found.len() ==> (#[trigger] found[k]).part != transfer.part,
        },
    decreases found.len() - i,
{
    if i < found.len() {
        assert(found.contains(found[i]));
        offered_from(transfer, found, i + 1);
    }
}

/// Slices follow one another on the wire without a gap: after a slice the next one starts where it
/// ended, and no slice asks beyond the ceiling by more than the one byte that shows it exceeded.
pub proof fn slices_follow_one_another(before: Transfer, wire: Seq<u8>, last: bool, limits: Limits)
    requires
        before.wire_bytes <= limits.max_attachment_wire_bytes,
    ensures
        before.sliced(wire, last, limits) matches Ok(after) ==> {
            &&& after.wire_bytes == before.wire_bytes + wire.len() <= limits.max_attachment_wire_bytes
            &&& after.part == before.part && after.uid == before.uid && after.mailbox == before.mailbox
                && after.uid_validity == before.uid_validity && after.identity == before.identity
            &&& last ==> after.eof
            &&& !last ==> after.eof == before.eof
        },
        before.wire_bytes + before.slice(limits) <= limits.max_attachment_wire_bytes + 1,
        before.wire_bytes + wire.len() > limits.max_attachment_wire_bytes ==> before.sliced(
            wire,
            last,
            limits,
        ) == Err::<Transfer, Error>(Error::Limit),
{
}

/// An attachment is described by what the server says of its part: the type in lower case, the size, and
/// the encoding by its name; a text and an enclosed message have a type of their own.
pub proof fn attachments_are_described_by_their_part(part: Seq<u32>, body: Body, disposition: Option<Disposition>)
    ensures
        offer_of(part, body, disposition) matches Ok(offer) ==> {
            &&& offer.part == part
            &&& offer.declared_size == Some(body.size as u64)
            &&& spelled(body.transfer_encoding@) matches Some(name) && offer.encoding == encoding_of(name)
            &&& body.kind matches BodyKind::Basic { kind, subtype } ==> (spelled(kind@) matches Some(main) && (spelled(
                subtype@,
            ) matches Some(minor) && offer.media_type == lowered_text(main) + seq!['/'] + lowered_text(minor)))
            &&& body.kind matches BodyKind::Text { subtype } ==> (spelled(subtype@) matches Some(minor)
                && offer.media_type == seq!['t', 'e', 'x', 't', '/'] + lowered_text(minor))
            &&& body.kind is Message ==> offer.media_type == "message/rfc822"@
        },
        spelled(body.transfer_encoding@) is None ==> offer_of(part, body, disposition) is Err,
{
    reveal_strlit("/");
    reveal_strlit("text");
    reveal_strlit("message");
    reveal_strlit("rfc822");
    reveal_strlit("message/rfc822");
    assert("/"@ =~= seq!['/']);
    if let Ok(offer) = offer_of(part, body, disposition) {
        match body.kind {
            BodyKind::Basic { kind, subtype } => {
                let (a, b) = (spelled(kind@)->0, spelled(subtype@)->0);
                assert(lowered_text(a + "/"@ + b) =~= lowered_text(a) + seq!['/'] + lowered_text(b));
            },
            BodyKind::Text { subtype } => {
                let b = spelled(subtype@)->0;
                assert(lowered_text("text"@ + "/"@ + b) =~= seq!['t', 'e', 'x', 't', '/'] + lowered_text(b));
            },
            BodyKind::Message { .. } => {
                assert(lowered_text("message"@ + "/"@ + "rfc822"@) =~= "message/rfc822"@);
            },
        }
    }
}

/// A file name is shown that has one to 256 characters, none of which controls the terminal or changes
/// the direction of the text.
pub proof fn shown_file_names_are_plain(name: Seq<char>)
    ensures
        is_safe_filename(name) ==> 0 < name.len() <= 256,
        forall|i: int|
            0 <= i < name.len() && (is_control(#[trigger] name[i]) || name[i] == '\u{61c}' || name[i] == '\u{200e}'
                || name[i] == '\u{200f}' || ('\u{202a}' <= name[i] <= '\u{202e}') || ('\u{2066}' <= name[i]
                <= '\u{2069}')) ==> !is_safe_filename(name),
        0 < name.len() <= 256 && (forall|i: int| 0 <= i < name.len() ==> ' ' <= #[trigger] name[i] <= '~')
            ==> is_safe_filename(name),
{
    assert forall|i: int|
        0 <= i < name.len() && (is_control(#[trigger] name[i]) || name[i] == '\u{61c}' || name[i] == '\u{200e}'
            || name[i] == '\u{200f}' || ('\u{202a}' <= name[i] <= '\u{202e}') || ('\u{2066}' <= name[i]
            <= '\u{2069}')) implies !is_safe_filename(name) by {
        marks_of_direction_are_known(name[i]);
    }
    if 0 < name.len() <= 256 && (forall|i: int| 0 <= i < name.len() ==> ' ' <= #[trigger] name[i] <= '~') {
        assert forall|i: int| 0 <= i < name.len() implies !is_control(#[trigger] name[i]) && !is_direction_mark(
            name[i],
        ) by {
            marks_of_direction_are_known(name[i]);
        }
    }
}

proof fn marks_of_direction_are_known(c: char)
    ensures
        is_direction_mark(c) <==> c == '\u{61c}' || c == '\u{200e}' || c == '\u{200f}' || ('\u{202a}' <= c
            <= '\u{202e}') || ('\u{2066}' <= c <= '\u{2069}'),
        ' ' <= c <= '~' ==> !is_control(c),
{
}

/// An attachment is told by its part, its name and its type, and as available exactly where its encoding
/// is one that can be undone.
pub proof fn attachments_are_told_by_their_part(told: AttachmentMetadata, offer: Offer)
    requires
        told.tells(offer),
    ensures
        told.part@ == part_text(offer.part),
        told.media_type@ == offer.media_type,
        told.declared_size == offer.declared_size,
        told.available <==> offer.encoding is Some,
        told.filename is None <==> offer.filename is None,
        offer.filename matches Some(name) ==> told.filename->0@ == name,
{
}

/// A transfer is asked for by valid limits, a plain mailbox name, numbers that are not zero, and the name
/// of a part.
pub proof fn transfers_name_a_part(name: Seq<char>, uid: u32, validity: u32, part: Seq<char>, limits: Limits)
    ensures
        transfer_verdict(name, uid, validity, part, limits) matches Ok(path) ==> limits.valid() && mailbox_verdict(name)
            is Ok && uid > 0 && validity > 0 && part_path(part, limits) == Ok::<Seq<u32>, Error>(path),
        limits.valid() && mailbox_verdict(name) is Ok && uid > 0 && validity > 0 ==> transfer_verdict(
            name,
            uid,
            validity,
            part,
            limits,
        ) == part_path(part, limits),
        !limits.valid() || (mailbox_verdict(name) is Ok && (uid == 0 || validity == 0)) ==> transfer_verdict(
            name,
            uid,
            validity,
            part,
            limits,
        ) == Err::<Seq<u32>, Error>(Error::InvalidInput),
{
}

} // verus!
