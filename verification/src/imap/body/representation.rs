//! Bounded text rendering of a selected part.
use mail_parser::MimeHeaders;
use vstd::prelude::*;

use super::html::{render_html, rendered_html};
use super::selection::{
    content_id, imap_text, normalize_content_id, nth_path, optional_text_view, parameter,
    parameter_value, server_text, Choice, Selected,
};
use super::transfer::{
    base64_octets, decode_base64, decode_quoted_printable, quoted_printable_octets,
};
use crate::imap::mime::{
    attachment, child_path, is_attachment, is_bounded, part_count, parts_count, validate_structure,
};
use crate::imap::types::Structure;
use crate::imap::{Error, Limits};
use crate::text::{
    byte_len, copy_range, from_utf8_lossy, lossy_text, lower_text, lowered_text, same,
    same_text_ignoring_case, trim, trimmed, utf8_len,
};

verus! {

/// The text of a body, and how it came about.
#[derive(Debug)]
pub struct Rendered {
    pub text: String,
    pub converted: bool,
    pub replacements: bool,
    pub work: usize,
}

/// A rendered body as plain values.
pub struct Rendering {
    pub text: Seq<char>,
    pub converted: bool,
    pub replacements: bool,
    pub work: nat,
}

impl View for Rendered {
    type V = Rendering;

    open spec fn view(&self) -> Rendering {
        Rendering {
            text: self.text@,
            converted: self.converted,
            replacements: self.replacements,
            work: self.work as nat,
        }
    }
}

pub open spec fn rendered_view(found: Result<Rendered, Error>) -> Result<Rendering, Error> {
    match found {
        Ok(rendered) => Ok(rendered@),
        Err(error) => Err(error),
    }
}

/// The media type that a Content-Type header states.
#[derive(Debug)]
pub struct Media {
    pub kind: String,
    pub subtype: Option<String>,
    pub charset: Option<String>,
}

/// What the MIME headers of a part state.
#[derive(Debug)]
pub struct HeaderFacts {
    pub content_id: Option<String>,
    pub media: Option<Media>,
    pub transfer_encoding: Option<String>,
    pub disposition: Option<String>,
}

pub struct MediaView {
    pub kind: Seq<char>,
    pub subtype: Option<Seq<char>>,
    pub charset: Option<Seq<char>>,
}

pub struct HeaderView {
    pub content_id: Option<Seq<char>>,
    pub media: Option<MediaView>,
    pub transfer_encoding: Option<Seq<char>>,
    pub disposition: Option<Seq<char>>,
}

pub open spec fn seen(text: Option<String>) -> Option<Seq<char>> {
    match text {
        Some(text) => Some(text@),
        None => None,
    }
}

impl View for HeaderFacts {
    type V = HeaderView;

    open spec fn view(&self) -> HeaderView {
        HeaderView {
            content_id: seen(self.content_id),
            media: match self.media {
                Some(media) => Some(
                    MediaView {
                        kind: media.kind@,
                        subtype: seen(media.subtype),
                        charset: seen(media.charset),
                    },
                ),
                None => None,
            },
            transfer_encoding: seen(self.transfer_encoding),
            disposition: seen(self.disposition),
        }
    }
}

/// What a block of MIME headers states; nothing where it cannot be parsed.
pub uninterp spec fn parsed_headers(raw: Seq<u8>) -> Option<HeaderView>;

/// `mail_parser::MessageParser::parse_headers`, whose result the contract names: the text of the
/// Content-ID, the type, subtype and charset of the Content-Type, the Content-Transfer-Encoding and
/// the kind of the Content-Disposition of the first part. The parser counts nested comments in 32 bits.
#[verifier::external_body]
fn parse_headers(raw: &[u8]) -> (r: Option<HeaderFacts>)
    requires
        raw@.len() <= 0x7fff_ffff,
    ensures
        match r {
            Some(facts) => parsed_headers(raw@) == Some(facts@),
            None => parsed_headers(raw@) is None,
        },
{
    let message = mail_parser::MessageParser::default().parse_headers(raw)?;
    let part = message.parts.first()?;
    let id = mail_parser::GetHeader::header_value(&part.headers, &mail_parser::HeaderName::ContentId);
    Some(HeaderFacts {
        content_id: id.and_then(|value| value.as_text()).map(str::to_owned),
        media: part.content_type().map(|media| Media {
            kind: media.c_type.to_string(),
            subtype: media.c_subtype.as_deref().map(str::to_owned),
            charset: media.attribute("charset").map(str::to_owned),
        }),
        transfer_encoding: part.content_transfer_encoding().map(str::to_owned),
        disposition: part.content_disposition().map(|value| value.c_type.to_string()),
    })
}

/// The block ends with an empty line.
pub open spec fn is_complete_block(raw: Seq<u8>) -> bool {
    let n = raw.len() as int;
    ||| raw == seq![0x0du8, 0x0au8]
    ||| n >= 4 && raw[n - 4] == 0x0d && raw[n - 3] == 0x0a && raw[n - 2] == 0x0d && raw[n - 1]
        == 0x0a
    ||| n >= 2 && raw[n - 2] == 0x0a && raw[n - 1] == 0x0a
}

fn bare_line(raw: &[u8]) -> (r: bool)
    ensures
        r == (raw@ == seq![0x0du8, 0x0au8]),
{
    let bare = raw.len() == 2 && raw[0] == 0x0d && raw[1] == 0x0a;
    assert(bare ==> raw@ =~= seq![0x0du8, 0x0au8]);
    bare
}

pub fn complete_headers(raw: &[u8]) -> (r: bool)
    ensures
        r == is_complete_block(raw@),
{
    let n: usize = raw.len();
    bare_line(raw) || (n >= 4 && raw[n - 4] == 0x0d && raw[n - 3] == 0x0a && raw[n - 2] == 0x0d
        && raw[n - 1] == 0x0a) || (n >= 2 && raw[n - 2] == 0x0a && raw[n - 1] == 0x0a)
}

pub open spec fn text_or(text: Option<Seq<char>>, otherwise: Seq<char>) -> Seq<char> {
    match text {
        Some(text) => text,
        None => otherwise,
    }
}

/// The media type and charset that the headers state, with the defaults of MIME.
pub open spec fn stated_media(media: Option<MediaView>) -> (Seq<char>, Seq<char>) {
    match media {
        None => ("text/plain"@, "us-ascii"@),
        Some(media) => (
            lowered_text(media.kind) + "/"@ + lowered_text(text_or(media.subtype, "plain"@)),
            text_or(media.charset, "us-ascii"@),
        ),
    }
}

/// The headers of the part agree with the structure that it was chosen by.
pub open spec fn headers_agree(facts: HeaderView, selected: Choice) -> bool {
    let (media_type, charset) = stated_media(facts.media);
    &&& media_type == selected.media_type
    &&& lowered_text(trimmed(charset)) == lowered_text(selected.charset)
    &&& lowered_text(trimmed(text_or(facts.transfer_encoding, "7bit"@))) == lowered_text(
        selected.transfer_encoding,
    )
    &&& !(facts.disposition matches Some(kind) && lowered_text(kind) == lowered_text("attachment"@))
}

/// A selection that needs no headers at all.
pub open spec fn is_default_part(selected: Choice) -> bool {
    &&& selected.media_type == "text/plain"@
    &&& lowered_text(selected.charset) == lowered_text("us-ascii"@)
    &&& lowered_text(selected.transfer_encoding) == lowered_text("7bit"@)
}

/// The verdict on a block of headers, given what the parser makes of it.
pub open spec fn headers_verdict(
    raw: Seq<u8>,
    facts: Option<HeaderView>,
    selected: Option<Choice>,
    limits: Limits,
) -> Result<Option<Seq<char>>, Error> {
    if raw.len() == 0 || raw.len() > limits.max_header_bytes || !is_complete_block(raw) {
        Err(Error::Limit)
    } else if raw == seq![0x0du8, 0x0au8] {
        if selected matches Some(selected) && !is_default_part(selected) {
            Err(Error::Protocol)
        } else {
            Ok(None)
        }
    } else {
        match facts {
            None => Err(Error::Protocol),
            Some(facts) => {
                let id = match facts.content_id {
                    None => Ok(None),
                    Some(id) => match content_id(id) {
                        Err(error) => Err(error),
                        Ok(id) => Ok(Some(id)),
                    },
                };
                if id is Err || (selected matches Some(selected) && !headers_agree(
                    facts,
                    selected,
                )) {
                    Err(Error::Protocol)
                } else {
                    id
                }
            },
        }
    }
}

pub open spec fn choice_of(selected: Option<&Selected>) -> Option<Choice> {
    match selected {
        Some(selected) => Some(selected@),
        None => None,
    }
}

fn agree(facts: &HeaderFacts, selected: &Selected) -> (r: bool)
    ensures
        r == headers_agree(facts@, selected@),
{
    let (media_type, charset) = match &facts.media {
        None => ("text/plain".to_owned(), "us-ascii".to_owned()),
        Some(media) => {
            let mut media_type = lower_text(media.kind.as_str());
            media_type.push_str("/");
            let subtype = match &media.subtype {
                Some(subtype) => lower_text(subtype.as_str()),
                None => lower_text("plain"),
            };
            media_type.push_str(subtype.as_str());
            let charset = match &media.charset {
                Some(charset) => charset.clone(),
                None => "us-ascii".to_owned(),
            };
            (media_type, charset)
        },
    };
    assert((media_type@, charset@) == stated_media(facts@.media));
    let charset = trim(charset.as_str());
    let encoding = match &facts.transfer_encoding {
        Some(encoding) => trim(encoding.as_str()),
        None => trim("7bit"),
    };
    let attached = match &facts.disposition {
        Some(kind) => same_text_ignoring_case(kind.as_str(), "attachment"),
        None => false,
    };
    same(media_type.as_str(), selected.media_type.as_str()) && same_text_ignoring_case(
        charset.as_str(),
        selected.charset.as_str(),
    ) && same_text_ignoring_case(encoding.as_str(), selected.transfer_encoding.as_str())
        && !attached
}

fn default_part(selected: &Selected) -> (r: bool)
    ensures
        r == is_default_part(selected@),
{
    same(selected.media_type.as_str(), "text/plain") && same_text_ignoring_case(
        selected.charset.as_str(),
        "us-ascii",
    ) && same_text_ignoring_case(selected.transfer_encoding.as_str(), "7bit")
}

/// Judges a block of headers by what the parser made of it.
pub fn judge_headers(
    raw: &[u8],
    facts: Option<HeaderFacts>,
    selected: Option<&Selected>,
    limits: &Limits,
) -> (r: Result<Option<String>, Error>)
    ensures
        optional_text_view(r) == headers_verdict(
            raw@,
            match facts {
                Some(facts) => Some(facts@),
                None => None,
            },
            choice_of(selected),
            *limits,
        ),
{
    if raw.len() == 0 || raw.len() > limits.max_header_bytes || !complete_headers(raw) {
        return Err(Error::Limit);
    }
    if bare_line(raw) {
        return match selected {
            Some(selected) => if default_part(selected) {
                Ok(None)
            } else {
                Err(Error::Protocol)
            },
            None => Ok(None),
        };
    }
    let facts = match facts {
        Some(facts) => facts,
        None => {
            return Err(Error::Protocol);
        },
    };
    let id = match &facts.content_id {
        None => None,
        Some(id) => match normalize_content_id(id.as_str()) {
            Ok(id) => Some(id),
            Err(_) => {
                return Err(Error::Protocol);
            },
        },
    };
    match selected {
        Some(selected) => {
            if !agree(&facts, selected) {
                return Err(Error::Protocol);
            }
        },
        None => {},
    }
    Ok(id)
}

/// Validate a bounded MIME header block and return its normalized Content-ID, if present. When a
/// selection is supplied, the fetched MIME header must agree with the structure used to choose it.
pub fn validate_headers(raw: &[u8], selected: Option<&Selected>, limits: &Limits) -> (r: Result<
    Option<String>,
    Error,
>)
    requires
        raw@.len() <= limits.max_header_bytes ==> raw@.len() <= 0x7fff_ffff,
    ensures
        optional_text_view(r) == headers_verdict(
            raw@,
            parsed_headers(raw@),
            choice_of(selected),
            *limits,
        ),
{
    if raw.len() == 0 || raw.len() > limits.max_header_bytes || !complete_headers(raw) {
        return Err(Error::Limit);
    }
    judge_headers(raw, parse_headers(raw), selected, limits)
}

/// The octets of a body in this transfer encoding, and whether something of it was lost.
pub open spec fn transfer_octets(wire: Seq<u8>, encoding: Seq<char>) -> (Seq<u8>, bool) {
    let name = lowered_text(trimmed(encoding));
    if name == "7bit"@ || name == "8bit"@ || name == "binary"@ {
        (wire, false)
    } else if name == "base64"@ {
        base64_octets(wire)
    } else if name == "quoted-printable"@ {
        quoted_printable_octets(wire)
    } else {
        (wire, true)
    }
}

pub fn decode_transfer(wire: &[u8], encoding: &str) -> (r: (Vec<u8>, bool))
    ensures
        (r.0@, r.1) == transfer_octets(wire@, encoding@),
{
    let outer = trim(encoding);
    let name = lower_text(outer.as_str());
    let plain = same(name.as_str(), "7bit") || same(name.as_str(), "8bit") || same(
        name.as_str(),
        "binary",
    );
    if !plain && same(name.as_str(), "base64") {
        return decode_base64(wire);
    }
    if !plain && same(name.as_str(), "quoted-printable") {
        return decode_quoted_printable(wire);
    }
    let copy = copy_range(wire, 0, wire.len());
    assert(copy@ =~= wire@);
    (copy, !plain)
}

/// The text of `bytes` in the charset with this label, and whether something had to be replaced;
/// nothing where the label is unknown.
pub uninterp spec fn charset_decoded(label: Seq<char>, bytes: Seq<u8>) -> Option<(Seq<char>, bool)>;

/// `encoding_rs::Encoding::for_label` and `decode_without_bom_handling` on what it finds. The
/// contract names the decoded text and whether it holds replacements. The decoder panics where the
/// size of its buffer cannot be computed, so the input is bounded.
#[verifier::external_body]
fn decode_label(label: &str, bytes: &[u8]) -> (r: Option<(String, bool)>)
    requires
        bytes@.len() <= 0x1000_0000,
    ensures
        match r {
            Some((text, replaced)) => charset_decoded(label@, bytes@) == Some((text@, replaced)),
            None => charset_decoded(label@, bytes@) is None,
        },
{
    let encoding = encoding_rs::Encoding::for_label(label.as_bytes())?;
    let (text, replaced) = encoding.decode_without_bom_handling(bytes);
    Some((text.into_owned(), replaced))
}

/// The text of `bytes` in a charset. An unknown charset counts as a replacement.
pub open spec fn charset_text(bytes: Seq<u8>, charset: Seq<char>) -> (Seq<char>, bool) {
    match charset_decoded(trimmed(charset), bytes) {
        Some(decoded) => decoded,
        None => (lossy_text(bytes), true),
    }
}

pub fn decode_charset(bytes: &[u8], charset: &str) -> (r: (String, bool))
    requires
        bytes@.len() <= 0x1000_0000,
    ensures
        (r.0@, r.1) == charset_text(bytes@, charset@),
{
    let label = trim(charset);
    match decode_label(label.as_str(), bytes) {
        Some(decoded) => decoded,
        None => (from_utf8_lossy(bytes), true),
    }
}

/// The text of a decoded part, marked where something of the message was lost.
pub open spec fn marked(text: Seq<char>, replaced: bool) -> Seq<char> {
    if replaced {
        seq!['\u{fffd}'] + text
    } else {
        text
    }
}

/// What a selected part is rendered to.
pub open spec fn rendering(selected: Choice, wire: Seq<u8>, limits: Limits) -> Result<
    Rendering,
    Error,
> {
    let length = wire.len();
    if length > limits.max_body_wire_bytes || selected.wire_size > limits.max_body_wire_bytes
        || length > limits.max_decoded_bytes || length * 5 > limits.max_decode_steps {
        Err(Error::Limit)
    } else {
        let (octets, lost) = transfer_octets(wire, selected.transfer_encoding);
        if octets.len() > limits.max_decoded_bytes / 3 || length + octets.len() * 4
            > limits.max_decode_steps {
            Err(Error::Limit)
        } else {
            let (decoded, replaced) = charset_text(octets, selected.charset);
            let text = marked(decoded, lost || replaced);
            let work = length + octets.len() + utf8_len(text);
            if work > limits.max_decode_steps {
                Err(Error::Limit)
            } else if selected.media_type == "text/html"@ {
                match rendered_html(text, limits, work) {
                    Err(error) => Err(error),
                    Ok((plain, total)) => if utf8_len(plain) > limits.max_decoded_bytes {
                        Err(Error::Limit)
                    } else {
                        Ok(
                            Rendering {
                                text: plain,
                                converted: true,
                                replacements: lost || replaced,
                                work: total,
                            },
                        )
                    },
                }
            } else if utf8_len(text) > limits.max_decoded_bytes {
                Err(Error::Limit)
            } else {
                Ok(Rendering { text, converted: false, replacements: lost || replaced, work })
            }
        }
    }
}

fn mark(text: String, replaced: bool) -> (r: String)
    ensures
        r@ == marked(text@, replaced),
{
    if replaced {
        let mut out = String::new();
        out.push('\u{fffd}');
        out.push_str(text.as_str());
        assert(out@ =~= seq!['\u{fffd}'] + text@);
        out
    } else {
        text
    }
}

/// Renders the wire form of a selected part. Every pass over the body is admitted before it starts.
pub fn render(selected: &Selected, wire: &[u8], limits: &Limits) -> (r: Result<Rendered, Error>)
    requires
        limits.valid(),
    ensures
        rendered_view(r) == rendering(selected@, wire@, *limits),
{
    let length: usize = wire.len();
    if length > limits.max_body_wire_bytes || selected.wire_size > limits.max_body_wire_bytes
        || length > limits.max_decoded_bytes || length * 5 > limits.max_decode_steps {
        return Err(Error::Limit);
    }
    let (octets, lost) = decode_transfer(wire, selected.transfer_encoding.as_str());
    if octets.len() > limits.max_decoded_bytes / 3 || length + octets.len() * 4
        > limits.max_decode_steps {
        return Err(Error::Limit);
    }
    let (decoded, replaced) = decode_charset(octets.as_slice(), selected.charset.as_str());
    let text = mark(decoded, lost || replaced);
    let size: usize = byte_len(text.as_str());
    if size > limits.max_decode_steps - (length + octets.len()) {
        return Err(Error::Limit);
    }
    let work: usize = length + octets.len() + size;
    if same(selected.media_type.as_str(), "text/html") {
        let (plain, total) = match render_html(text.as_str(), limits, work) {
            Ok(found) => found,
            Err(error) => {
                return Err(error);
            },
        };
        if byte_len(plain.as_str()) > limits.max_decoded_bytes {
            return Err(Error::Limit);
        }
        return Ok(
            Rendered { text: plain, converted: true, replacements: lost || replaced, work: total },
        );
    }
    if size > limits.max_decoded_bytes {
        return Err(Error::Limit);
    }
    Ok(Rendered { text, converted: false, replacements: lost || replaced, work })
}

/// A rendered body never exceeds the ceilings, and a lossy one begins with the replacement
/// character unless it was converted.
pub proof fn renderings_are_bounded(selected: Choice, wire: Seq<u8>, limits: Limits)
    requires
        rendering(selected, wire, limits) is Ok,
    ensures
        ({
            let rendered = rendering(selected, wire, limits)->Ok_0;
            &&& utf8_len(rendered.text) <= limits.max_decoded_bytes
            &&& rendered.work <= limits.max_decode_steps
            &&& rendered.converted == (selected.media_type == "text/html"@)
            &&& rendered.replacements && !rendered.converted ==> rendered.text.len() > 0
                && rendered.text[0] == '\u{fffd}'
        }),
{
}

/// The parts whose MIME headers can name the root of a related multipart, below one structure.
pub open spec fn related_paths(structure: Structure, path: Seq<u32>) -> Result<
    Seq<Seq<u32>>,
    Error,
>
    decreases structure,
{
    match structure {
        Structure::Single { .. } => Ok(Seq::empty()),
        Structure::Multi { bodies, subtype, parameters, disposition } => if is_attachment(
            disposition,
        ) {
            Ok(Seq::empty())
        } else {
            match server_text(subtype@) {
                Err(error) => Err(error),
                Ok(subtype) => if lowered_text(subtype) == lowered_text("related"@) {
                    match parameter_value(parameters@, "start"@, 0) {
                        Err(error) => Err(error),
                        Ok(start) => children_paths(
                            bodies@,
                            path,
                            start is Some,
                            bodies@.len(),
                        ),
                    }
                } else {
                    children_paths(bodies@, path, false, bodies@.len())
                },
            }
        },
    }
}

/// Those parts among the first `count` children and below them.
pub open spec fn children_paths(
    bodies: Seq<Structure>,
    path: Seq<u32>,
    related: bool,
    count: nat,
) -> Result<Seq<Seq<u32>>, Error>
    decreases bodies, count,
{
    if count == 0 || count > bodies.len() {
        Ok(Seq::empty())
    } else {
        match children_paths(bodies, path, related, (count - 1) as nat) {
            Err(error) => Err(error),
            Ok(before) => match related_paths(bodies[count - 1], nth_path(path, count - 1)) {
                Err(error) => Err(error),
                Ok(below) => if related && bodies[count - 1] is Multi {
                    Ok(before.push(nth_path(path, count - 1)) + below)
                } else {
                    Ok(before + below)
                },
            },
        }
    }
}

proof fn children_paths_fail_on(
    bodies: Seq<Structure>,
    path: Seq<u32>,
    related: bool,
    few: nat,
    many: nat,
)
    requires
        few <= many <= bodies.len(),
        children_paths(bodies, path, related, few) is Err,
    ensures
        children_paths(bodies, path, related, many) == children_paths(bodies, path, related, few),
    decreases many,
{
    if few < many {
        children_paths_fail_on(bodies, path, related, few, (many - 1) as nat);
    }
}

pub open spec fn path_views(paths: Seq<Vec<u32>>) -> Seq<Seq<u32>> {
    paths.map_values(|path: Vec<u32>| path@)
}

proof fn more_parts_than_children(bodies: Seq<Structure>, count: nat)
    requires
        count <= bodies.len(),
    ensures
        count <= parts_count(bodies, count),
        forall|i: int|
            0 <= i < count ==> part_count(#[trigger] bodies[i]) <= parts_count(bodies, count),
    decreases count,
{
    if count > 0 {
        more_parts_than_children(bodies, (count - 1) as nat);
        assert(part_count(bodies[count - 1]) >= 1);
    }
}

fn collect_related(structure: &Structure, path: &Vec<u32>, paths: &mut Vec<Vec<u32>>) -> (r: Result<
    (),
    Error,
>)
    requires
        part_count(*structure) <= u32::MAX,
    ensures
        match r {
            Ok(()) => related_paths(*structure, path@) matches Ok(found) && path_views(
                final(paths)@,
            ) == path_views(old(paths)@) + found,
            Err(error) => related_paths(*structure, path@) == Err::<Seq<Seq<u32>>, Error>(error),
        },
    decreases structure,
{
    match structure {
        Structure::Single { .. } => {
            assert(path_views(paths@) =~= path_views(paths@) + Seq::empty());
            Ok(())
        },
        Structure::Multi { bodies, subtype, parameters, disposition } => {
            if attachment(disposition) {
                assert(path_views(paths@) =~= path_views(paths@) + Seq::empty());
                return Ok(());
            }
            let subtype = match imap_text(subtype) {
                Ok(subtype) => subtype,
                Err(error) => {
                    return Err(error);
                },
            };
            let related = if same_text_ignoring_case(subtype.as_str(), "related") {
                match parameter(parameters, "start") {
                    Ok(start) => start.is_some(),
                    Err(error) => {
                        return Err(error);
                    },
                }
            } else {
                false
            };
            let ghost before = path_views(paths@);
            let ghost all = related_paths(*structure, path@);
            proof {
                more_parts_than_children(bodies@, bodies@.len());
                assert(before =~= before + Seq::empty());
                assert(all == children_paths(bodies@, path@, related, bodies@.len()));
            }
            let mut i: usize = 0;
            while i < bodies.len()
                invariant
                    i <= bodies@.len() <= u32::MAX,
                    *structure matches Structure::Multi { bodies: every, .. } && every == *bodies,
                    forall|j: int| 0 <= j < bodies@.len() ==> part_count(#[trigger] bodies@[j])
                        <= u32::MAX,
                    all == related_paths(*structure, path@),
                    all == children_paths(bodies@, path@, related, bodies@.len()),
                    before == path_views(old(paths)@),
                    children_paths(bodies@, path@, related, i as nat) matches Ok(found)
                        && path_views(paths@) == before + found,
                decreases bodies@.len() - i,
            {
                let ghost found = children_paths(bodies@, path@, related, i as nat)->Ok_0;
                let child = match child_path(path, i + 1) {
                    Ok(child) => child,
                    Err(error) => {
                        return Err(error);
                    },
                };
                assert(child@ == nth_path(path@, i as int));
                let named = related && matches!(&bodies[i], Structure::Multi { .. });
                if named {
                    let copy = child.clone();
                    assert(copy@ =~= child@);
                    let ghost earlier = path_views(paths@);
                    paths.push(copy);
                    assert(path_views(paths@) =~= earlier.push(child@));
                    assert(path_views(paths@) =~= before + found.push(child@));
                }
                match collect_related(&bodies[i], &child, paths) {
                    Ok(()) => {
                        let ghost below = related_paths(bodies@[i as int], child@)->Ok_0;
                        assert(path_views(paths@) =~= before + (if named {
                            found.push(child@) + below
                        } else {
                            found + below
                        }));
                    },
                    Err(error) => {
                        proof {
                            children_paths_fail_on(
                                bodies@,
                                path@,
                                related,
                                (i + 1) as nat,
                                bodies@.len(),
                            );
                        }
                        return Err(error);
                    },
                }
                i = i + 1;
            }
            Ok(())
        },
    }
}

/// Return only the direct children whose MIME headers can establish a related root.
pub fn related_multipart_headers(structure: &Structure, limits: &Limits) -> (r: Result<
    Vec<Vec<u32>>,
    Error,
>)
    requires
        limits.valid(),
    ensures
        match r {
            Ok(paths) => is_bounded(*structure, *limits) && related_paths(*structure, Seq::empty())
                == Ok::<Seq<Seq<u32>>, Error>(path_views(paths@)),
            Err(error) => if is_bounded(*structure, *limits) {
                related_paths(*structure, Seq::empty()) == Err::<Seq<Seq<u32>>, Error>(error)
            } else {
                error == Error::Limit
            },
        },
{
    match validate_structure(structure, limits) {
        Err(error) => {
            return Err(error);
        },
        Ok(()) => {},
    }
    let root: Vec<u32> = Vec::new();
    assert(root@ =~= Seq::<u32>::empty());
    let mut paths: Vec<Vec<u32>> = Vec::new();
    match collect_related(structure, &root, &mut paths) {
        Ok(()) => {
            assert(path_views(paths@) =~= related_paths(*structure, Seq::empty())->Ok_0);
            Ok(paths)
        },
        Err(error) => Err(error),
    }
}

/// The four encodings of a body are known by their names, in any case and with white space around them:
/// the plain ones keep every byte, and an unknown one keeps the bytes and counts them as damaged.
pub proof fn encodings_go_by_their_names(wire: Seq<u8>, encoding: Seq<char>)
    ensures
        ({
            let name = lowered_text(trimmed(encoding));
            let (octets, lost) = transfer_octets(wire, encoding);
            &&& name == "7bit"@ || name == "8bit"@ || name == "binary"@ ==> octets == wire && !lost
            &&& name == "base64"@ ==> (octets, lost) == base64_octets(wire)
            &&& name == "quoted-printable"@ ==> (octets, lost) == quoted_printable_octets(wire)
            &&& name != "7bit"@ && name != "8bit"@ && name != "binary"@ && name != "base64"@ && name
                != "quoted-printable"@ ==> octets == wire && lost
        }),
{
    reveal_strlit("7bit");
    reveal_strlit("8bit");
    reveal_strlit("binary");
    reveal_strlit("base64");
    reveal_strlit("quoted-printable");
    assert("7bit"@.len() == 4 && "8bit"@.len() == 4 && "quoted-printable"@.len() == 16);
    assert("binary"@[0] != "base64"@[0] || "binary"@[1] != "base64"@[1]);
}

/// A text that lost something in decoding begins with a replacement character and says so; one that lost
/// nothing is what the characters say. Only HTML is converted.
pub proof fn losses_are_marked(selected: Choice, wire: Seq<u8>, limits: Limits)
    ensures
        rendering(selected, wire, limits) matches Ok(shown) ==> {
            let (octets, lost) = transfer_octets(wire, selected.transfer_encoding);
            let (decoded, replaced) = charset_text(octets, selected.charset);
            &&& shown.replacements <==> (lost || replaced)
            &&& shown.converted <==> selected.media_type == "text/html"@
            &&& !shown.converted && shown.replacements ==> shown.text.len() == decoded.len() + 1 && shown.text[0]
                == '\u{fffd}' && shown.text.skip(1) == decoded
            &&& !shown.converted && !shown.replacements ==> shown.text == decoded
            &&& shown.work >= wire.len() + octets.len() + utf8_len(decoded) || shown.converted
                || shown.replacements
        },
        wire.len() > limits.max_body_wire_bytes || selected.wire_size > limits.max_body_wire_bytes || wire.len()
            > limits.max_decoded_bytes ==> rendering(selected, wire, limits) == Err::<Rendering, Error>(
            Error::Limit,
        ),
{
    if let Ok(shown) = rendering(selected, wire, limits) {
        let (octets, lost) = transfer_octets(wire, selected.transfer_encoding);
        let (decoded, replaced) = charset_text(octets, selected.charset);
        if lost || replaced {
            assert(marked(decoded, true).skip(1) =~= decoded);
        }
    }
}

/// A block of header lines is complete where an empty line ends it, and it ends nowhere else.
pub proof fn blocks_end_with_an_empty_line(lines: Seq<u8>)
    ensures
        is_complete_block(seq![0x0du8, 0x0au8]),
        is_complete_block(lines + seq![0x0du8, 0x0au8, 0x0du8, 0x0au8]),
        is_complete_block(lines + seq![0x0au8, 0x0au8]),
        is_complete_block(lines) && lines.len() > 2 ==> {
            let n = lines.len() as int;
            ||| lines.subrange(n - 2, n) == seq![0x0au8, 0x0au8]
            ||| n >= 4 && lines.subrange(n - 4, n) == seq![0x0du8, 0x0au8, 0x0du8, 0x0au8]
        },
        lines.len() < 2 ==> !is_complete_block(lines),
{
    if is_complete_block(lines) && lines.len() > 2 {
        let n = lines.len() as int;
        if lines[n - 2] == 0x0a {
            assert(lines.subrange(n - 2, n) =~= seq![0x0au8, 0x0au8]);
        } else {
            assert(lines.subrange(n - 4, n) =~= seq![0x0du8, 0x0au8, 0x0du8, 0x0au8]);
        }
    }
}

/// The headers of a part that is shown have to state what the server said of it: the type, the character
/// set and the encoding, where those that are not stated are plain text in ASCII without an encoding.
/// Headers that call the part an attachment are refused.
pub proof fn headers_must_agree(raw: Seq<u8>, facts: HeaderView, selected: Choice, limits: Limits)
    requires
        0 < raw.len() <= limits.max_header_bytes,
        is_complete_block(raw),
        raw != seq![0x0du8, 0x0au8],
        facts.content_id is None,
    ensures
        ({
            let verdict = headers_verdict(raw, Some(facts), Some(selected), limits);
            &&& verdict == Ok::<Option<Seq<char>>, Error>(None) || verdict == Err::<Option<Seq<char>>, Error>(
                Error::Protocol,
            )
            &&& facts.disposition matches Some(kind) ==> lowered_text(kind) == "attachment"@ ==> verdict is Err
            &&& facts.media is None && selected.media_type != "text/plain"@ ==> verdict is Err
            &&& facts.media matches Some(media) ==> media.subtype matches Some(subtype)
                ==> selected.media_type != lowered_text(media.kind) + seq!['/'] + lowered_text(subtype)
                ==> verdict is Err
            &&& facts.transfer_encoding is None && lowered_text(selected.transfer_encoding) != "7bit"@
                ==> verdict is Err
            &&& facts.transfer_encoding matches Some(encoding) ==> lowered_text(trimmed(encoding))
                != lowered_text(selected.transfer_encoding) ==> verdict is Err
            &&& facts.media is None && facts.transfer_encoding is None && facts.disposition is None
                && selected.media_type == "text/plain"@ && selected.charset == "us-ascii"@
                && selected.transfer_encoding == "7bit"@ ==> verdict is Ok
        }),
        headers_verdict(raw, None, Some(selected), limits) == Err::<Option<Seq<char>>, Error>(Error::Protocol),
{
    plain_words_are_kept();
    assert("/"@ =~= seq!['/']) by {
        reveal_strlit("/");
    }
}

proof fn plain_words_are_kept()
    ensures
        lowered_text("attachment"@) == "attachment"@,
        lowered_text("7bit"@) == "7bit"@,
        trimmed("7bit"@) == "7bit"@,
        lowered_text("us-ascii"@) == "us-ascii"@,
        trimmed("us-ascii"@) == "us-ascii"@,
{
    reveal_strlit("attachment");
    reveal_strlit("7bit");
    reveal_strlit("us-ascii");
    assert(lowered_text("attachment"@) =~= "attachment"@);
    assert(lowered_text("7bit"@) =~= "7bit"@);
    assert(lowered_text("us-ascii"@) =~= "us-ascii"@);
}

/// A part without headers of its own is plain ASCII text without an encoding: where the server said
/// anything else of it, its empty header is refused. Headers beyond the limit are refused too.
pub proof fn empty_headers_mean_plain_text(facts: Option<HeaderView>, selected: Choice, limits: Limits, raw: Seq<u8>)
    requires
        limits.max_header_bytes >= 2,
    ensures
        headers_verdict(seq![0x0du8, 0x0au8], facts, None, limits) == Ok::<Option<Seq<char>>, Error>(None),
        headers_verdict(seq![0x0du8, 0x0au8], facts, Some(selected), limits) is Ok <==> selected.media_type
            == "text/plain"@ && lowered_text(selected.charset) == "us-ascii"@ && lowered_text(
            selected.transfer_encoding,
        ) == "7bit"@,
        raw.len() > limits.max_header_bytes || raw.len() == 0 ==> headers_verdict(raw, facts, Some(selected), limits)
            == Err::<Option<Seq<char>>, Error>(Error::Limit),
{
    plain_words_are_kept();
}

/// The parts whose headers have to be read before a part is chosen are multiparts directly below a
/// related one that names its root; a single part and an attachment have none.
pub proof fn only_related_parts_are_looked_into(structure: Structure, path: Seq<u32>)
    ensures
        structure is Single ==> related_paths(structure, path) == Ok::<Seq<Seq<u32>>, Error>(Seq::empty()),
        structure matches Structure::Multi { bodies, disposition, .. } ==> (is_attachment(disposition)
            ==> related_paths(structure, path) == Ok::<Seq<Seq<u32>>, Error>(Seq::empty())) && (bodies@.len() == 0
            && !is_attachment(disposition) ==> (related_paths(structure, path) matches Ok(paths) ==> paths.len() == 0)),
{
    reveal_with_fuel(children_paths, 2);
}

} // verus!
