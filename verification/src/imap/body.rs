//! A bounded body read owns selection, byte retrieval, representation, and continuation.
use vstd::prelude::*;
use vstd::utf8::{encode_utf8, encode_utf8_decode_utf8, is_char_boundary};

use super::endpoint::{prefixed, prefixed_texts_are_told_apart, push_prefixed};
use super::fetch::Fetch;
use super::mime::{is_bounded, part_name, part_text};
use super::types::{Item, Section, Structure};
use super::{mailbox, mailbox_verdict, Error, Limits, Metrics};
use crate::config;
use crate::digest::{digest, sha256};
use crate::text::{same_bytes, utf8_len};

pub mod chunks;
pub mod html;
pub mod page;
pub mod representation;
pub mod selection;
pub mod transfer;

use chunks::Chunks;
use page::{cut_page, encodings_join, page_end, pages_are_cut_between_characters};
use representation::{
    headers_verdict, parsed_headers, path_views, related_multipart_headers, related_paths, render,
    rendering, validate_headers, Rendered, Rendering,
};
use selection::{select, selection, shown, Choice, PartId, Selected};

verus! {

/// Names the rules by which a text is made of a message, so that a continuation never crosses two
/// versions of them.
pub const REPRESENTATION: &'static str = "mailctl-body-1/mail-parser-0.11.8/html2text-0.17.1";

/// Continuation of a body read. It is revalidated after each fetch.
#[derive(Clone, Copy, Debug)]
pub struct BodyCursor {
    fingerprint: [u8; 32],
    offset: usize,
}

/// Where a continuation starts, and the text that it belongs to.
pub struct CursorView {
    pub fingerprint: Seq<u8>,
    pub offset: nat,
}

impl View for BodyCursor {
    type V = CursorView;

    closed spec fn view(&self) -> CursorView {
        CursorView { fingerprint: self.fingerprint@, offset: self.offset as nat }
    }
}

#[derive(Clone, Copy, Debug)]
pub struct BodyRequest {
    pub uid: u32,
    pub uid_validity: u32,
    pub continuation: Option<BodyCursor>,
}

impl BodyRequest {
    pub fn new(uid: u32, uid_validity: u32) -> (r: Self)
        ensures
            r.uid == uid,
            r.uid_validity == uid_validity,
            r.continuation is None,
    {
        BodyRequest { uid, uid_validity, continuation: None }
    }
}

#[derive(Debug)]
pub struct BodyPage {
    pub text: String,
    pub selected_part: Option<String>,
    pub source_media_type: Option<String>,
    pub representation_version: String,
    pub converted: bool,
    pub replacements: bool,
    pub truncated: bool,
    pub continuation: Option<BodyCursor>,
    pub metrics: Metrics,
}

/// What a reader waits for.
#[derive(Debug)]
pub enum Phase {
    Selection,
    Description,
    Headers,
    Content,
    Closed,
}

/// One body read: the state between two commands. The transport performs the command that each step
/// returns and hands back its answer.
#[derive(Debug)]
pub struct BodyReader {
    pub request: BodyRequest,
    pub limits: Limits,
    pub phase: Phase,
    pub structure: Option<Structure>,
    pub size: u32,
    /// The section that is being read, and its pieces.
    pub reading: Option<Chunks>,
    pub section: Option<Section>,
    pub header_bytes: usize,
    pub root_headers: Vec<u8>,
    /// Parts whose MIME headers are still to be read, the next one last.
    pub pending: Vec<Vec<u32>>,
    pub ids: Vec<PartId>,
    pub selected: Option<Selected>,
    pub whole: bool,
    pub body: Vec<u8>,
    pub rendered: Option<Rendered>,
}

/// The next command of a body read.
#[derive(Debug)]
pub enum Step {
    Fetch(Fetch),
    Close,
}

pub open spec fn ends_line(value: Seq<u8>) -> bool {
    value.len() >= 2 && value[value.len() - 2] == 0x0d && value[value.len() - 1] == 0x0a
}

/// A complete block of headers as it is used: with an empty line at its end.
pub open spec fn closed_headers(value: Seq<u8>, used: nat, limits: Limits) -> Result<
    Seq<u8>,
    Error,
> {
    let n = value.len() as int;
    if !ends_line(value) {
        Err(Error::Protocol)
    } else if n == 2 || (n >= 4 && value[n - 4] == 0x0d && value[n - 3] == 0x0a) {
        Ok(value)
    } else if used + n + 2 > limits.max_header_bytes {
        Err(Error::Limit)
    } else {
        Ok(value + seq![0x0du8, 0x0au8])
    }
}

/// GreenMail omits the empty separator from complete HEADER/MIME sections. The short partial
/// response has already established the end; supply only that missing separator, within the shared
/// header budget.
pub fn close_headers(value: Vec<u8>, used: usize, limits: &Limits) -> (r: Result<Vec<u8>, Error>)
    requires
        used + value@.len() <= limits.max_header_bytes,
        limits.valid(),
    ensures
        match r {
            Ok(headers) => closed_headers(value@, used as nat, *limits) == Ok::<Seq<u8>, Error>(
                headers@,
            ) && used + headers@.len() <= limits.max_header_bytes,
            Err(error) => closed_headers(value@, used as nat, *limits) == Err::<Seq<u8>, Error>(
                error,
            ),
        },
{
    let n: usize = value.len();
    if n < 2 || value[n - 2] != 0x0d || value[n - 1] != 0x0a {
        return Err(Error::Protocol);
    }
    if n == 2 || (n >= 4 && value[n - 4] == 0x0d && value[n - 3] == 0x0a) {
        return Ok(value);
    }
    if used + n + 2 > limits.max_header_bytes {
        return Err(Error::Limit);
    }
    let ghost before = value@;
    let mut value = value;
    value.push(0x0d);
    value.push(0x0a);
    assert(value@ =~= before + seq![0x0du8, 0x0au8]);
    Ok(value)
}

/// Where the body starts in a complete message: right behind its headers.
pub open spec fn body_in(whole: Seq<u8>, headers: Seq<u8>, wire_size: nat) -> Result<Seq<u8>, Error> {
    if headers.is_prefix_of(whole) && whole.len() - headers.len() <= wire_size {
        Ok(whole.skip(headers.len() as int))
    } else {
        Err(Error::Protocol)
    }
}

/// The body of a complete message whose headers were read before.
pub fn body_of(whole: &Vec<u8>, headers: &Vec<u8>, wire_size: usize) -> (r: Result<Vec<u8>, Error>)
    ensures
        match r {
            Ok(body) => body_in(whole@, headers@, wire_size as nat) == Ok::<Seq<u8>, Error>(body@),
            Err(error) => body_in(whole@, headers@, wire_size as nat) == Err::<Seq<u8>, Error>(
                error,
            ),
        },
{
    let n: usize = headers.len();
    if whole.len() < n || whole.len() - n > wire_size {
        return Err(Error::Protocol);
    }
    let start = vstd::slice::slice_subrange(whole.as_slice(), 0, n);
    if !same_bytes(start, headers.as_slice()) {
        assert(!headers@.is_prefix_of(whole@)) by {
            if headers@.is_prefix_of(whole@) {
                assert(start@ =~= headers@);
            }
        }
        return Err(Error::Protocol);
    }
    assert(headers@.is_prefix_of(whole@)) by {
        assert(headers@ =~= whole@.subrange(0, headers@.len() as int));
    }
    let body = crate::text::copy_range(whole.as_slice(), n, whole.len());
    assert(body@ =~= whole@.skip(n as int));
    Ok(body)
}

impl Limits {
    /// The IMAP limits under which bodies are read.
    pub fn body(limits: &config::Limits) -> (r: Limits)
        ensures
            r == (Limits {
                max_body_wire_bytes: limits.wire_fetch_bytes,
                max_header_bytes: limits.header_bytes,
                max_nesting: limits.mime_depth,
                max_mime_parts: limits.mime_parts,
                max_text_bytes: limits.text_page_bytes,
                max_operation_bytes: 16777216,
                max_response_bytes: 262144,
                max_literal_bytes: 65536,
                ..Limits::standard()
            }),
    {
        let mut out = Limits::default();
        out.max_body_wire_bytes = limits.wire_fetch_bytes;
        out.max_header_bytes = limits.header_bytes;
        out.max_nesting = limits.mime_depth;
        out.max_mime_parts = limits.mime_parts;
        out.max_text_bytes = limits.text_page_bytes;
        out.max_operation_bytes = 16 * 1024 * 1024;
        out.max_response_bytes = 256 * 1024;
        out.max_literal_bytes = 64 * 1024;
        out
    }
}

/// A number in four bytes, the most significant first.
pub open spec fn four_bytes(value: u32) -> Seq<u8> {
    seq![
        (value / 0x100_0000) as u8,
        (value / 0x1_0000 % 256) as u8,
        (value / 0x100 % 256) as u8,
        (value % 256) as u8,
    ]
}

fn push_four(out: &mut Vec<u8>, value: u32)
    ensures
        final(out)@ == old(out)@ + four_bytes(value),
{
    let ghost before = out@;
    out.push((value / 0x100_0000) as u8);
    out.push((value / 0x1_0000 % 256) as u8);
    out.push((value / 0x100 % 256) as u8);
    out.push((value % 256) as u8);
    assert(out@ =~= before + four_bytes(value));
}

/// What a body was read from and how: the user at the server, the mailbox, the rules by which the text
/// is made, the message, and the limits as they are shown.
pub open spec fn context_bytes(
    host: Seq<char>,
    user: Seq<char>,
    name: Seq<char>,
    port: u16,
    request: BodyRequest,
    limits: Seq<char>,
) -> Seq<u8> {
    prefixed(host) + prefixed(user) + prefixed(name) + prefixed(REPRESENTATION@) + seq![
        (port / 256) as u8,
        (port % 256) as u8,
    ] + four_bytes(request.uid) + four_bytes(request.uid_validity) + encode_utf8(limits)
}

/// The bytes that bind a continuation to the circumstances of the read it continues.
pub fn read_context(
    host: &str,
    user: &str,
    name: &str,
    port: u16,
    request: &BodyRequest,
    limits: &str,
) -> (r: Vec<u8>)
    ensures
        r@ == context_bytes(host@, user@, name@, port, *request, limits@),
{
    let mut out: Vec<u8> = Vec::new();
    push_prefixed(&mut out, host);
    push_prefixed(&mut out, user);
    push_prefixed(&mut out, name);
    push_prefixed(&mut out, REPRESENTATION);
    out.push((port / 256) as u8);
    out.push((port % 256) as u8);
    push_four(&mut out, request.uid);
    push_four(&mut out, request.uid_validity);
    let mut shown = crate::text::copy_range(limits.as_bytes(), 0, limits.as_bytes().len());
    out.append(&mut shown);
    assert(out@ =~= context_bytes(host@, user@, name@, port, *request, limits@));
    out
}

/// The bytes that a continuation is bound to: everything that the text was made of, and the text.
pub open spec fn fingerprint_input(
    context: Seq<u8>,
    body: Seq<u8>,
    selected: Option<Choice>,
    text: Seq<char>,
) -> Seq<u8> {
    match selected {
        Some(selected) => context + body + encode_utf8(part_text(selected.part)) + encode_utf8(
            selected.media_type,
        ) + encode_utf8(selected.charset) + encode_utf8(selected.transfer_encoding) + encode_utf8(
            text,
        ),
        None => context + encode_utf8(text),
    }
}

/// Where the requested page starts, if the continuation still fits the text.
pub open spec fn page_start(
    continuation: Option<BodyCursor>,
    fingerprint: Seq<u8>,
    bytes: Seq<u8>,
) -> Result<int, Error> {
    match continuation {
        None => Ok(0),
        Some(cursor) => if cursor@.fingerprint == fingerprint && is_char_boundary(
            bytes,
            cursor@.offset as int,
        ) && cursor@.offset < bytes.len() {
            Ok(cursor@.offset as int)
        } else {
            Err(Error::StaleCursor)
        },
    }
}

/// One page of a text: the bytes between two character boundaries, and a continuation where more
/// follows.
#[derive(Debug)]
pub struct Cut {
    pub text: String,
    pub continuation: Option<BodyCursor>,
}

/// Cuts the requested page out of a text.
pub fn cut(
    text: &str,
    fingerprint: [u8; 32],
    continuation: Option<BodyCursor>,
    limits: &Limits,
) -> (r: Result<Cut, Error>)
    requires
        limits.max_text_bytes >= 4,
    ensures
        ({
            let bytes = encode_utf8(text@);
            let start = page_start(continuation, fingerprint@, bytes);
            match r {
                Err(error) => start == Err::<int, Error>(error),
                Ok(page) => {
                    &&& start is Ok
                    &&& {
                        let end = page_end(bytes, start->Ok_0, limits.max_text_bytes as int);
                        &&& encode_utf8(page.text@) == bytes.subrange(start->Ok_0, end)
                        &&& end < bytes.len() ==> (page.continuation matches Some(cursor)
                            && cursor@.fingerprint == fingerprint@ && cursor@.offset == end
                            && is_char_boundary(bytes, end))
                        &&& end >= bytes.len() ==> page.continuation is None
                    }
                },
            }
        }),
{
    let length: usize = text.as_bytes().len();
    proof {
        vstd::utf8::encode_utf8_valid_utf8(text@);
        vstd::utf8::is_char_boundary_start_end_of_seq(encode_utf8(text@));
    }
    let offset: usize = match continuation {
        None => 0,
        Some(cursor) => {
            if !same_bytes(cursor.fingerprint.as_slice(), fingerprint.as_slice())
                || !text.is_char_boundary(cursor.offset) || cursor.offset >= length {
                return Err(Error::StaleCursor);
            }
            cursor.offset
        },
    };
    let (page, end) = cut_page(text, offset, limits.max_text_bytes);
    let continuation = if end < length {
        Some(BodyCursor { fingerprint, offset: end })
    } else {
        None
    };
    Ok(Cut { text: page, continuation })
}

/// A page that ends early is continued where it ended, as long as the message and its rendering stay
/// the same.
pub proof fn continuations_resume(
    text: Seq<char>,
    fingerprint: Seq<u8>,
    cursor: BodyCursor,
    end: int,
)
    requires
        cursor@.fingerprint == fingerprint,
        cursor@.offset == end,
        end < encode_utf8(text).len(),
        is_char_boundary(encode_utf8(text), end),
    ensures
        page_start(Some(cursor), fingerprint, encode_utf8(text)) == Ok::<int, Error>(end),
{
}

/// A continuation is refused as soon as anything that it is bound to has changed.
pub proof fn changed_bodies_refuse_continuations(
    cursor: BodyCursor,
    fingerprint: Seq<u8>,
    bytes: Seq<u8>,
)
    requires
        cursor@.fingerprint != fingerprint,
    ensures
        page_start(Some(cursor), fingerprint, bytes) == Err::<int, Error>(Error::StaleCursor),
{
}

/// The page is the answer to a read of a text with this fingerprint, with the continuation that was
/// sent along: what stands between two character boundaries, and a continuation where more follows.
pub open spec fn is_page(
    page: BodyPage,
    continuation: Option<BodyCursor>,
    text: Seq<char>,
    fingerprint: Seq<u8>,
    maximum: int,
) -> bool {
    let bytes = encode_utf8(text);
    page_start(continuation, fingerprint, bytes) matches Ok(start) && {
        let end = page_end(bytes, start, maximum);
        &&& encode_utf8(page.text@) == bytes.subrange(start, end)
        &&& page.truncated == (end < bytes.len())
        &&& page.truncated == (page.continuation is Some)
        &&& page.continuation matches Some(cursor) ==> cursor@.offset == end && cursor@.fingerprint
            == fingerprint
    }
}

/// The pages of a text read in turn: the first without a continuation, every other with that of the
/// page before it, until a page has none.
pub open spec fn are_read_in_turn(
    pages: Seq<BodyPage>,
    text: Seq<char>,
    fingerprint: Seq<u8>,
    maximum: int,
) -> bool {
    &&& pages.len() > 0
    &&& is_page(pages[0], None, text, fingerprint, maximum)
    &&& forall|i: int|
        0 < i < pages.len() ==> pages[i - 1].continuation is Some && is_page(
            #[trigger] pages[i],
            pages[i - 1].continuation,
            text,
            fingerprint,
            maximum,
        )
    &&& pages.last().continuation is None
}

/// The texts of pages, one behind the other.
pub open spec fn joined_pages(pages: Seq<BodyPage>) -> Seq<char>
    decreases pages.len(),
{
    if pages.len() == 0 {
        Seq::empty()
    } else {
        joined_pages(pages.drop_last()) + pages.last().text@
    }
}

/// Where a page starts.
spec fn turn_start(pages: Seq<BodyPage>, index: int) -> int {
    if index <= 0 {
        0
    } else {
        pages[index - 1].continuation->0@.offset as int
    }
}

proof fn turns_go_on(
    pages: Seq<BodyPage>,
    text: Seq<char>,
    fingerprint: Seq<u8>,
    maximum: int,
    count: int,
)
    requires
        are_read_in_turn(pages, text, fingerprint, maximum),
        maximum >= 4,
        0 < count <= pages.len(),
    ensures
        ({
            let bytes = encode_utf8(text);
            let start = turn_start(pages, count - 1);
            let end = page_end(bytes, start, maximum);
            &&& 0 <= start <= end <= bytes.len()
            &&& end - start <= maximum
            &&& encode_utf8(pages[count - 1].text@) == bytes.subrange(start, end)
            &&& encode_utf8(joined_pages(pages.take(count))) == bytes.subrange(0, end)
            &&& pages[count - 1].truncated == (end < bytes.len())
            &&& pages[count - 1].continuation matches Some(cursor) ==> cursor@.offset == end
        }),
    decreases count,
{
    let bytes = encode_utf8(text);
    let start = turn_start(pages, count - 1);
    let end = page_end(bytes, start, maximum);
    let before = pages.take(count - 1);
    assert(pages.take(count).drop_last() =~= before);
    if count == 1 {
        assert(joined_pages(before) == Seq::<char>::empty());
        assert(page_start(None, fingerprint, bytes) == Ok::<int, Error>(0));
        assert(bytes.subrange(0, 0) =~= Seq::<u8>::empty());
    } else {
        turns_go_on(pages, text, fingerprint, maximum, count - 1);
        assert(is_page(
            pages[count - 1],
            pages[count - 2].continuation,
            text,
            fingerprint,
            maximum,
        ));
    }
    pages_are_cut_between_characters(text, start, maximum);
    encodings_join(joined_pages(before), pages[count - 1].text@);
    assert(bytes.subrange(0, start) + bytes.subrange(start, end) =~= bytes.subrange(0, end));
}

/// Reading a body page after page, each with the continuation of the one before it, gives the whole
/// text: no page holds more than the limit, a page says that it is truncated exactly where it has a
/// continuation, and the texts of all pages joined are the text.
pub proof fn pages_read_in_turn_give_the_text(
    pages: Seq<BodyPage>,
    text: Seq<char>,
    fingerprint: Seq<u8>,
    maximum: int,
)
    requires
        are_read_in_turn(pages, text, fingerprint, maximum),
        maximum >= 4,
    ensures
        joined_pages(pages) == text,
        forall|i: int|
            0 <= i < pages.len() ==> encode_utf8((#[trigger] pages[i]).text@).len() <= maximum
                && pages[i].truncated == (pages[i].continuation is Some),
{
    let bytes = encode_utf8(text);
    turns_go_on(pages, text, fingerprint, maximum, pages.len() as int);
    assert(pages.take(pages.len() as int) =~= pages);
    let start = turn_start(pages, pages.len() - 1);
    assert(page_end(bytes, start, maximum) >= bytes.len()) by {
        if pages.len() > 1 {
            assert(is_page(
                pages[pages.len() - 1],
                pages[pages.len() - 2].continuation,
                text,
                fingerprint,
                maximum,
            ));
        }
    }
    assert(bytes.subrange(0, bytes.len() as int) =~= bytes);
    encode_utf8_decode_utf8(text);
    encode_utf8_decode_utf8(joined_pages(pages));
    assert forall|i: int| 0 <= i < pages.len() implies encode_utf8(
        (#[trigger] pages[i]).text@,
    ).len() <= maximum && pages[i].truncated == (pages[i].continuation is Some) by {
        turns_go_on(pages, text, fingerprint, maximum, i + 1);
        if i > 0 {
            assert(is_page(pages[i], pages[i - 1].continuation, text, fingerprint, maximum));
        }
    }
}

pub open spec fn optional_choice(selected: Option<Selected>) -> Option<Choice> {
    match selected {
        Some(selected) => Some(selected@),
        None => None,
    }
}

/// The verdict on the request itself.
pub open spec fn request_verdict(name: Seq<char>, request: BodyRequest) -> Result<(), Error> {
    if mailbox_verdict(name) is Err {
        mailbox_verdict(name)
    } else if request.uid == 0 || request.uid_validity == 0 {
        Err(Error::InvalidInput)
    } else {
        Ok(())
    }
}

impl BodyReader {
    /// The state of a read between two commands.
    pub open spec fn well_formed(self) -> bool {
        &&& self.limits.valid()
        &&& self.request.uid > 0
        &&& self.header_bytes <= self.limits.max_header_bytes
        &&& match self.phase {
            Phase::Selection | Phase::Description => self.header_bytes == 0 && self.ids@.len() == 0,
            Phase::Headers => {
                &&& self.reading matches Some(chunks) && chunks.well_formed()
                    && chunks.received@.len() + self.header_bytes <= self.limits.max_header_bytes
                    && chunks.ceiling == chunks.budget && chunks.budget + self.header_bytes
                    == self.limits.max_header_bytes
                &&& self.structure matches Some(structure) && is_bounded(structure, self.limits)
                &&& self.section is Some && self.section != Some(Section::Other)
            },
            Phase::Content => {
                &&& self.reading matches Some(chunks) && chunks.well_formed()
                &&& self.selected is Some
                &&& self.section != Some(Section::Other)
            },
            Phase::Closed => self.selected is Some == self.rendered is Some,
        }
    }

    pub fn new(name: &str, request: BodyRequest, limits: Limits) -> (r: Result<Self, Error>)
        requires
            limits.valid(),
        ensures
            match r {
                Ok(reader) => {
                    &&& request_verdict(name@, request) is Ok
                    &&& reader.well_formed() && reader.phase is Selection
                    &&& reader.request == request && reader.limits == limits
                    &&& reader.structure is None && reader.size == 0
                    &&& reader.reading is None && reader.section is None
                    &&& reader.root_headers@.len() == 0 && reader.pending@.len() == 0
                    &&& reader.selected is None && reader.rendered is None
                    &&& !reader.whole && reader.body@.len() == 0
                },
                Err(error) => request_verdict(name@, request) == Err::<(), Error>(error),
            },
    {
        match mailbox(name) {
            Err(error) => {
                return Err(error);
            },
            Ok(()) => {},
        }
        if request.uid == 0 || request.uid_validity == 0 {
            return Err(Error::InvalidInput);
        }
        Ok(
            BodyReader {
                request,
                limits,
                phase: Phase::Selection,
                structure: None,
                size: 0,
                reading: None,
                section: None,
                header_bytes: 0,
                root_headers: Vec::new(),
                pending: Vec::new(),
                ids: Vec::new(),
                selected: None,
                whole: false,
                body: Vec::new(),
                rendered: None,
            },
        )
    }

    /// The mailbox has been selected. Only the incarnation that the reference names is read.
    pub fn selected_mailbox(&mut self, uid_validity: u32) -> (r: Result<Fetch, Error>)
        requires
            old(self).well_formed(),
            old(self).phase is Selection,
        ensures
            match r {
                Ok(fetch) => {
                    &&& uid_validity == old(self).request.uid_validity
                    &&& fetch == (Fetch::Metadata { uid: old(self).request.uid })
                    &&& *final(self) == (BodyReader { phase: Phase::Description, ..*old(self) })
                    &&& final(self).well_formed()
                },
                Err(error) => error == Error::StaleReference && uid_validity
                    != old(self).request.uid_validity,
            },
    {
        if uid_validity != self.request.uid_validity {
            return Err(Error::StaleReference);
        }
        self.phase = Phase::Description;
        Ok(Fetch::Metadata { uid: self.request.uid })
    }

    /// The command that reads the next piece of the current section.
    fn next_piece(&self) -> (r: Fetch)
        requires
            self.reading matches Some(chunks) && chunks.well_formed(),
            self.section != Some(Section::Other),
        ensures
            self.asks(r),
    {
        match &self.reading {
            Some(chunks) => {
                let (offset, count) = chunks.next();
                let section = match &self.section {
                    None => None,
                    Some(Section::Mime(path)) => {
                        let copy = path.clone();
                        assert(copy@ =~= path@);
                        Some(Section::Mime(copy))
                    },
                    Some(Section::Part(path)) => {
                        let copy = path.clone();
                        assert(copy@ =~= path@);
                        Some(Section::Part(copy))
                    },
                    Some(_) => Some(Section::Header),
                };
                Fetch::Bytes { uid: self.request.uid, section, offset, count }
            },
            None => Fetch::Metadata { uid: self.request.uid },
        }
    }

    /// The command reads the bytes that follow those of the current section that were received.
    pub open spec fn asks(self, fetch: Fetch) -> bool {
        &&& self.reading matches Some(chunks)
        &&& fetch matches Fetch::Bytes { uid, section, offset, count }
        &&& uid == self.request.uid
        &&& offset == chunks.received@.len()
        &&& count == chunks.wanted()
        &&& match (section, self.section) {
            (None, None) => true,
            (Some(a), Some(b)) => a.names(b),
            _ => false,
        }
    }

    /// The structure of the message is known. Its headers come first.
    pub fn described(&mut self, items: Vec<Item>) -> (r: Result<Fetch, Error>)
        requires
            old(self).well_formed(),
            old(self).phase is Description,
        ensures
            r matches Ok(fetch) ==> {
                &&& final(self).well_formed() && final(self).phase is Headers
                &&& final(self).asks(fetch)
                &&& final(self).section == Some(Section::Header)
                &&& final(self).request == old(self).request
                &&& final(self).limits == old(self).limits
                &&& final(self).ids@ == old(self).ids@
                &&& final(self).root_headers@ == old(self).root_headers@
                &&& final(self).header_bytes == 0
                &&& same_outcome(*old(self), *final(self))
                &&& final(self).reading matches Some(chunks) && chunks.received@.len() == 0
                    && chunks.piece == chunks::piece_size(final(self).limits)
                &&& exists|i: int, j: int| #[trigger]
                    Fetch::is_metadata(items@, i, j) && items@[i] == Item::<Structure>::Rfc822Size(
                        final(self).size,
                    ) && items@[j] == Item::BodyStructure(final(self).structure->0)
                &&& related_paths(final(self).structure->0, Seq::empty()) == Ok::<
                    Seq<Seq<u32>>,
                    Error,
                >(path_views(final(self).pending@).reverse())
            },
            r matches Err(error) ==> {
                ||| error == Error::Protocol && forall|i: int, j: int|
                    !#[trigger] Fetch::is_metadata(items@, i, j)
                ||| exists|i: int, j: int| #[trigger]
                    Fetch::is_metadata(items@, i, j) && ({
                        let structure = items@[j]->BodyStructure_0;
                        if !is_bounded(structure, old(self).limits) {
                            error == Error::Limit
                        } else {
                            match related_paths(structure, Seq::empty()) {
                                Err(refusal) => error == refusal,
                                Ok(_) => error == Error::InvalidInput && chunks::piece_size(
                                    old(self).limits,
                                ) == 0,
                            }
                        }
                    })
            },
    {
        let (size, structure) = match take_structure(items) {
            Some(found) => found,
            None => {
                return Err(Error::Protocol);
            },
        };
        let mut paths = match related_multipart_headers(&structure, &self.limits) {
            Ok(paths) => paths,
            Err(error) => {
                return Err(error);
            },
        };
        let ghost found = path_views(paths@);
        reverse_paths(&mut paths);
        let chunks = match Chunks::new(None, self.limits.max_header_bytes, &self.limits) {
            Ok(chunks) => chunks,
            Err(error) => {
                return Err(error);
            },
        };
        self.size = size;
        self.structure = Some(structure);
        self.pending = paths;
        self.reading = Some(chunks);
        self.section = Some(Section::Header);
        self.phase = Phase::Headers;
        assert(path_views(self.pending@).reverse() =~= found);
        Ok(self.next_piece())
    }
}

/// What stays the same while headers are read.
pub open spec fn same_message(before: BodyReader, after: BodyReader) -> bool {
    &&& after.request == before.request
    &&& after.limits == before.limits
    &&& after.structure == before.structure
    &&& after.size == before.size
}

/// What was selected and made of the message.
pub open spec fn same_outcome(before: BodyReader, after: BodyReader) -> bool {
    &&& after.selected == before.selected
    &&& after.rendered == before.rendered
    &&& after.whole == before.whole
    &&& after.body@ == before.body@
}

/// `after` has taken note of the headers `raw` of the section that `before` was reading.
pub open spec fn headers_noted(before: BodyReader, raw: Seq<u8>, after: BodyReader) -> bool {
    &&& same_message(before, after)
    &&& same_outcome(before, after)
    &&& after.pending@ == before.pending@
    &&& after.section == before.section
    &&& closed_headers(raw, before.header_bytes as nat, before.limits) matches Ok(block)
        && after.header_bytes == before.header_bytes + block.len() && (headers_verdict(
        block,
        parsed_headers(block),
        None,
        before.limits,
    ) matches Ok(id) && match before.section {
        Some(Section::Mime(path)) => {
            &&& after.root_headers@ == before.root_headers@
            &&& match id {
                None => after.ids@ == before.ids@,
                Some(id) => {
                    &&& after.ids@.len() == before.ids@.len() + 1
                    &&& after.ids@.drop_last() == before.ids@
                    &&& after.ids@.last().0@ == path@
                    &&& after.ids@.last().1@ == id
                },
            }
        },
        _ => after.root_headers@ == block && after.ids@ == before.ids@,
    })
}

/// Why the headers `raw` are refused.
pub open spec fn headers_refused(before: BodyReader, raw: Seq<u8>, error: Error) -> bool {
    match closed_headers(raw, before.header_bytes as nat, before.limits) {
        Err(refusal) => error == refusal,
        Ok(block) => headers_verdict(block, parsed_headers(block), None, before.limits) == Err::<
            Option<Seq<char>>,
            Error,
        >(error),
    }
}

/// The part that is shown, once all the headers are known.
pub open spec fn chosen(reader: BodyReader) -> Result<Option<Choice>, Error> {
    selection(reader.structure->0, Seq::empty(), reader.ids@)
}

/// Why no part can be read.
pub open spec fn plan_refused(reader: BodyReader, error: Error) -> bool {
    match chosen(reader) {
        Err(refusal) => error == refusal,
        Ok(None) => false,
        Ok(Some(choice)) => {
            let headers = headers_verdict(
                reader.root_headers@,
                parsed_headers(reader.root_headers@),
                Some(choice),
                reader.limits,
            );
            if choice.wire_size > reader.limits.max_body_wire_bytes {
                error == Error::Limit
            } else if reader.structure->0 is Single && headers is Err {
                headers == Err::<Option<Seq<char>>, Error>(error)
            } else {
                error == Error::InvalidInput && chunks::piece_size(reader.limits) == 0
            }
        },
    }
}

/// `after` reads the part that `before` shows: of a message with a single part the whole message, as
/// long as it fits, and otherwise that part alone.
pub open spec fn planned(before: BodyReader, after: BodyReader, step: Step) -> bool {
    &&& same_message(before, after)
    &&& after.root_headers@ == before.root_headers@
    &&& after.header_bytes == before.header_bytes
    &&& after.ids@ == before.ids@
    &&& after.body@ == before.body@
    &&& match chosen(before) {
        Err(_) => false,
        Ok(None) => step is Close && after.phase is Closed && after.selected is None
            && after.rendered is None,
        Ok(Some(choice)) => {
            let single = before.structure->0 is Single;
            &&& choice.wire_size <= before.limits.max_body_wire_bytes
            &&& single ==> headers_verdict(
                before.root_headers@,
                parsed_headers(before.root_headers@),
                Some(choice),
                before.limits,
            ) is Ok
            &&& after.phase is Content
            &&& after.rendered == before.rendered
            &&& optional_choice(after.selected) == Some(choice)
            &&& after.whole == (single && before.size <= before.limits.max_body_wire_bytes)
            &&& step matches Step::Fetch(fetch) && after.asks(fetch)
            &&& after.reading matches Some(chunks) && chunks.received@.len() == 0
                && chunks.budget == before.limits.max_body_wire_bytes && chunks.piece
                == chunks::piece_size(before.limits) && chunks.ceiling == (if after.whole {
                before.size as nat
            } else {
                choice.wire_size
            })
            &&& if after.whole {
                after.section is None
            } else {
                after.section matches Some(Section::Part(path)) && path@ == choice.part
            }
        },
    }
}

/// `after` waits for the headers of the next part, or reads the body where none are left.
pub open spec fn moved_on(before: BodyReader, after: BodyReader, step: Step) -> bool {
    if before.pending@.len() > 0 {
        &&& same_message(before, after)
        &&& same_outcome(before, after)
        &&& after.phase is Headers
        &&& after.root_headers@ == before.root_headers@
        &&& after.ids@ == before.ids@
        &&& after.header_bytes == before.header_bytes
        &&& after.pending@ == before.pending@.drop_last()
        &&& after.section matches Some(Section::Mime(path)) && path@ == before.pending@.last()@
        &&& after.reading matches Some(chunks) && chunks.received@.len() == 0 && chunks.budget
            == before.limits.max_header_bytes - before.header_bytes && chunks.ceiling
            == chunks.budget && chunks.piece == chunks::piece_size(before.limits)
        &&& step matches Step::Fetch(fetch) && after.asks(fetch)
    } else {
        planned(before, after, step)
    }
}

/// The body in what was read: behind the headers of a whole message, or the part itself.
pub open spec fn read_body(before: BodyReader, raw: Seq<u8>) -> Result<Seq<u8>, Error> {
    if before.whole {
        body_in(raw, before.root_headers@, before.selected->0@.wire_size)
    } else {
        Ok(raw)
    }
}

/// `after` has rendered the body that was read.
pub open spec fn body_rendered(before: BodyReader, raw: Seq<u8>, after: BodyReader) -> bool {
    &&& same_message(before, after)
    &&& after.phase is Closed
    &&& optional_choice(after.selected) == optional_choice(before.selected)
    &&& read_body(before, raw) matches Ok(body) && after.body@ == body && (rendering(
        before.selected->0@,
        body,
        before.limits,
    ) matches Ok(text) && (after.rendered matches Some(rendered) && rendered@ == text))
}

/// Why the body that was read is refused.
pub open spec fn body_refused(before: BodyReader, raw: Seq<u8>, error: Error) -> bool {
    match read_body(before, raw) {
        Err(refusal) => error == refusal,
        Ok(body) => rendering(before.selected->0@, body, before.limits) == Err::<Rendering, Error>(
            error,
        ),
    }
}

impl BodyReader {
    fn note_headers(&mut self, raw: Vec<u8>) -> (r: Result<(), Error>)
        requires
            old(self).limits.valid(),
            old(self).header_bytes + raw@.len() <= old(self).limits.max_header_bytes,
        ensures
            match r {
                Ok(()) => headers_noted(*old(self), raw@, *final(self)) && final(self).header_bytes
                    <= final(self).limits.max_header_bytes,
                Err(error) => headers_refused(*old(self), raw@, error),
            },
    {
        let block = match close_headers(raw, self.header_bytes, &self.limits) {
            Ok(block) => block,
            Err(error) => {
                return Err(error);
            },
        };
        let id = match validate_headers(block.as_slice(), None, &self.limits) {
            Ok(id) => id,
            Err(error) => {
                return Err(error);
            },
        };
        self.header_bytes = self.header_bytes + block.len();
        match &self.section {
            Some(Section::Mime(path)) => match id {
                Some(id) => {
                    let copy = path.clone();
                    assert(copy@ =~= path@);
                    self.ids.push((copy, id));
                    assert(self.ids@.drop_last() =~= old(self).ids@);
                },
                None => {},
            },
            _ => {
                self.root_headers = block;
            },
        }
        Ok(())
    }

    fn plan(&mut self) -> (r: Result<Step, Error>)
        requires
            old(self).limits.valid(),
            old(self).request.uid > 0,
            old(self).header_bytes <= old(self).limits.max_header_bytes,
            old(self).structure matches Some(structure) && is_bounded(
                structure,
                old(self).limits,
            ),
        ensures
            match r {
                Ok(step) => planned(*old(self), *final(self), step) && final(self).well_formed(),
                Err(error) => plan_refused(*old(self), error),
            },
    {
        let (selected, single) = match &self.structure {
            None => {
                return Err(Error::Protocol);
            },
            Some(structure) => match select(structure, &self.limits, &self.ids) {
                Err(error) => {
                    return Err(error);
                },
                Ok(selected) => (selected, matches!(structure, Structure::Single { .. })),
            },
        };
        let selected = match selected {
            None => {
                self.selected = None;
                self.rendered = None;
                self.phase = Phase::Closed;
                return Ok(Step::Close);
            },
            Some(selected) => selected,
        };
        if selected.wire_size > self.limits.max_body_wire_bytes {
            return Err(Error::Limit);
        }
        if single {
            match validate_headers(self.root_headers.as_slice(), Some(&selected), &self.limits) {
                Err(error) => {
                    return Err(error);
                },
                Ok(_) => {},
            }
        }
        let whole = single && self.size as usize <= self.limits.max_body_wire_bytes;
        let expected: usize = if whole {
            self.size as usize
        } else {
            selected.wire_size
        };
        let chunks = match Chunks::new(
            Some(expected),
            self.limits.max_body_wire_bytes,
            &self.limits,
        ) {
            Err(error) => {
                return Err(error);
            },
            Ok(chunks) => chunks,
        };
        self.whole = whole;
        self.section = if whole {
            None
        } else {
            let path = selected.part.clone();
            assert(path@ =~= selected.part@);
            Some(Section::Part(path))
        };
        self.reading = Some(chunks);
        self.selected = Some(selected);
        self.phase = Phase::Content;
        let fetch = self.next_piece();
        Ok(Step::Fetch(fetch))
    }

    fn move_on(&mut self) -> (r: Result<Step, Error>)
        requires
            old(self).limits.valid(),
            old(self).request.uid > 0,
            old(self).header_bytes <= old(self).limits.max_header_bytes,
            old(self).structure matches Some(structure) && is_bounded(
                structure,
                old(self).limits,
            ),
        ensures
            match r {
                Ok(step) => moved_on(*old(self), *final(self), step) && final(self).well_formed(),
                Err(error) => if old(self).pending@.len() > 0 {
                    error == Error::InvalidInput && chunks::piece_size(old(self).limits) == 0
                } else {
                    plan_refused(*old(self), error)
                },
            },
    {
        match self.pending.pop() {
            None => {
                assert(self.pending@ =~= old(self).pending@);
                self.plan()
            },
            Some(path) => {
                let budget: usize = self.limits.max_header_bytes - self.header_bytes;
                let chunks = match Chunks::new(None, budget, &self.limits) {
                    Err(error) => {
                        return Err(error);
                    },
                    Ok(chunks) => chunks,
                };
                self.section = Some(Section::Mime(path));
                self.reading = Some(chunks);
                self.phase = Phase::Headers;
                let fetch = self.next_piece();
                Ok(Step::Fetch(fetch))
            },
        }
    }

    fn render_body(&mut self, raw: Vec<u8>) -> (r: Result<(), Error>)
        requires
            old(self).limits.valid(),
            old(self).request.uid > 0,
            old(self).header_bytes <= old(self).limits.max_header_bytes,
            old(self).selected is Some,
        ensures
            match r {
                Ok(()) => body_rendered(*old(self), raw@, *final(self))
                    && final(self).well_formed(),
                Err(error) => body_refused(*old(self), raw@, error),
            },
    {
        match &self.selected {
            None => Err(Error::Protocol),
            Some(selected) => {
                let body = if self.whole {
                    match body_of(&raw, &self.root_headers, selected.wire_size) {
                        Ok(body) => body,
                        Err(error) => {
                            return Err(error);
                        },
                    }
                } else {
                    raw
                };
                match render(selected, body.as_slice(), &self.limits) {
                    Err(error) => Err(error),
                    Ok(rendered) => {
                        self.body = body;
                        self.rendered = Some(rendered);
                        self.phase = Phase::Closed;
                        Ok(())
                    },
                }
            },
        }
    }

    /// The answer holds this piece of the current section.
    pub open spec fn answered_with(self, items: Seq<Item>, piece: Seq<u8>) -> bool {
        exists|fetch: Fetch, i: int| #[trigger]
            self.asks(fetch) && #[trigger] fetch.is_data(items, i) && piece == Fetch::data_of(
                items[i],
            )
    }

    /// What follows a piece that was read: the next piece, the next section, or the end of the read.
    pub open spec fn advanced(self, piece: Seq<u8>, after: BodyReader, step: Step) -> bool {
        let raw = self.reading->0.received@ + piece;
        &&& piece.len() <= self.reading->0.wanted()
        &&& match self.reading->0.verdict(piece) {
            Err(_) => false,
            Ok(false) => {
                &&& step matches Step::Fetch(fetch) && after.asks(fetch)
                &&& after.phase == self.phase
                &&& after.reading matches Some(chunks) && chunks.received@ == raw && chunks.ceiling
                    == self.reading->0.ceiling && chunks.budget == self.reading->0.budget
                    && chunks.piece == self.reading->0.piece
                &&& same_message(self, after)
                &&& same_outcome(self, after)
                &&& after.section == self.section
                &&& after.header_bytes == self.header_bytes
                &&& after.root_headers@ == self.root_headers@
                &&& after.pending@ == self.pending@
                &&& after.ids@ == self.ids@
            },
            Ok(true) => if self.phase is Headers {
                exists|noted: BodyReader| #[trigger]
                    headers_noted(self, raw, noted) && moved_on(noted, after, step)
            } else {
                step is Close && body_rendered(self, raw, after)
            },
        }
    }

    /// Why the read ends with this piece.
    pub open spec fn stopped(self, piece: Seq<u8>, error: Error) -> bool {
        let raw = self.reading->0.received@ + piece;
        if piece.len() > self.reading->0.wanted() {
            error == Error::Limit
        } else {
            match self.reading->0.verdict(piece) {
                Err(refusal) => error == refusal,
                Ok(false) => false,
                Ok(true) => if self.phase is Headers {
                    headers_refused(self, raw, error) || exists|noted: BodyReader| #[trigger]
                        headers_noted(self, raw, noted) && (if noted.pending@.len() > 0 {
                            error == Error::InvalidInput && chunks::piece_size(noted.limits) == 0
                        } else {
                            plan_refused(noted, error)
                        })
                } else {
                    body_refused(self, raw, error)
                },
            }
        }
    }

    /// A piece of a section has been read. It is followed by the next piece, by the next section, or
    /// by the end of the read.
    pub fn received(&mut self, items: &Vec<Item>) -> (r: Result<Step, Error>)
        requires
            old(self).well_formed(),
            old(self).phase is Headers || old(self).phase is Content,
        ensures
            r matches Ok(step) ==> match step {
                Step::Fetch(_) => final(self).phase is Headers || final(self).phase is Content,
                Step::Close => final(self).phase is Closed,
            },
            r matches Ok(step) ==> final(self).well_formed() && exists|piece: Seq<u8>| #[trigger]
                old(self).answered_with(items@, piece) && old(self).advanced(
                    piece,
                    *final(self),
                    step,
                ),
            r matches Err(error) ==> {
                ||| error == Error::Protocol && forall|piece: Seq<u8>|
                    !#[trigger] old(self).answered_with(items@, piece)
                ||| exists|piece: Seq<u8>| #[trigger]
                    old(self).answered_with(items@, piece) && old(self).stopped(piece, error)
            },
    {
        let fetch = self.next_piece();
        let ghost before = *self;
        let piece = match fetch.data(items) {
            Ok(piece) => piece,
            Err(error) => {
                proof {
                    if error == Error::Limit {
                        let i = choose|i: int| #[trigger] fetch.is_data(items@, i);
                        assert(before.answered_with(items@, Fetch::data_of(items@[i])));
                    } else {
                        assert forall|piece: Seq<u8>| !#[trigger] before.answered_with(
                            items@,
                            piece,
                        ) by {
                            if before.answered_with(items@, piece) {
                                let (other, i) = choose|other: Fetch, i: int| #[trigger]
                                    before.asks(other) && #[trigger] other.is_data(items@, i)
                                        && piece == Fetch::data_of(items@[i]);
                                same_reads(before, other, fetch, items@, i);
                            }
                        }
                    }
                }
                return Err(error);
            },
        };
        assert(before.answered_with(items@, piece@)) by {
            let i = choose|i: int| #[trigger]
                fetch.is_data(items@, i) && piece@ == Fetch::data_of(items@[i]);
            assert(before.asks(fetch) && fetch.is_data(items@, i));
        }
        let mut chunks = match self.reading.take() {
            Some(chunks) => chunks,
            None => {
                return Err(Error::Protocol);
            },
        };
        let finished = match chunks.accept(piece) {
            Ok(finished) => finished,
            Err(error) => {
                return Err(error);
            },
        };
        if !finished {
            self.reading = Some(chunks);
            let next = self.next_piece();
            return Ok(Step::Fetch(next));
        }
        let raw = chunks.received;
        let ghost bytes = raw@;
        match &self.phase {
            Phase::Headers => {
                let ghost resumed = *self;
                match self.note_headers(raw) {
                    Err(error) => {
                        assert(headers_refused(before, bytes, error));
                        Err(error)
                    },
                    Ok(()) => {
                        assert(headers_noted(before, bytes, *self));
                        self.move_on()
                    },
                }
            },
            _ => match self.render_body(raw) {
                Err(error) => {
                    assert(body_refused(before, bytes, error));
                    Err(error)
                },
                Ok(()) => {
                    assert(body_rendered(before, bytes, *self));
                    Ok(Step::Close)
                },
            },
        }
    }

    /// The text that was made of the message.
    pub open spec fn text(self) -> Seq<char> {
        match self.rendered {
            Some(rendered) => rendered@.text,
            None => Seq::empty(),
        }
    }

    /// What a continuation of this read is bound to.
    pub open spec fn fingerprint(self, context: Seq<u8>) -> Seq<u8> {
        sha256(
            fingerprint_input(context, self.body@, optional_choice(self.selected), self.text()),
        )
    }

    /// The requested page of the text, once the connection is closed.
    pub fn finish(self, context: &[u8], metrics: Metrics) -> (r: Result<BodyPage, Error>)
        requires
            self.well_formed(),
            self.phase is Closed,
        ensures
            ({
                let continuation = self.request.continuation;
                let fingerprint = self.fingerprint(context@);
                match r {
                    Err(error) => page_start(continuation, fingerprint, encode_utf8(self.text()))
                        == Err::<int, Error>(error),
                    Ok(page) => {
                        &&& is_page(
                            page,
                            continuation,
                            self.text(),
                            fingerprint,
                            self.limits.max_text_bytes as int,
                        )
                        &&& encode_utf8(page.text@).len() <= self.limits.max_text_bytes
                        &&& match optional_choice(self.selected) {
                            None => page.selected_part is None && page.source_media_type is None,
                            Some(choice) => page.selected_part matches Some(part) && part@
                                == part_text(choice.part) && (page.source_media_type matches Some(
                                media,
                            ) && media@ == choice.media_type),
                        }
                        &&& page.representation_version@ == REPRESENTATION@
                        &&& page.converted == (self.rendered matches Some(rendered)
                            && rendered.converted)
                        &&& page.replacements == (self.rendered matches Some(rendered)
                            && rendered.replacements)
                        &&& page.metrics == (match self.rendered {
                            None => metrics,
                            Some(rendered) => Metrics {
                                decode_steps: rendered.work,
                                decoded_bytes: encode_utf8(rendered.text@).len() as usize,
                                ..metrics
                            },
                        })
                    },
                }
            }),
    {
        let mut input: Vec<u8> = crate::text::copy_range(context, 0, context.len());
        assert(input@ =~= context@);
        let mut metrics = metrics;
        let (text, converted, replacements) = match self.rendered {
            Some(rendered) => {
                metrics.decode_steps = rendered.work;
                metrics.decoded_bytes = rendered.text.as_str().as_bytes().len();
                (rendered.text, rendered.converted, rendered.replacements)
            },
            None => (String::new(), false, false),
        };
        assert(text@ =~= self.text());
        let (selected_part, source_media_type) = match self.selected {
            Some(selected) => {
                let name = part_name(&selected.part);
                input.extend_from_slice(self.body.as_slice());
                input.extend_from_slice(name.as_str().as_bytes());
                input.extend_from_slice(selected.media_type.as_str().as_bytes());
                input.extend_from_slice(selected.charset.as_str().as_bytes());
                input.extend_from_slice(selected.transfer_encoding.as_str().as_bytes());
                (Some(name), Some(selected.media_type))
            },
            None => (None, None),
        };
        input.extend_from_slice(text.as_str().as_bytes());
        assert(input@ =~= fingerprint_input(
            context@,
            self.body@,
            optional_choice(self.selected),
            self.text(),
        ));
        let fingerprint = digest(input.as_slice());
        let page = match cut(
            text.as_str(),
            fingerprint,
            self.request.continuation,
            &self.limits,
        ) {
            Ok(page) => page,
            Err(error) => {
                return Err(error);
            },
        };
        let truncated = page.continuation.is_some();
        proof {
            let bytes = encode_utf8(text@);
            let start = page_start(self.request.continuation, fingerprint@, bytes);
            pages_are_cut_between_characters(text@, start->Ok_0, self.limits.max_text_bytes as int);
        }
        Ok(
            BodyPage {
                text: page.text,
                selected_part,
                source_media_type,
                representation_version: REPRESENTATION.to_owned(),
                converted,
                replacements,
                truncated,
                continuation: page.continuation,
                metrics,
            },
        )
    }
}

/// Two commands for the same piece are answered by the same rows.
proof fn same_reads(reader: BodyReader, a: Fetch, b: Fetch, items: Seq<Item>, i: int)
    requires
        reader.asks(a),
        reader.asks(b),
        a.is_data(items, i),
    ensures
        b.is_data(items, i),
{
}

/// Every byte of a section is read once and in order: a piece is asked for exactly where the ones
/// before it ended, no section exceeds its budget, and the bounds of a section stay the same until it
/// is read.
pub proof fn pieces_are_contiguous(
    before: BodyReader,
    fetch: Fetch,
    piece: Seq<u8>,
    after: BodyReader,
    step: Step,
)
    requires
        before.reading matches Some(chunks) && chunks.well_formed(),
        before.asks(fetch),
        before.advanced(piece, after, step),
    ensures
        fetch matches Fetch::Bytes { offset, count, .. } && offset
            == before.reading->0.received@.len() && count > 0 && piece.len() <= count,
        before.reading->0.received@.len() + piece.len() <= before.reading->0.budget,
        before.reading->0.verdict(piece) == Ok::<bool, Error>(false) ==> {
            &&& after.reading matches Some(chunks) && chunks.budget == before.reading->0.budget
                && chunks.ceiling == before.reading->0.ceiling && chunks.piece
                == before.reading->0.piece
            &&& step matches Step::Fetch(Fetch::Bytes { offset, .. }) && offset
                == before.reading->0.received@.len() + piece.len()
        },
{
}

/// The size and the structure of a metadata row, taken out of it.
fn take_structure(items: Vec<Item>) -> (r: Option<(u32, Structure)>)
    ensures
        match r {
            Some((size, structure)) => exists|i: int, j: int| #[trigger]
                Fetch::is_metadata(items@, i, j) && items@[i] == Item::<Structure>::Rfc822Size(size) && items@[j]
                    == Item::BodyStructure(structure),
            None => forall|i: int, j: int| !#[trigger] Fetch::is_metadata(items@, i, j),
        },
{
    let ghost all = items@;
    if items.len() != 3 {
        return None;
    }
    let mut items = items;
    let third = items.remove(2);
    let second = items.remove(1);
    let first = items.remove(0);
    assert(first == all[0] && second == all[1] && third == all[2]);
    match (first, second, third) {
        (Item::Uid(_), Item::Rfc822Size(size), Item::BodyStructure(structure)) => {
            assert(Fetch::is_metadata(all, 1, 2));
            Some((size, structure))
        },
        (Item::Uid(_), Item::BodyStructure(structure), Item::Rfc822Size(size)) => {
            assert(Fetch::is_metadata(all, 2, 1));
            Some((size, structure))
        },
        (Item::Rfc822Size(size), Item::Uid(_), Item::BodyStructure(structure)) => {
            assert(Fetch::is_metadata(all, 0, 2));
            Some((size, structure))
        },
        (Item::BodyStructure(structure), Item::Uid(_), Item::Rfc822Size(size)) => {
            assert(Fetch::is_metadata(all, 2, 0));
            Some((size, structure))
        },
        (Item::Rfc822Size(size), Item::BodyStructure(structure), Item::Uid(_)) => {
            assert(Fetch::is_metadata(all, 0, 1));
            Some((size, structure))
        },
        (Item::BodyStructure(structure), Item::Rfc822Size(size), Item::Uid(_)) => {
            assert(Fetch::is_metadata(all, 1, 0));
            Some((size, structure))
        },
        _ => None,
    }
}

fn reverse_paths(paths: &mut Vec<Vec<u32>>)
    ensures
        path_views(final(paths)@) == path_views(old(paths)@).reverse(),
{
    let mut out: Vec<Vec<u32>> = Vec::new();
    let ghost all = paths@;
    while paths.len() > 0
        invariant
            paths@.len() + out@.len() == all.len(),
            paths@ == all.take(paths@.len() as int),
            forall|i: int| 0 <= i < out@.len() ==> (#[trigger] out@[i])@ == all[all.len() - 1 - i]@,
        decreases paths@.len(),
    {
        match paths.pop() {
            Some(path) => {
                out.push(path);
            },
            None => {},
        }
    }
    assert(path_views(out@) =~= path_views(all).reverse());
    *paths = out;
}

/// Header lines are closed by an empty line and otherwise kept, and only lines that end are accepted.
pub proof fn header_lines_are_kept(value: Seq<u8>, used: nat, limits: Limits)
    ensures
        match closed_headers(value, used, limits) {
            Ok(block) => {
                &&& ends_line(value)
                &&& representation::is_complete_block(block)
                &&& block == value || block == value + seq![0x0du8, 0x0au8]
                &&& representation::is_complete_block(value) && value[value.len() - 2] == 0x0d ==> block == value
                &&& block.len() > value.len() ==> used + block.len() <= limits.max_header_bytes
            },
            Err(error) => {
                &&& error == Error::Protocol <==> !ends_line(value)
                &&& error == Error::Limit <==> ends_line(value)
                &&& error == Error::Limit ==> used + value.len() + 2 > limits.max_header_bytes
            },
        },
        ends_line(value) <==> value.len() >= 2 && value.subrange(value.len() - 2, value.len() as int)
            == seq![0x0du8, 0x0au8],
{
    let n = value.len() as int;
    if n >= 2 {
        let tail = value.subrange(n - 2, n);
        assert(tail[0] == value[n - 2] && tail[1] == value[n - 1]);
        if ends_line(value) {
            assert(tail =~= seq![0x0du8, 0x0au8]);
        }
    }
    if n == 2 && ends_line(value) {
        assert(value =~= seq![0x0du8, 0x0au8]);
    }
}

/// The body of a message that was read whole is what follows its headers: the two together are the
/// message.
pub proof fn bodies_follow_the_headers(whole: Seq<u8>, headers: Seq<u8>, wire_size: nat)
    ensures
        match body_in(whole, headers, wire_size) {
            Ok(body) => headers + body == whole && body.len() <= wire_size,
            Err(error) => error == Error::Protocol && forall|body: Seq<u8>|
                body.len() <= wire_size ==> #[trigger] (headers + body) != whole,
        },
{
    if headers.is_prefix_of(whole) {
        assert(headers + whole.skip(headers.len() as int) =~= whole);
    }
    assert forall|body: Seq<u8>| body.len() <= wire_size && body_in(whole, headers, wire_size)
        is Err implies #[trigger] (headers + body) != whole by {
        if headers + body == whole {
            assert(headers =~= whole.subrange(0, headers.len() as int));
        }
    }
}

/// Requests for different messages, mailboxes, logins or limits have different contexts, so that a
/// continuation of one is refused by the other.
pub proof fn contexts_are_told_apart(
    a: (Seq<char>, Seq<char>, Seq<char>, u16, BodyRequest, Seq<char>),
    b: (Seq<char>, Seq<char>, Seq<char>, u16, BodyRequest, Seq<char>),
)
    requires
        utf8_len(a.0) <= u64::MAX && utf8_len(a.1) <= u64::MAX && utf8_len(a.2) <= u64::MAX,
        utf8_len(b.0) <= u64::MAX && utf8_len(b.1) <= u64::MAX && utf8_len(b.2) <= u64::MAX,
        context_bytes(a.0, a.1, a.2, a.3, a.4, a.5) == context_bytes(b.0, b.1, b.2, b.3, b.4, b.5),
    ensures
        a.0 == b.0 && a.1 == b.1 && a.2 == b.2 && a.3 == b.3,
        a.4.uid == b.4.uid && a.4.uid_validity == b.4.uid_validity,
        a.5 == b.5,
{
    let end_a = context_end(a.3, a.4, a.5);
    let end_b = context_end(b.3, b.4, b.5);
    let last_a = prefixed(REPRESENTATION@) + end_a;
    let last_b = prefixed(REPRESENTATION@) + end_b;
    contexts_are_nested(a.0, a.1, a.2, a.3, a.4, a.5);
    contexts_are_nested(b.0, b.1, b.2, b.3, b.4, b.5);
    prefixed_texts_are_told_apart(
        a.0,
        prefixed(a.1) + (prefixed(a.2) + last_a),
        b.0,
        prefixed(b.1) + (prefixed(b.2) + last_b),
    );
    prefixed_texts_are_told_apart(a.1, prefixed(a.2) + last_a, b.1, prefixed(b.2) + last_b);
    prefixed_texts_are_told_apart(a.2, last_a, b.2, last_b);
    let common = prefixed(REPRESENTATION@).len() as int;
    assert(last_a.skip(common) =~= end_a);
    assert(last_b.skip(common) =~= end_b);
    ends_are_told_apart(a.3, a.4, a.5, b.3, b.4, b.5);
}

proof fn contexts_are_nested(
    host: Seq<char>,
    user: Seq<char>,
    name: Seq<char>,
    port: u16,
    request: BodyRequest,
    limits: Seq<char>,
)
    ensures
        context_bytes(host, user, name, port, request, limits) == prefixed(host) + (prefixed(user) + (prefixed(
            name,
        ) + (prefixed(REPRESENTATION@) + context_end(port, request, limits)))),
{
    let (a, b, c, d) = (prefixed(host), prefixed(user), prefixed(name), prefixed(REPRESENTATION@));
    let p = seq![(port / 256) as u8, (port % 256) as u8];
    let (u, v, l) = (four_bytes(request.uid), four_bytes(request.uid_validity), encode_utf8(limits));
    rows_are_nested(a, b, c, d, p, u, v, l);
}

proof fn rows_are_nested(
    a: Seq<u8>,
    b: Seq<u8>,
    c: Seq<u8>,
    d: Seq<u8>,
    p: Seq<u8>,
    u: Seq<u8>,
    v: Seq<u8>,
    l: Seq<u8>,
)
    ensures
        a + b + c + d + p + u + v + l == a + (b + (c + (d + (p + u + v + l)))),
{
    assert(a + b + c + d + p + u + v + l =~= a + (b + (c + (d + (p + u + v + l)))));
}

proof fn ends_are_told_apart(
    port_a: u16,
    request_a: BodyRequest,
    limits_a: Seq<char>,
    port_b: u16,
    request_b: BodyRequest,
    limits_b: Seq<char>,
)
    requires
        context_end(port_a, request_a, limits_a) == context_end(port_b, request_b, limits_b),
    ensures
        port_a == port_b,
        request_a.uid == request_b.uid && request_a.uid_validity == request_b.uid_validity,
        limits_a == limits_b,
{
    let a = context_end(port_a, request_a, limits_a);
    let b = context_end(port_b, request_b, limits_b);
    assert(a.subrange(2, 6) =~= four_bytes(request_a.uid));
    assert(b.subrange(2, 6) =~= four_bytes(request_b.uid));
    assert(a.subrange(6, 10) =~= four_bytes(request_a.uid_validity));
    assert(b.subrange(6, 10) =~= four_bytes(request_b.uid_validity));
    four_bytes_read_back(request_a.uid);
    four_bytes_read_back(request_b.uid);
    four_bytes_read_back(request_a.uid_validity);
    four_bytes_read_back(request_b.uid_validity);
    assert(a[0] == b[0] && a[1] == b[1]);
    assert((port_a / 256) as u8 == port_a / 256 && (port_b / 256) as u8 == port_b / 256);
    assert((port_a % 256) as u8 == port_a % 256 && (port_b % 256) as u8 == port_b % 256);
    assert(a.skip(10) =~= encode_utf8(limits_a));
    assert(b.skip(10) =~= encode_utf8(limits_b));
    encode_utf8_decode_utf8(limits_a);
    encode_utf8_decode_utf8(limits_b);
}

spec fn context_end(port: u16, request: BodyRequest, limits: Seq<char>) -> Seq<u8> {
    seq![(port / 256) as u8, (port % 256) as u8] + four_bytes(request.uid) + four_bytes(request.uid_validity)
        + encode_utf8(limits)
}

proof fn four_bytes_read_back(value: u32)
    ensures
        four_bytes(value).len() == 4,
        0x100_0000 * four_bytes(value)[0] + 0x1_0000 * four_bytes(value)[1] + 0x100 * four_bytes(value)[2]
            + four_bytes(value)[3] == value,
{
    let a = value as int / 256;
    let b = a / 256;
    let c = b / 256;
    assert(value as int / 0x1_0000 == b);
    assert(value as int / 0x100_0000 == c);
}

/// A body is asked for by a plain mailbox name and numbers that are not zero; any other request is refused.
pub proof fn requests_name_a_message(name: Seq<char>, request: BodyRequest)
    ensures
        request_verdict(name, request) is Ok <==> mailbox_verdict(name) is Ok && request.uid > 0
            && request.uid_validity > 0,
        mailbox_verdict(name) is Ok && (request.uid == 0 || request.uid_validity == 0) ==> request_verdict(
            name,
            request,
        ) == Err::<(), Error>(Error::InvalidInput),
{
}

/// What is fetched of a body: nothing where no part can be shown, the whole message where it is a single
/// part within the limit, and else the part that was chosen.
pub proof fn the_chosen_part_is_fetched(before: BodyReader, after: BodyReader, step: Step)
    requires
        planned(before, after, step),
    ensures
        chosen(before) == Ok::<Option<Choice>, Error>(None) ==> step is Close && after.selected is None,
        chosen(before) matches Ok(Some(choice)) ==> {
            &&& after.selected matches Some(selected) && selected@ == choice
            &&& step matches Step::Fetch(fetch) && fetch.wanted() == before.request.uid && (fetch matches Fetch::Bytes {
                section,
                offset,
                ..
            } && offset == 0 && (section is None <==> before.structure->0 is Single && before.size
                <= before.limits.max_body_wire_bytes) && (section matches Some(named) ==> (named matches Section::Part(
                path,
            ) && path@ == choice.part)))
        },
        chosen(before) is Ok,
{
}

/// A body is what was read of its part, or what follows the headers where the whole message was read.
pub proof fn bodies_are_what_was_read(before: BodyReader, raw: Seq<u8>)
    ensures
        !before.whole && read_body(before, raw) is Ok ==> read_body(before, raw) == Ok::<Seq<u8>, Error>(raw),
        before.whole ==> (read_body(before, raw) matches Ok(body) ==> before.root_headers@ + body == raw),
{
    if before.whole {
        bodies_follow_the_headers(raw, before.root_headers@, before.selected->0@.wire_size);
    }
}

} // verus!
