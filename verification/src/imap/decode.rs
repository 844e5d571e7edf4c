//! Responses and commands as the protocol crate decodes them, turned into the library's own types.
//!
//! The protocol crate's values are opaque here. Each has a name for what it holds and a small
//! function that opens it by one level; the code that walks a response or a command is verified.
use io_imap::codec::decode::Decoder;
use io_imap::codec::{CommandCodec, ResponseCodec};
use io_imap::types::command::CommandBody;
use io_imap::types::datetime::DateTime;
use io_imap::types::envelope::Address as WireAddress;
use io_imap::types::envelope::Envelope as WireEnvelope;
use io_imap::types::fetch::Section as WireSection;
use io_imap::types::fetch::{MacroOrMessageDataItemNames, MessageDataItem, MessageDataItemName};
use io_imap::types::flag::FlagFetch;
use io_imap::types::response::Code as WireCode;
use io_imap::types::response::Response as WireResponse;
use io_imap::types::response::StatusKind as WireKind;
use io_imap::types::response::{Data, Status, StatusBody};
use io_imap::types::sequence::{SeqOrUid, Sequence, SequenceSet};
use io_imap::types::IntoStatic;
use vstd::prelude::*;

use super::fetch::{name_views, Fetch, FetchCommand, Name, NameView};
use super::types::{
    address_views, bytes_view, code_view, item_views, section_view, text_views, Address, AddressView,
    Code, CodeView, Envelope, EnvelopeView, Item, ItemView, Response, ResponseView, Section,
    SectionView, StatusKind,
};
use super::wire::CommandKind;

verus! {

/// The section of a message that a field names.
#[verifier::external_type_specification]
#[verifier::external_body]
pub struct ExSection<'a>(WireSection<'a>);

/// One address of an envelope.
#[verifier::external_type_specification]
#[verifier::external_body]
pub struct ExAddress<'a>(WireAddress<'a>);

/// The envelope of a message.
#[verifier::external_type_specification]
#[verifier::external_body]
pub struct ExEnvelope<'a>(WireEnvelope<'a>);

/// A flag of a message.
#[verifier::external_type_specification]
#[verifier::external_body]
pub struct ExFlagFetch<'a>(FlagFetch<'a>);

/// The date that a server keeps for a message.
#[verifier::external_type_specification]
#[verifier::external_body]
pub struct ExDateTime(DateTime);

/// One field of a FETCH row.
#[verifier::external_type_specification]
#[verifier::external_body]
pub struct ExMessageDataItem<'a>(MessageDataItem<'a>);

/// A response code.
#[verifier::external_type_specification]
#[verifier::external_body]
pub struct ExCode<'a>(WireCode<'a>);

/// The kind and the code of a status response.
#[verifier::external_type_specification]
#[verifier::external_body]
pub struct ExStatusBody<'a>(StatusBody<'a>);

/// A data response.
#[verifier::external_type_specification]
#[verifier::external_body]
pub struct ExData<'a>(Data<'a>);

/// A response.
#[verifier::external_type_specification]
#[verifier::external_body]
pub struct ExResponse<'a>(WireResponse<'a>);

/// One name in a FETCH command.
#[verifier::external_type_specification]
#[verifier::external_body]
pub struct ExMessageDataItemName<'a>(MessageDataItemName<'a>);

/// The messages that a command names.
#[verifier::external_type_specification]
#[verifier::external_body]
pub struct ExSequenceSet(SequenceSet);

/// What a command asks for.
#[verifier::external_type_specification]
#[verifier::external_body]
pub struct ExCommandBody<'a>(CommandBody<'a>);

/// What a section names.
pub uninterp spec fn section_of(value: WireSection<'static>) -> SectionView;

/// The variants of `Section`: the header of the message itself, the MIME header or the contents of a part
/// by its path, and anything else.
#[verifier::external_body]
fn read_section(value: &WireSection<'static>) -> (r: Section)
    ensures
        r@ == section_of(*value),
{
    match value {
        WireSection::Header(None) => Section::Header,
        WireSection::Mime(part) => {
            Section::Mime(part.0.as_ref().iter().map(|number| number.get()).collect())
        },
        WireSection::Part(part) => {
            Section::Part(part.0.as_ref().iter().map(|number| number.get()).collect())
        },
        _ => Section::Other,
    }
}

pub open spec fn named_section(value: Option<&WireSection<'static>>) -> Option<SectionView> {
    match value {
        Some(value) => Some(section_of(*value)),
        None => None,
    }
}

fn read_named_section(value: Option<&WireSection<'static>>) -> (r: Option<Section>)
    ensures
        section_view(r) == named_section(value),
{
    match value {
        Some(value) => Some(read_section(value)),
        None => None,
    }
}

/// The four strings of an address.
pub uninterp spec fn address_of(value: WireAddress<'static>) -> AddressView;

/// The fields of `Address`, as the octets of their strings.
#[verifier::external_body]
fn read_address(value: &WireAddress<'static>) -> (r: Address)
    ensures
        r@ == address_of(*value),
{
    Address {
        name: value.name.0.as_ref().map(|text| text.as_ref().to_vec()),
        route: value.adl.0.as_ref().map(|text| text.as_ref().to_vec()),
        mailbox: value.mailbox.0.as_ref().map(|text| text.as_ref().to_vec()),
        host: value.host.0.as_ref().map(|text| text.as_ref().to_vec()),
    }
}

pub open spec fn addresses_of(values: Seq<WireAddress<'static>>) -> Seq<AddressView> {
    values.map_values(|value: WireAddress<'static>| address_of(value))
}

fn read_addresses(values: &Vec<WireAddress<'static>>) -> (r: Vec<Address>)
    ensures
        address_views(r@) == addresses_of(values@),
{
    let mut found: Vec<Address> = Vec::new();
    for i in 0..values.len()
        invariant
            found@.len() == i,
            forall|j: int| 0 <= j < i ==> (#[trigger] found@[j])@ == address_of(values@[j]),
    {
        found.push(read_address(&values[i]));
    }
    assert(address_views(found@) =~= addresses_of(values@));
    found
}

/// The fields of an envelope.
pub uninterp spec fn envelope_of(value: WireEnvelope<'static>) -> EnvelopeView;

/// An envelope whose addresses are still the protocol crate's.
pub struct OpenedEnvelope<'a> {
    pub date: Option<Vec<u8>>,
    pub subject: Option<Vec<u8>>,
    pub from: &'a Vec<WireAddress<'static>>,
    pub sender: &'a Vec<WireAddress<'static>>,
    pub reply_to: &'a Vec<WireAddress<'static>>,
    pub to: &'a Vec<WireAddress<'static>>,
    pub cc: &'a Vec<WireAddress<'static>>,
    pub bcc: &'a Vec<WireAddress<'static>>,
    pub in_reply_to: Option<Vec<u8>>,
    pub message_id: Option<Vec<u8>>,
}

pub open spec fn envelope_within(value: OpenedEnvelope) -> EnvelopeView {
    EnvelopeView {
        date: bytes_view(value.date),
        subject: bytes_view(value.subject),
        from: addresses_of(value.from@),
        sender: addresses_of(value.sender@),
        reply_to: addresses_of(value.reply_to@),
        to: addresses_of(value.to@),
        cc: addresses_of(value.cc@),
        bcc: addresses_of(value.bcc@),
        in_reply_to: bytes_view(value.in_reply_to),
        message_id: bytes_view(value.message_id),
    }
}

/// The fields of `Envelope`: strings as their octets, addresses as they are.
#[verifier::external_body]
fn open_envelope<'a>(value: &'a WireEnvelope<'static>) -> (r: OpenedEnvelope<'a>)
    ensures
        envelope_within(r) == envelope_of(*value),
{
    OpenedEnvelope {
        date: value.date.0.as_ref().map(|text| text.as_ref().to_vec()),
        subject: value.subject.0.as_ref().map(|text| text.as_ref().to_vec()),
        from: &value.from,
        sender: &value.sender,
        reply_to: &value.reply_to,
        to: &value.to,
        cc: &value.cc,
        bcc: &value.bcc,
        in_reply_to: value.in_reply_to.0.as_ref().map(|text| text.as_ref().to_vec()),
        message_id: value.message_id.0.as_ref().map(|text| text.as_ref().to_vec()),
    }
}

fn read_envelope(value: &WireEnvelope<'static>) -> (r: Envelope)
    ensures
        r@ == envelope_of(*value),
{
    let opened = open_envelope(value);
    Envelope {
        date: opened.date,
        subject: opened.subject,
        from: read_addresses(opened.from),
        sender: read_addresses(opened.sender),
        reply_to: read_addresses(opened.reply_to),
        to: read_addresses(opened.to),
        cc: read_addresses(opened.cc),
        bcc: read_addresses(opened.bcc),
        in_reply_to: opened.in_reply_to,
        message_id: opened.message_id,
    }
}

/// A flag in its written form, or `None` for the one that only a server sets.
pub uninterp spec fn flag_of(value: FlagFetch<'static>) -> Option<Seq<char>>;

/// The variants of `FlagFetch`, with a flag in its written form.
#[verifier::external_body]
fn open_flag(value: &FlagFetch<'static>) -> (r: Option<String>)
    ensures
        match r {
            Some(text) => flag_of(*value) == Some(text@),
            None => flag_of(*value) is None,
        },
{
    match value {
        FlagFetch::Flag(flag) => Some(flag.to_string()),
        FlagFetch::Recent => None,
    }
}

/// The text of a flag.
pub open spec fn flag_text(flag: Option<Seq<char>>) -> Seq<char> {
    match flag {
        Some(text) => text,
        None => "\\Recent"@,
    }
}

pub open spec fn flag_texts(values: Seq<FlagFetch<'static>>) -> Seq<Seq<char>> {
    values.map_values(|value: FlagFetch<'static>| flag_text(flag_of(value)))
}

fn read_flags(values: &Vec<FlagFetch<'static>>) -> (r: Vec<String>)
    ensures
        text_views(r@) == flag_texts(values@),
{
    let mut found: Vec<String> = Vec::new();
    for i in 0..values.len()
        invariant
            found@.len() == i,
            forall|j: int|
                0 <= j < i ==> (#[trigger] found@[j])@ == flag_text(flag_of(values@[j])),
    {
        let text = match open_flag(&values[i]) {
            Some(text) => text,
            None => "\\Recent".to_owned(),
        };
        found.push(text);
    }
    assert(text_views(found@) =~= flag_texts(values@));
    found
}

/// A date and time in the form of RFC 3339.
pub uninterp spec fn date_text(value: DateTime) -> Seq<char>;

/// `DateTime::to_rfc3339` of the date that the server keeps.
#[verifier::external_body]
fn read_date(value: &DateTime) -> (r: String)
    ensures
        r@ == date_text(*value),
{
    value.as_ref().to_rfc3339()
}

/// One field of a row. Of a structure nothing is said but that it is one.
pub uninterp spec fn item_of(value: MessageDataItem<'static>) -> ItemView;

/// A field, opened by one level.
pub enum OpenedItem<'a> {
    Uid(u32),
    Envelope(&'a WireEnvelope<'static>),
    Flags(&'a Vec<FlagFetch<'static>>),
    InternalDate(&'a DateTime),
    Rfc822Size(u32),
    BodyStructure,
    BodyExt {
        section: Option<&'a WireSection<'static>>,
        origin: Option<u32>,
        data: Option<Vec<u8>>,
    },
    Other,
}

pub open spec fn item_within(value: OpenedItem) -> ItemView {
    match value {
        OpenedItem::Uid(uid) => ItemView::Uid(uid),
        OpenedItem::Envelope(envelope) => ItemView::Envelope(envelope_of(*envelope)),
        OpenedItem::Flags(flags) => ItemView::Flags(flag_texts(flags@)),
        OpenedItem::InternalDate(date) => ItemView::InternalDate(date_text(*date)),
        OpenedItem::Rfc822Size(size) => ItemView::Rfc822Size(size),
        OpenedItem::BodyStructure => ItemView::BodyStructure,
        OpenedItem::BodyExt { section, origin, data } => ItemView::BodyExt {
            section: named_section(section),
            origin,
            data: bytes_view(data),
        },
        OpenedItem::Other => ItemView::Other,
    }
}

/// The variants of `MessageDataItem` that the library reads; the others are told apart no further.
#[verifier::external_body]
fn open_item<'a>(value: &'a MessageDataItem<'static>) -> (r: OpenedItem<'a>)
    ensures
        item_within(r) == item_of(*value),
{
    match value {
        MessageDataItem::Uid(uid) => OpenedItem::Uid(uid.get()),
        MessageDataItem::Envelope(envelope) => OpenedItem::Envelope(envelope),
        MessageDataItem::Flags(flags) => OpenedItem::Flags(flags),
        MessageDataItem::InternalDate(date) => OpenedItem::InternalDate(date),
        MessageDataItem::Rfc822Size(size) => OpenedItem::Rfc822Size(*size),
        MessageDataItem::BodyStructure(_) => OpenedItem::BodyStructure,
        MessageDataItem::BodyExt { section, origin, data } => OpenedItem::BodyExt {
            section: section.as_ref(),
            origin: *origin,
            data: data.0.as_ref().map(|text| text.as_ref().to_vec()),
        },
        _ => OpenedItem::Other,
    }
}

/// Reads one field. What the structure of a message is, the caller knows: `structure` stands for it, and
/// a field that is a structure is of no use without it.
pub fn read_item<S>(value: &MessageDataItem<'static>, structure: Option<S>) -> (r: Item<S>)
    ensures
        match (item_of(*value), structure) {
            (ItemView::BodyStructure, Some(structure)) => r == Item::BodyStructure(structure),
            (ItemView::BodyStructure, None) => r is Other,
            (item, _) => r@ == item,
        },
{
    match open_item(value) {
        OpenedItem::Uid(uid) => Item::Uid(uid),
        OpenedItem::Envelope(envelope) => Item::Envelope(read_envelope(envelope)),
        OpenedItem::Flags(flags) => Item::Flags(read_flags(flags)),
        OpenedItem::InternalDate(date) => Item::InternalDate(read_date(date)),
        OpenedItem::Rfc822Size(size) => Item::Rfc822Size(size),
        OpenedItem::BodyStructure => match structure {
            Some(structure) => Item::BodyStructure(structure),
            None => Item::Other,
        },
        OpenedItem::BodyExt { section, origin, data } => Item::BodyExt {
            section: read_named_section(section),
            origin,
            data,
        },
        OpenedItem::Other => Item::Other,
    }
}

pub open spec fn items_of(values: Seq<MessageDataItem<'static>>) -> Seq<ItemView> {
    values.map_values(|value: MessageDataItem<'static>| item_of(value))
}

fn read_row(values: &[MessageDataItem<'static>]) -> (r: Vec<Item<()>>)
    ensures
        item_views(r@) == items_of(values@),
{
    let mut found: Vec<Item<()>> = Vec::new();
    for i in 0..values.len()
        invariant
            found@.len() == i,
            forall|j: int| 0 <= j < i ==> (#[trigger] found@[j])@ == item_of(values@[j]),
    {
        let next = read_item(&values[i], Some(()));
        assert(next@ == item_of(values@[i as int]));
        found.push(next);
    }
    assert(item_views(found@) =~= items_of(values@));
    found
}

/// What a response code says.
pub uninterp spec fn code_of(value: WireCode<'static>) -> CodeView;

/// The variants of `Code` that the library reads; the others are told apart no further.
#[verifier::external_body]
fn read_code(value: &WireCode<'static>) -> (r: Code)
    ensures
        r@ == code_of(*value),
{
    match value {
        WireCode::Referral(_) => Code::Referral,
        WireCode::ReadOnly => Code::ReadOnly,
        WireCode::ReadWrite => Code::ReadWrite,
        WireCode::UidValidity(value) => Code::UidValidity(value.get()),
        WireCode::Other(other) => Code::Other(other.inner().to_vec()),
        _ => Code::Unlisted,
    }
}

pub open spec fn given_code(value: Option<&WireCode<'static>>) -> Option<CodeView> {
    match value {
        Some(value) => Some(code_of(*value)),
        None => None,
    }
}

fn read_given_code(value: Option<&WireCode<'static>>) -> (r: Option<Code>)
    ensures
        code_view(r) == given_code(value),
{
    match value {
        Some(value) => Some(read_code(value)),
        None => None,
    }
}

/// The kind and the code of a status.
pub uninterp spec fn status_of(value: StatusBody<'static>) -> (StatusKind, Option<CodeView>);

/// `StatusBody::kind` and `StatusBody::code`.
#[verifier::external_body]
fn open_status<'a>(
    value: &'a StatusBody<'static>,
) -> (r: (StatusKind, Option<&'a WireCode<'static>>))
    ensures
        (r.0, given_code(r.1)) == status_of(*value),
{
    let kind = match value.kind {
        WireKind::Ok => StatusKind::Success,
        WireKind::No => StatusKind::Refusal,
        WireKind::Bad => StatusKind::Failure,
    };
    (kind, value.code.as_ref())
}

/// A data response over plain values.
pub enum DataView {
    Capability,
    List,
    Flags,
    Exists,
    Recent,
    Expunge,
    Search,
    Fetch { sequence: u32, items: Seq<ItemView> },
    Other,
}

pub uninterp spec fn data_of(value: Data<'static>) -> DataView;

/// A data response, opened by one level.
pub enum OpenedData<'a> {
    Capability,
    List,
    Flags,
    Exists,
    Recent,
    Expunge,
    Search,
    Fetch { sequence: u32, items: &'a [MessageDataItem<'static>] },
    Other,
}

pub open spec fn data_within(value: OpenedData) -> DataView {
    match value {
        OpenedData::Capability => DataView::Capability,
        OpenedData::List => DataView::List,
        OpenedData::Flags => DataView::Flags,
        OpenedData::Exists => DataView::Exists,
        OpenedData::Recent => DataView::Recent,
        OpenedData::Expunge => DataView::Expunge,
        OpenedData::Search => DataView::Search,
        OpenedData::Fetch { sequence, items } => DataView::Fetch {
            sequence,
            items: items_of(items@),
        },
        OpenedData::Other => DataView::Other,
    }
}

/// The variants of `Data` that the library tells apart.
#[verifier::external_body]
fn open_data<'a>(value: &'a Data<'static>) -> (r: OpenedData<'a>)
    ensures
        data_within(r) == data_of(*value),
{
    match value {
        Data::Capability(_) => OpenedData::Capability,
        Data::List { .. } => OpenedData::List,
        Data::Flags(_) => OpenedData::Flags,
        Data::Exists(_) => OpenedData::Exists,
        Data::Recent(_) => OpenedData::Recent,
        Data::Expunge(_) => OpenedData::Expunge,
        Data::Search(..) => OpenedData::Search,
        Data::Fetch { seq, items } => {
            OpenedData::Fetch { sequence: seq.get(), items: items.as_ref() }
        },
        _ => OpenedData::Other,
    }
}

/// A response over plain values, as the protocol crate tells responses apart.
pub enum ReplyView {
    Tagged { tag: Seq<char>, status: (StatusKind, Option<CodeView>) },
    Untagged { status: (StatusKind, Option<CodeView>) },
    Bye { code: Option<CodeView> },
    Data(DataView),
    Continuation,
}

pub uninterp spec fn reply_of(value: WireResponse<'static>) -> ReplyView;

/// A response, opened by one level.
pub enum OpenedReply<'a> {
    Tagged { tag: String, status: &'a StatusBody<'static> },
    Untagged { status: &'a StatusBody<'static> },
    Bye { code: Option<&'a WireCode<'static>> },
    Data(&'a Data<'static>),
    Continuation,
}

pub open spec fn reply_within(value: OpenedReply) -> ReplyView {
    match value {
        OpenedReply::Tagged { tag, status } => ReplyView::Tagged {
            tag: tag@,
            status: status_of(*status),
        },
        OpenedReply::Untagged { status } => ReplyView::Untagged { status: status_of(*status) },
        OpenedReply::Bye { code } => ReplyView::Bye { code: given_code(code) },
        OpenedReply::Data(data) => ReplyView::Data(data_of(*data)),
        OpenedReply::Continuation => ReplyView::Continuation,
    }
}

/// The variants of `Response` and of `Status`.
#[verifier::external_body]
fn open_reply<'a>(value: &'a WireResponse<'static>) -> (r: OpenedReply<'a>)
    ensures
        reply_within(r) == reply_of(*value),
{
    match value {
        WireResponse::Status(Status::Tagged(tagged)) => {
            OpenedReply::Tagged { tag: tagged.tag.as_ref().to_owned(), status: &tagged.body }
        },
        WireResponse::Status(Status::Untagged(body)) => OpenedReply::Untagged { status: body },
        WireResponse::Status(Status::Bye(bye)) => OpenedReply::Bye { code: bye.code.as_ref() },
        WireResponse::Data(data) => OpenedReply::Data(data),
        WireResponse::CommandContinuationRequest(_) => OpenedReply::Continuation,
    }
}

/// What a response means to an exchange.
pub open spec fn understood(reply: ReplyView) -> ResponseView {
    match reply {
        ReplyView::Tagged { tag, status } => ResponseView::Tagged {
            tag,
            kind: status.0,
            code: status.1,
        },
        ReplyView::Untagged { status } => ResponseView::Untagged { kind: status.0, code: status.1 },
        ReplyView::Bye { code } => ResponseView::Bye { code },
        ReplyView::Data(
            DataView::Capability
            | DataView::List
            | DataView::Flags
            | DataView::Exists
            | DataView::Recent
            | DataView::Expunge,
        ) => ResponseView::Ordinary,
        ReplyView::Data(DataView::Search) => ResponseView::Search,
        ReplyView::Data(DataView::Fetch { sequence, items }) => ResponseView::Fetch {
            sequence,
            items,
        },
        ReplyView::Data(DataView::Other) => ResponseView::OtherData,
        ReplyView::Continuation => ResponseView::Continuation,
    }
}

fn read_reply(value: &WireResponse<'static>) -> (r: Response)
    ensures
        r@ == understood(reply_of(*value)),
{
    match open_reply(value) {
        OpenedReply::Tagged { tag, status } => {
            let (kind, code) = open_status(status);
            Response::Tagged { tag, kind, code: read_given_code(code) }
        },
        OpenedReply::Untagged { status } => {
            let (kind, code) = open_status(status);
            Response::Untagged { kind, code: read_given_code(code) }
        },
        OpenedReply::Bye { code } => Response::Bye { code: read_given_code(code) },
        OpenedReply::Data(data) => match open_data(data) {
            OpenedData::Capability
            | OpenedData::List
            | OpenedData::Flags
            | OpenedData::Exists
            | OpenedData::Recent
            | OpenedData::Expunge => Response::Ordinary,
            OpenedData::Search => Response::Search,
            OpenedData::Fetch { sequence, items } => Response::Fetch {
                sequence,
                items: read_row(items),
            },
            OpenedData::Other => Response::OtherData,
        },
        OpenedReply::Continuation => Response::Continuation,
    }
}

/// The response at the start of the bytes, and how many bytes follow it.
pub uninterp spec fn wire_response(frame: Seq<u8>) -> Option<(nat, ReplyView)>;

/// `ResponseCodec::decode`. Its result depends on the bytes alone. It answers with an error where the
/// bytes do not start with a whole response.
#[verifier::external_body]
fn decode_response(frame: &[u8]) -> (r: Option<(usize, WireResponse<'static>)>)
    ensures
        match r {
            Some((rest, response)) => wire_response(frame@) == Some(
                (rest as nat, reply_of(response)),
            ),
            None => wire_response(frame@) is None,
        },
{
    let (rest, response) = ResponseCodec::new().decode(frame).ok()?;
    Some((rest.len(), response.into_static()))
}

/// The response that the bytes are, all of them.
pub open spec fn sole_response(frame: Seq<u8>) -> Option<ResponseView> {
    match wire_response(frame) {
        Some((rest, reply)) => if rest == 0 {
            Some(understood(reply))
        } else {
            None
        },
        None => None,
    }
}

/// Decodes a frame that holds one response and nothing else.
pub fn read_response(frame: &[u8]) -> (r: Option<Response>)
    ensures
        match r {
            Some(response) => sole_response(frame@) == Some(response@),
            None => sole_response(frame@) is None,
        },
{
    match decode_response(frame) {
        Some((rest, response)) => if rest == 0 {
            Some(read_reply(&response))
        } else {
            None
        },
        None => None,
    }
}

/// What a name in a FETCH command asks for.
pub uninterp spec fn name_of(value: MessageDataItemName<'static>) -> NameView;

/// A name, opened by one level.
pub enum OpenedName<'a> {
    Uid,
    Rfc822Size,
    BodyStructure,
    BodyExt {
        section: Option<&'a WireSection<'static>>,
        partial: Option<(u32, u32)>,
        peek: bool,
    },
    Other,
}

pub open spec fn name_within(value: OpenedName) -> NameView {
    match value {
        OpenedName::Uid => NameView::Uid,
        OpenedName::Rfc822Size => NameView::Rfc822Size,
        OpenedName::BodyStructure => NameView::BodyStructure,
        OpenedName::BodyExt { section, partial, peek } => NameView::BodyExt {
            section: named_section(section),
            partial,
            peek,
        },
        OpenedName::Other => NameView::Other,
    }
}

/// The variants of `MessageDataItemName` that the library asks for.
#[verifier::external_body]
fn open_name<'a>(value: &'a MessageDataItemName<'static>) -> (r: OpenedName<'a>)
    ensures
        name_within(r) == name_of(*value),
{
    match value {
        MessageDataItemName::Uid => OpenedName::Uid,
        MessageDataItemName::Rfc822Size => OpenedName::Rfc822Size,
        MessageDataItemName::BodyStructure => OpenedName::BodyStructure,
        MessageDataItemName::BodyExt { section, partial, peek } => OpenedName::BodyExt {
            section: section.as_ref(),
            partial: partial.map(|(offset, count)| (offset, count.get())),
            peek: *peek,
        },
        _ => OpenedName::Other,
    }
}

fn read_name(value: &MessageDataItemName<'static>) -> (r: Name)
    ensures
        r@ == name_of(*value),
{
    match open_name(value) {
        OpenedName::Uid => Name::Uid,
        OpenedName::Rfc822Size => Name::Rfc822Size,
        OpenedName::BodyStructure => Name::BodyStructure,
        OpenedName::BodyExt { section, partial, peek } => Name::BodyExt {
            section: read_named_section(section),
            partial,
            peek,
        },
        OpenedName::Other => Name::Other,
    }
}

pub open spec fn names_of(values: Seq<MessageDataItemName<'static>>) -> Seq<NameView> {
    values.map_values(|value: MessageDataItemName<'static>| name_of(value))
}

/// The entries of a sequence set, each with its number or with `None` for a range or a wildcard.
pub uninterp spec fn numbers_of(value: SequenceSet) -> Seq<Option<u32>>;

/// The entries of `SequenceSet`, one for one and in order.
#[verifier::external_body]
fn read_numbers(value: &SequenceSet) -> (r: Vec<Option<u32>>)
    ensures
        r@ == numbers_of(*value),
{
    let single = |entry: &Sequence| match entry {
        Sequence::Single(SeqOrUid::Value(number)) => Some(number.get()),
        _ => None,
    };
    value.0.as_ref().iter().map(single).collect()
}

/// A command over plain values.
pub enum CommandView {
    Logout,
    Search,
    /// The message numbers, `None` for each that is a range or a wildcard; and the names, unless the
    /// command gives a macro in their place.
    Fetch {
        numbers: Seq<Option<u32>>,
        by_uid: bool,
        modifiers: nat,
        names: Option<Seq<NameView>>,
    },
    Other,
}

pub uninterp spec fn command_of(value: CommandBody<'static>) -> CommandView;

/// A command, opened by one level.
pub enum OpenedCommand<'a> {
    Logout,
    Search,
    Fetch {
        set: &'a SequenceSet,
        by_uid: bool,
        modifiers: usize,
        names: Option<&'a Vec<MessageDataItemName<'static>>>,
    },
    Other,
}

pub open spec fn command_within(value: OpenedCommand) -> CommandView {
    match value {
        OpenedCommand::Logout => CommandView::Logout,
        OpenedCommand::Search => CommandView::Search,
        OpenedCommand::Fetch { set, by_uid, modifiers, names } => CommandView::Fetch {
            numbers: numbers_of(*set),
            by_uid,
            modifiers: modifiers as nat,
            names: match names {
                Some(names) => Some(names_of(names@)),
                None => None,
            },
        },
        OpenedCommand::Other => CommandView::Other,
    }
}

/// The variants of `CommandBody` that the library reads back; the others are told apart no further.
#[verifier::external_body]
fn open_command<'a>(value: &'a CommandBody<'static>) -> (r: OpenedCommand<'a>)
    ensures
        command_within(r) == command_of(*value),
{
    match value {
        CommandBody::Logout => OpenedCommand::Logout,
        CommandBody::Search { .. } => OpenedCommand::Search,
        CommandBody::Fetch { sequence_set, macro_or_item_names, uid, modifiers } => OpenedCommand::Fetch {
            set: sequence_set,
            by_uid: *uid,
            modifiers: modifiers.len(),
            names: match macro_or_item_names {
                MacroOrMessageDataItemNames::MessageDataItemNames(names) => Some(names),
                MacroOrMessageDataItemNames::Macro(_) => None,
            },
        },
        _ => OpenedCommand::Other,
    }
}

/// The tag and the body of the command at the start of the bytes.
pub uninterp spec fn wire_command(bytes: Seq<u8>) -> Option<(Seq<char>, CommandView)>;

/// `CommandCodec::decode`. Its result depends on the bytes alone; what follows the command is left
/// unread.
#[verifier::external_body]
fn decode_command(bytes: &[u8]) -> (r: Option<(String, CommandBody<'static>)>)
    ensures
        match r {
            Some((tag, body)) => wire_command(bytes@) == Some((tag@, command_of(body))),
            None => wire_command(bytes@) is None,
        },
{
    let (_, command) = CommandCodec::new().decode(bytes).ok()?;
    Some((command.tag.as_ref().to_owned(), command.body.into_static()))
}

/// What a command is to an exchange.
pub open spec fn kind_of(command: CommandView) -> CommandKind {
    match command {
        CommandView::Logout => CommandKind::Logout,
        CommandView::Search => CommandKind::Search,
        _ => CommandKind::Other,
    }
}

/// The command is a FETCH that names each of its messages and each of its fields.
pub open spec fn spells_out(command: CommandView, asked: FetchCommand) -> bool {
    &&& command matches CommandView::Fetch { numbers, by_uid, modifiers, names }
    &&& numbers == asked.numbers@.map_values(|number: u32| Some(number))
    &&& by_uid == asked.by_uid
    &&& asked.modified == (modifiers > 0)
    &&& names == Some(name_views(asked.names@))
}

/// The read that the command performs, where it is one of the library's own.
pub open spec fn performs(command: CommandView, fetch: Option<Fetch>) -> bool {
    match fetch {
        Some(fetch) => exists|asked: FetchCommand|
            #[trigger] spells_out(command, asked) && fetch.is_read_by(asked),
        None => forall|asked: FetchCommand, fetch: Fetch|
            !(#[trigger] spells_out(command, asked) && #[trigger] fetch.is_read_by(asked)),
    }
}

/// The numbers, unless one of the entries is not a number.
fn each_number(entries: &Vec<Option<u32>>) -> (r: Option<Vec<u32>>)
    ensures
        match r {
            Some(numbers) => entries@ == numbers@.map_values(|number: u32| Some(number)),
            None => exists|i: int| 0 <= i < entries@.len() && #[trigger] entries@[i] is None,
        },
{
    let mut numbers: Vec<u32> = Vec::new();
    for i in 0..entries.len()
        invariant
            numbers@.len() == i,
            forall|j: int| 0 <= j < i ==> #[trigger] entries@[j] == Some(numbers@[j]),
    {
        match entries[i] {
            Some(number) => numbers.push(number),
            None => {
                assert(entries@[i as int] is None);
                return None;
            },
        }
    }
    assert(entries@ =~= numbers@.map_values(|number: u32| Some(number)));
    Some(numbers)
}

fn read_names(values: &Vec<MessageDataItemName<'static>>) -> (r: Vec<Name>)
    ensures
        name_views(r@) == names_of(values@),
{
    let mut found: Vec<Name> = Vec::new();
    for i in 0..values.len()
        invariant
            found@.len() == i,
            forall|j: int| 0 <= j < i ==> (#[trigger] found@[j])@ == name_of(values@[j]),
    {
        found.push(read_name(&values[i]));
    }
    assert(name_views(found@) =~= names_of(values@));
    found
}

/// What of a command the exchange keeps.
#[derive(Debug)]
pub struct Outgoing {
    pub tag: String,
    pub kind: CommandKind,
    pub fetch: Option<Fetch>,
}

/// Reads back a command that is about to be written.
pub fn read_command(bytes: &[u8]) -> (r: Option<Outgoing>)
    ensures
        match r {
            Some(outgoing) => wire_command(bytes@) matches Some((tag, command)) && outgoing.tag@
                == tag && outgoing.kind == kind_of(command) && performs(command, outgoing.fetch),
            None => wire_command(bytes@) is None,
        },
{
    let (tag, body) = match decode_command(bytes) {
        Some(found) => found,
        None => {
            return None;
        },
    };
    let ghost command = command_of(body);
    match open_command(&body) {
        OpenedCommand::Logout => Some(Outgoing { tag, kind: CommandKind::Logout, fetch: None }),
        OpenedCommand::Search => Some(Outgoing { tag, kind: CommandKind::Search, fetch: None }),
        OpenedCommand::Fetch { set, by_uid, modifiers, names } => {
            let entries = read_numbers(set);
            let numbers = each_number(&entries);
            let fetch = match (numbers, names) {
                (Some(numbers), Some(names)) => {
                    let asked = FetchCommand {
                        numbers,
                        by_uid,
                        modified: modifiers > 0,
                        names: read_names(names),
                    };
                    assert(spells_out(command, asked));
                    let fetch = Fetch::from_command(&asked);
                    proof {
                        if fetch is None {
                            assert forall|other: FetchCommand, read: Fetch| !(#[trigger] spells_out(
                                command,
                                other,
                            ) && #[trigger] read.is_read_by(other)) by {
                                if spells_out(command, other) && read.is_read_by(other) {
                                    same_spelling(command, asked, other);
                                    read.read_alike(other, asked);
                                }
                            }
                        }
                    }
                    fetch
                },
                (None, _) => {
                    proof {
                        let i = choose|i: int| 0 <= i < entries@.len() && #[trigger] entries@[i] is None;
                        assert forall|other: FetchCommand, read: Fetch| !(#[trigger] spells_out(
                            command,
                            other,
                        ) && #[trigger] read.is_read_by(other)) by {
                            if spells_out(command, other) {
                                assert(entries@[i] == Some(other.numbers@[i]));
                            }
                        }
                    }
                    None
                },
                (_, None) => None,
            };
            Some(Outgoing { tag, kind: CommandKind::Other, fetch })
        },
        OpenedCommand::Other => Some(Outgoing { tag, kind: CommandKind::Other, fetch: None }),
    }
}

/// A command spells out one request.
proof fn same_spelling(command: CommandView, a: FetchCommand, b: FetchCommand)
    requires
        spells_out(command, a),
        spells_out(command, b),
    ensures
        a.numbers@ == b.numbers@,
        a.by_uid == b.by_uid,
        a.modified == b.modified,
        name_views(a.names@) == name_views(b.names@),
{
    let mapped = a.numbers@.map_values(|number: u32| Some(number));
    assert(mapped == b.numbers@.map_values(|number: u32| Some(number)));
    assert(a.numbers@.len() == b.numbers@.len());
    assert forall|i: int| 0 <= i < a.numbers@.len() implies a.numbers@[i] == b.numbers@[i] by {
        assert(mapped[i] == Some(a.numbers@[i]));
        assert(mapped[i] == Some(b.numbers@[i]));
    }
    assert(a.numbers@ =~= b.numbers@);
}

/// A reply is understood as what it is: a status keeps its tag, its kind and its code, data that needs no
/// answer is ordinary, and data that is not known is not taken for any other.
pub proof fn replies_are_understood_as_they_are(reply: ReplyView)
    ensures
        reply matches ReplyView::Tagged { tag, status } ==> (understood(reply) matches ResponseView::Tagged {
            tag: kept,
            kind,
            code,
        } && kept == tag && kind == status.0 && code == status.1),
        reply matches ReplyView::Untagged { status } ==> (understood(reply) matches ResponseView::Untagged { kind, code }
            && kind == status.0 && code == status.1),
        reply matches ReplyView::Bye { code } ==> understood(reply) == (ResponseView::Bye { code }),
        understood(reply) is Continuation <==> reply is Continuation,
        understood(reply) is Search <==> (reply matches ReplyView::Data(data) && data is Search),
        understood(reply) is Fetch <==> (reply matches ReplyView::Data(data) && data is Fetch),
        understood(reply) is OtherData <==> (reply matches ReplyView::Data(data) && data is Other),
        understood(reply) is Ordinary <==> (reply matches ReplyView::Data(data) && (data is Capability || data is List
            || data is Flags || data is Exists || data is Recent || data is Expunge)),
{
}

/// A flag goes by its own text, and the one without a text is the one of recent messages.
pub proof fn flags_have_a_text(flag: Option<Seq<char>>)
    ensures
        flag matches Some(text) ==> flag_text(flag) == text,
        flag is None ==> flag_text(flag) == seq!['\\', 'R', 'e', 'c', 'e', 'n', 't'],
{
    reveal_strlit("\\Recent");
    assert("\\Recent"@ =~= seq!['\\', 'R', 'e', 'c', 'e', 'n', 't']);
}

/// A response stands alone in its frame, or it is none.
pub proof fn responses_stand_alone(frame: Seq<u8>)
    ensures
        sole_response(frame) is Some <==> (wire_response(frame) matches Some((rest, _)) && rest == 0),
        wire_response(frame) matches Some((rest, reply)) ==> rest == 0 ==> sole_response(frame) == Some(
            understood(reply),
        ),
{
}

} // verus!
