//! Responses and message structures as plain values.
use vstd::prelude::*;

verus! {

/// A parameter: its name and its value, as the server sent them.
pub type Parameter = (Vec<u8>, Vec<u8>);

/// How the sender wants a part to be shown.
#[derive(Debug)]
pub struct Disposition {
    pub kind: Vec<u8>,
    pub parameters: Vec<Parameter>,
}

#[derive(Debug)]
pub enum BodyKind {
    Basic { kind: Vec<u8>, subtype: Vec<u8> },
    Text { subtype: Vec<u8> },
    Message { structure: Box<Structure> },
}

#[derive(Debug)]
pub struct Body {
    pub kind: BodyKind,
    pub parameters: Vec<Parameter>,
    pub id: Option<Vec<u8>>,
    pub transfer_encoding: Vec<u8>,
    pub size: u32,
}

/// The MIME structure of a message.
#[derive(Debug)]
pub enum Structure {
    Single { body: Body, disposition: Option<Disposition> },
    Multi {
        bodies: Vec<Structure>,
        subtype: Vec<u8>,
        parameters: Vec<Parameter>,
        disposition: Option<Disposition>,
    },
}

/// What part of a message is fetched.
#[derive(Debug)]
pub enum Section {
    Header,
    Mime(Vec<u32>),
    Part(Vec<u32>),
    Other,
}

impl Section {
    /// Both name the same part of the same message.
    pub open spec fn names(self, other: Section) -> bool {
        match (self, other) {
            (Section::Header, Section::Header) => true,
            (Section::Mime(a), Section::Mime(b)) => a@ == b@,
            (Section::Part(a), Section::Part(b)) => a@ == b@,
            _ => false,
        }
    }

    pub fn same_as(&self, other: &Section) -> (r: bool)
        ensures
            r == self.names(*other),
    {
        match (self, other) {
            (Section::Header, Section::Header) => true,
            (Section::Mime(a), Section::Mime(b)) => same_path(a, b),
            (Section::Part(a), Section::Part(b)) => same_path(a, b),
            _ => false,
        }
    }
}

/// Whether both paths are equal.
pub fn same_path(a: &Vec<u32>, b: &Vec<u32>) -> (r: bool)
    ensures
        r == (a@ == b@),
{
    if a.len() != b.len() {
        return false;
    }
    for i in 0..a.len()
        invariant
            a@.len() == b@.len(),
            forall|j: int| 0 <= j < i ==> a@[j] == b@[j],
    {
        if a[i] != b[i] {
            return false;
        }
    }
    assert(a@ =~= b@);
    true
}

/// An address of an envelope, as the server sent it.
#[derive(Debug)]
pub struct Address {
    pub name: Option<Vec<u8>>,
    pub route: Option<Vec<u8>>,
    pub mailbox: Option<Vec<u8>>,
    pub host: Option<Vec<u8>>,
}

/// The envelope of a message, as the server sent it.
#[derive(Debug)]
pub struct Envelope {
    pub date: Option<Vec<u8>>,
    pub subject: Option<Vec<u8>>,
    pub from: Vec<Address>,
    pub sender: Vec<Address>,
    pub reply_to: Vec<Address>,
    pub to: Vec<Address>,
    pub cc: Vec<Address>,
    pub bcc: Vec<Address>,
    pub in_reply_to: Option<Vec<u8>>,
    pub message_id: Option<Vec<u8>>,
}

/// One field of a FETCH response, with the message structure as `S`.
#[derive(Debug)]
pub enum Item<S = Structure> {
    Uid(u32),
    Envelope(Envelope),
    Flags(Vec<String>),
    InternalDate(String),
    Rfc822Size(u32),
    BodyStructure(S),
    BodyExt { section: Option<Section>, origin: Option<u32>, data: Option<Vec<u8>> },
    Other,
}

#[derive(Clone, Copy, Debug, PartialEq, Eq, Structural)]
pub enum StatusKind {
    Success,
    Refusal,
    Failure,
}

/// The response code of a status response.
#[derive(Debug)]
pub enum Code {
    Referral,
    ReadOnly,
    ReadWrite,
    UidValidity(u32),
    Other(Vec<u8>),
    Unlisted,
}

/// A complete response of the server.
#[derive(Debug)]
pub enum Response {
    Tagged { tag: String, kind: StatusKind, code: Option<Code> },
    Untagged { kind: StatusKind, code: Option<Code> },
    Bye { code: Option<Code> },
    /// CAPABILITY, LIST, FLAGS, EXISTS, RECENT and EXPUNGE data.
    Ordinary,
    Search,
    /// A row. What the structure of a message is does not matter here, only that the row has one.
    Fetch { sequence: u32, items: Vec<Item<()>> },
    OtherData,
    Continuation,
}

/// What a section names, over plain values.
pub enum SectionView {
    Header,
    Mime(Seq<u32>),
    Part(Seq<u32>),
    Other,
}

pub struct AddressView {
    pub name: Option<Seq<u8>>,
    pub route: Option<Seq<u8>>,
    pub mailbox: Option<Seq<u8>>,
    pub host: Option<Seq<u8>>,
}

pub struct EnvelopeView {
    pub date: Option<Seq<u8>>,
    pub subject: Option<Seq<u8>>,
    pub from: Seq<AddressView>,
    pub sender: Seq<AddressView>,
    pub reply_to: Seq<AddressView>,
    pub to: Seq<AddressView>,
    pub cc: Seq<AddressView>,
    pub bcc: Seq<AddressView>,
    pub in_reply_to: Option<Seq<u8>>,
    pub message_id: Option<Seq<u8>>,
}

pub enum ItemView {
    Uid(u32),
    Envelope(EnvelopeView),
    Flags(Seq<Seq<char>>),
    InternalDate(Seq<char>),
    Rfc822Size(u32),
    BodyStructure,
    BodyExt { section: Option<SectionView>, origin: Option<u32>, data: Option<Seq<u8>> },
    Other,
}

pub enum CodeView {
    Referral,
    ReadOnly,
    ReadWrite,
    UidValidity(u32),
    Other(Seq<u8>),
    Unlisted,
}

pub enum ResponseView {
    Tagged { tag: Seq<char>, kind: StatusKind, code: Option<CodeView> },
    Untagged { kind: StatusKind, code: Option<CodeView> },
    Bye { code: Option<CodeView> },
    Ordinary,
    Search,
    Fetch { sequence: u32, items: Seq<ItemView> },
    OtherData,
    Continuation,
}

pub open spec fn bytes_view(bytes: Option<Vec<u8>>) -> Option<Seq<u8>> {
    match bytes {
        Some(bytes) => Some(bytes@),
        None => None,
    }
}

pub open spec fn section_view(section: Option<Section>) -> Option<SectionView> {
    match section {
        Some(section) => Some(section@),
        None => None,
    }
}

impl View for Section {
    type V = SectionView;

    open spec fn view(&self) -> SectionView {
        match *self {
            Section::Header => SectionView::Header,
            Section::Mime(path) => SectionView::Mime(path@),
            Section::Part(path) => SectionView::Part(path@),
            Section::Other => SectionView::Other,
        }
    }
}

impl View for Address {
    type V = AddressView;

    open spec fn view(&self) -> AddressView {
        AddressView {
            name: bytes_view(self.name),
            route: bytes_view(self.route),
            mailbox: bytes_view(self.mailbox),
            host: bytes_view(self.host),
        }
    }
}

pub open spec fn address_views(addresses: Seq<Address>) -> Seq<AddressView> {
    addresses.map_values(|address: Address| address@)
}

impl View for Envelope {
    type V = EnvelopeView;

    open spec fn view(&self) -> EnvelopeView {
        EnvelopeView {
            date: bytes_view(self.date),
            subject: bytes_view(self.subject),
            from: address_views(self.from@),
            sender: address_views(self.sender@),
            reply_to: address_views(self.reply_to@),
            to: address_views(self.to@),
            cc: address_views(self.cc@),
            bcc: address_views(self.bcc@),
            in_reply_to: bytes_view(self.in_reply_to),
            message_id: bytes_view(self.message_id),
        }
    }
}

pub open spec fn text_views(texts: Seq<String>) -> Seq<Seq<char>> {
    texts.map_values(|text: String| text@)
}

impl<S> View for Item<S> {
    type V = ItemView;

    open spec fn view(&self) -> ItemView {
        match *self {
            Item::Uid(uid) => ItemView::Uid(uid),
            Item::Envelope(envelope) => ItemView::Envelope(envelope@),
            Item::Flags(flags) => ItemView::Flags(text_views(flags@)),
            Item::InternalDate(date) => ItemView::InternalDate(date@),
            Item::Rfc822Size(size) => ItemView::Rfc822Size(size),
            Item::BodyStructure(_) => ItemView::BodyStructure,
            Item::BodyExt { section, origin, data } => ItemView::BodyExt {
                section: section_view(section),
                origin,
                data: bytes_view(data),
            },
            Item::Other => ItemView::Other,
        }
    }
}

pub open spec fn item_views<S>(items: Seq<Item<S>>) -> Seq<ItemView> {
    items.map_values(|item: Item<S>| item@)
}

pub open spec fn code_view(code: Option<Code>) -> Option<CodeView> {
    match code {
        Some(code) => Some(code@),
        None => None,
    }
}

impl View for Code {
    type V = CodeView;

    open spec fn view(&self) -> CodeView {
        match *self {
            Code::Referral => CodeView::Referral,
            Code::ReadOnly => CodeView::ReadOnly,
            Code::ReadWrite => CodeView::ReadWrite,
            Code::UidValidity(value) => CodeView::UidValidity(value),
            Code::Other(text) => CodeView::Other(text@),
            Code::Unlisted => CodeView::Unlisted,
        }
    }
}

impl View for Response {
    type V = ResponseView;

    open spec fn view(&self) -> ResponseView {
        match *self {
            Response::Tagged { tag, kind, code } => ResponseView::Tagged {
                tag: tag@,
                kind,
                code: code_view(code),
            },
            Response::Untagged { kind, code } => ResponseView::Untagged {
                kind,
                code: code_view(code),
            },
            Response::Bye { code } => ResponseView::Bye { code: code_view(code) },
            Response::Ordinary => ResponseView::Ordinary,
            Response::Search => ResponseView::Search,
            Response::Fetch { sequence, items } => ResponseView::Fetch {
                sequence,
                items: item_views(items@),
            },
            Response::OtherData => ResponseView::OtherData,
            Response::Continuation => ResponseView::Continuation,
        }
    }
}

} // verus!
