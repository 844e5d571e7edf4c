//! Typed bounded FETCH requests and response validation, shared by body and attachment reads.
use vstd::prelude::*;
use vstd::utf8::encode_utf8;

use super::mime::{part_name, part_text};
use super::types::{section_view, Item, Section, SectionView};
use super::Error;
use crate::text::{decimal, decimal_text, equal_ignoring_case, is_digit};

verus! {

/// Request and response validation stay together; the wire driver applies this contract before
/// the backend can accumulate or merge FETCH rows.
#[derive(Debug)]
pub enum Fetch {
    Metadata { uid: u32 },
    Bytes { uid: u32, section: Option<Section>, offset: u32, count: u32 },
}

/// One name in a FETCH command.
#[derive(Debug)]
pub enum Name {
    Uid,
    Rfc822Size,
    BodyStructure,
    BodyExt { section: Option<Section>, partial: Option<(u32, u32)>, peek: bool },
    Other,
}

/// One name in a FETCH command, over plain values.
pub enum NameView {
    Uid,
    Rfc822Size,
    BodyStructure,
    BodyExt { section: Option<SectionView>, partial: Option<(u32, u32)>, peek: bool },
    Other,
}

impl View for Name {
    type V = NameView;

    open spec fn view(&self) -> NameView {
        match *self {
            Name::Uid => NameView::Uid,
            Name::Rfc822Size => NameView::Rfc822Size,
            Name::BodyStructure => NameView::BodyStructure,
            Name::BodyExt { section, partial, peek } => NameView::BodyExt {
                section: section_view(section),
                partial,
                peek,
            },
            Name::Other => NameView::Other,
        }
    }
}

pub open spec fn name_views(names: Seq<Name>) -> Seq<NameView> {
    names.map_values(|name: Name| name@)
}

/// A FETCH command about to be sent.
#[derive(Debug)]
pub struct FetchCommand {
    /// The message numbers, where the command names each of them.
    pub numbers: Vec<u32>,
    pub by_uid: bool,
    pub modified: bool,
    pub names: Vec<Name>,
}

/// Whether the scanner of an IMAP line is inside a quoted string before byte `i`, and whether that
/// byte is escaped.
pub open spec fn quotes_before(line: Seq<u8>, i: int) -> (bool, bool)
    decreases i,
{
    if i <= 0 {
        (false, false)
    } else {
        let (quoted, escaped) = quotes_before(line, i - 1);
        let byte = line[i - 1];
        if escaped {
            (quoted, false)
        } else if quoted && byte == 0x5c {
            (quoted, true)
        } else if byte == 0x22 {
            (!quoted, false)
        } else {
            (quoted, false)
        }
    }
}

/// A literal announcement: digits in braces, up to the end of the line.
pub open spec fn is_announcement(tail: Seq<u8>) -> bool {
    &&& tail.len() >= 3
    &&& tail[0] == 0x7b
    &&& tail.last() == 0x7d
    &&& forall|i: int| 1 <= i < tail.len() - 1 ==> is_digit(#[trigger] tail[i])
}

/// The field `prefix` starts at byte `i` of the line, outside of quoted strings, and a literal
/// announcement follows it without a separator.
pub open spec fn joined_at(line: Seq<u8>, prefix: Seq<u8>, i: int) -> bool {
    &&& 0 < i
    &&& i + prefix.len() <= line.len()
    &&& quotes_before(line, i) == (false, false)
    &&& line[i] != 0x22
    &&& line[i - 1] == 0x20 || line[i - 1] == 0x28
    &&& equal_ignoring_case(line.subrange(i, i + prefix.len()), prefix)
    &&& is_announcement(line.skip(i + prefix.len()))
}

/// A line ends before byte `i`.
pub open spec fn ends_at(frame: Seq<u8>, i: int) -> bool {
    0 <= i && i + 1 < frame.len() && frame[i] == 0x0d && frame[i + 1] == 0x0a
}

/// `end` is the length of the first line.
pub open spec fn is_first_line(frame: Seq<u8>, end: int) -> bool {
    ends_at(frame, end) && forall|i: int| i < end ==> !#[trigger] ends_at(frame, i)
}

/// `i` is the first place of the line where the field and its literal are joined.
pub open spec fn is_first_joined(line: Seq<u8>, prefix: Seq<u8>, i: int) -> bool {
    joined_at(line, prefix, i) && forall|j: int| j < i ==> !#[trigger] joined_at(line, prefix, j)
}

fn first_line(frame: &[u8]) -> (r: Option<usize>)
    ensures
        match r {
            Some(end) => is_first_line(frame@, end as int),
            None => forall|i: int| !#[trigger] ends_at(frame@, i),
        },
{
    if frame.len() < 2 {
        return None;
    }
    let mut i: usize = 0;
    while i < frame.len() - 1
        invariant
            2 <= frame@.len(),
            i <= frame@.len() - 1,
            forall|j: int| j < i ==> !#[trigger] ends_at(frame@, j),
        decreases frame@.len() - i,
    {
        if frame[i] == 0x0d && frame[i + 1] == 0x0a {
            assert(ends_at(frame@, i as int));
            return Some(i);
        }
        i = i + 1;
    }
    None
}

fn announces(tail: &[u8]) -> (r: bool)
    ensures
        r == is_announcement(tail@),
{
    if tail.len() < 3 || tail[0] != 0x7b || tail[tail.len() - 1] != 0x7d {
        return false;
    }
    let mut i: usize = 1;
    while i < tail.len() - 1
        invariant
            3 <= tail@.len(),
            1 <= i <= tail@.len() - 1,
            forall|j: int| 1 <= j < i ==> is_digit(#[trigger] tail@[j]),
        decreases tail@.len() - i,
    {
        if !crate::text::digit(tail[i]) {
            return false;
        }
        i = i + 1;
    }
    true
}

/// The first place of the line where the field and its literal are joined.
fn find_joined(line: &[u8], prefix: &[u8]) -> (r: Option<usize>)
    requires
        prefix@.len() > 0,
    ensures
        match r {
            Some(i) => is_first_joined(line@, prefix@, i as int),
            None => forall|i: int| !#[trigger] joined_at(line@, prefix@, i),
        },
{
    let mut quoted = false;
    let mut escaped = false;
    let mut i: usize = 0;
    while i < line.len()
        invariant
            i <= line@.len(),
            prefix@.len() > 0,
            quotes_before(line@, i as int) == (quoted, escaped),
            forall|j: int| j < i ==> !#[trigger] joined_at(line@, prefix@, j),
        decreases line@.len() - i,
    {
        let byte = line[i];
        if escaped {
            escaped = false;
        } else if quoted && byte == 0x5c {
            escaped = true;
        } else if byte == 0x22 {
            quoted = !quoted;
        } else if !quoted && i > 0 && (line[i - 1] == 0x20 || line[i - 1] == 0x28) && prefix.len()
            <= line.len() - i {
            let end: usize = i + prefix.len();
            let field = vstd::slice::slice_subrange(line, i, end);
            if crate::text::same_ignoring_case(field, prefix) {
                let tail = vstd::slice::slice_subrange(line, end, line.len());
                assert(tail@ =~= line@.skip(end as int));
                if announces(tail) {
                    return Some(i);
                }
            }
        }
        i = i + 1;
    }
    None
}

impl Fetch {
    /// The name of the fetched section, where its partial form can be recognised.
    pub open spec fn section_text(section: Option<Section>) -> Option<Seq<char>> {
        match section {
            None => Some(Seq::empty()),
            Some(Section::Header) => Some("HEADER"@),
            Some(Section::Part(path)) => Some(part_text(path@)),
            Some(Section::Mime(path)) => Some(part_text(path@) + ".MIME"@),
            Some(Section::Other) => None,
        }
    }

    /// The name that a server gives to the bytes of a section from `offset` on.
    pub open spec fn field(section: Seq<char>, offset: u32) -> Seq<char> {
        "BODY["@ + section + "]<"@ + decimal(offset as nat) + ">"@
    }

    fn section_name(section: &Option<Section>) -> (r: Option<String>)
        ensures
            match r {
                Some(name) => Fetch::section_text(*section) == Some(name@),
                None => Fetch::section_text(*section) is None,
            },
    {
        match section {
            None => {
                let name = String::new();
                assert(name@ =~= Seq::<char>::empty());
                Some(name)
            },
            Some(Section::Header) => Some("HEADER".to_owned()),
            Some(Section::Part(path)) => Some(part_name(path)),
            Some(Section::Mime(path)) => {
                let mut name = part_name(path);
                name.push_str(".MIME");
                Some(name)
            },
            Some(Section::Other) => None,
        }
    }

    /// The first line of the frame announces the literal right behind the requested field.
    pub open spec fn joined(self, frame: Seq<u8>, end: int, i: int) -> bool {
        self matches Fetch::Bytes { section, offset, .. } && (Fetch::section_text(
            section,
        ) matches Some(name) && is_first_line(frame, end) && is_first_joined(
            frame.take(end),
            encode_utf8(Fetch::field(name, offset)),
            i,
        ))
    }

    /// Where the separator is missing.
    pub open spec fn insertion(self, i: int) -> int {
        match self {
            Fetch::Bytes { section: section, offset, .. } => match Fetch::section_text(section) {
                Some(name) => i + encode_utf8(Fetch::field(name, offset)).len(),
                None => i,
            },
            _ => i,
        }
    }

    /// GreenMail 2.1.13 emits `<offset>{length}` for partial numeric/MIME sections. Repair only
    /// that separator in the exact requested field, before the first literal. Typed response
    /// validation still checks the entire row.
    pub fn repair_partial_separator(&self, frame: &[u8], max_bytes: usize) -> (r: Result<
        Option<Vec<u8>>,
        Error,
    >)
        ensures
            match r {
                Ok(None) => forall|end: int, i: int| !#[trigger] self.joined(frame@, end, i),
                Ok(Some(repaired)) => frame@.len() < max_bytes && exists|end: int, i: int| #[trigger]
                    self.joined(frame@, end, i) && repaired@ == frame@.insert(
                        self.insertion(i),
                        0x20,
                    ),
                Err(error) => error == Error::Limit && frame@.len() >= max_bytes && exists|
                    end: int,
                    i: int,
                | #[trigger]
                    self.joined(frame@, end, i),
            },
    {
        let (section, offset) = match self {
            Fetch::Metadata { .. } => {
                return Ok(None);
            },
            Fetch::Bytes { section, offset, .. } => (section, *offset),
        };
        let end: usize = match first_line(frame) {
            None => {
                return Ok(None);
            },
            Some(end) => end,
        };
        let name = match Fetch::section_name(section) {
            None => {
                return Ok(None);
            },
            Some(name) => name,
        };
        let mut field = "BODY[".to_owned();
        field.push_str(name.as_str());
        field.push_str("]<");
        let number = decimal_text(offset);
        field.push_str(number.as_str());
        field.push_str(">");
        assert(field@ == Fetch::field(name@, offset));
        let prefix = field.as_str().as_bytes();
        let line = vstd::slice::slice_subrange(frame, 0, end);
        assert(line@ =~= frame@.take(end as int));
        proof {
            // The field is not empty, so neither is its encoding.
            vstd::utf8::encode_utf8_decode_utf8(field@);
            assert(field@.len() > 0) by {
                reveal_strlit(">");
            }
            if prefix@.len() == 0 {
                assert(prefix@ =~= encode_utf8(Seq::<char>::empty()));
                vstd::utf8::encode_utf8_decode_utf8(Seq::<char>::empty());
            }
        }
        assert forall|other: int, i: int| #[trigger] self.joined(frame@, other, i) implies other
            == end && is_first_joined(line@, prefix@, i) by {
            assert(ends_at(frame@, other));
            assert(ends_at(frame@, end as int));
        }
        match find_joined(line, prefix) {
            None => Ok(None),
            Some(i) => {
                assert(self.joined(frame@, end as int, i as int));
                if frame.len() >= max_bytes {
                    return Err(Error::Limit);
                }
                let at: usize = i + prefix.len();
                let mut repaired = crate::text::copy_range(frame, 0, frame.len());
                assert(repaired@ =~= frame@);
                repaired.insert(at, 0x20);
                Ok(Some(repaired))
            },
        }
    }

    pub open spec fn wanted(self) -> u32 {
        match self {
            Fetch::Metadata { uid } => uid,
            Fetch::Bytes { uid, .. } => uid,
        }
    }

    pub fn uid(&self) -> (r: u32)
        ensures
            r == self.wanted(),
    {
        match self {
            Fetch::Metadata { uid } => *uid,
            Fetch::Bytes { uid, .. } => *uid,
        }
    }

    /// Both read the same bytes, or the same metadata, of the same message.
    pub open spec fn reads_like(self, other: Fetch) -> bool {
        match (self, other) {
            (Fetch::Metadata { uid: a }, Fetch::Metadata { uid: b }) => a == b,
            (
                Fetch::Bytes { uid: a, section: s, offset: o, count: c },
                Fetch::Bytes { uid: b, section: t, offset: p, count: d },
            ) => {
                &&& a == b && o == p && c == d
                &&& match (s, t) {
                    (None, None) => true,
                    (Some(s), Some(t)) => s.names(t),
                    _ => false,
                }
            },
            _ => false,
        }
    }

    /// The read names a section that the library asks for, and at least one byte.
    pub open spec fn well_formed(self) -> bool {
        match self {
            Fetch::Metadata { uid } => uid > 0,
            Fetch::Bytes { uid, section, count, .. } => uid > 0 && count > 0 && section != Some(
                Section::Other,
            ),
        }
    }

    /// The command asks for exactly what this read needs, and marks nothing as seen.
    pub open spec fn is_asked_by(self, command: FetchCommand) -> bool {
        &&& command.by_uid && !command.modified
        &&& command.numbers@ == seq![self.wanted()]
        &&& match self {
            Fetch::Metadata { .. } => {
                &&& command.names@.len() == 3
                &&& command.names@[0] is Uid
                &&& command.names@[1] is Rfc822Size
                &&& command.names@[2] is BodyStructure
            },
            Fetch::Bytes { section, offset, count, .. } => {
                &&& command.names@.len() == 2
                &&& command.names@[0] is Uid
                &&& command.names@[1] matches Name::BodyExt { section: named, partial, peek }
                &&& peek
                &&& partial == Some((offset, count))
                &&& match (named, section) {
                    (None, None) => true,
                    (Some(named), Some(section)) => named.names(section),
                    _ => false,
                }
            },
        }
    }

    fn copy_section(section: &Option<Section>) -> (r: Option<Option<Section>>)
        ensures
            match r {
                Some(None) => *section is None,
                Some(Some(copy)) => *section matches Some(named) && copy.names(named)
                    && named.names(copy),
                None => *section == Some(Section::Other),
            },
    {
        match section {
            None => Some(None),
            Some(Section::Header) => Some(Some(Section::Header)),
            Some(Section::Mime(path)) => {
                let copy = path.clone();
                assert(copy@ =~= path@);
                Some(Some(Section::Mime(copy)))
            },
            Some(Section::Part(path)) => {
                let copy = path.clone();
                assert(copy@ =~= path@);
                Some(Some(Section::Part(copy)))
            },
            Some(Section::Other) => None,
        }
    }

    /// The command that performs the read.
    pub fn request(&self) -> (r: FetchCommand)
        requires
            self.well_formed(),
        ensures
            self.is_asked_by(r),
    {
        let mut numbers: Vec<u32> = Vec::new();
        numbers.push(self.uid());
        let mut names: Vec<Name> = Vec::new();
        names.push(Name::Uid);
        match self {
            Fetch::Metadata { .. } => {
                names.push(Name::Rfc822Size);
                names.push(Name::BodyStructure);
            },
            Fetch::Bytes { section, offset, count, .. } => {
                let section = match Fetch::copy_section(section) {
                    Some(section) => section,
                    None => None,
                };
                names.push(
                    Name::BodyExt { section, partial: Some((*offset, *count)), peek: true },
                );
            },
        }
        assert(numbers@ =~= seq![self.wanted()]);
        FetchCommand { numbers, by_uid: true, modified: false, names }
    }

    /// The command asks for this read, and names a section that the library reads.
    pub open spec fn is_read_by(self, command: FetchCommand) -> bool {
        self.is_asked_by(command) && (self matches Fetch::Bytes { section, .. } ==> section != Some(
            Section::Other,
        ))
    }

    /// Commands of the same plain values ask for the same reads.
    pub proof fn read_alike(self, a: FetchCommand, b: FetchCommand)
        requires
            a.numbers@ == b.numbers@,
            a.by_uid == b.by_uid,
            a.modified == b.modified,
            name_views(a.names@) == name_views(b.names@),
            self.is_read_by(a),
        ensures
            self.is_read_by(b),
    {
        assert(a.names@.len() == name_views(a.names@).len());
        assert(b.names@.len() == name_views(b.names@).len());
        assert forall|i: int| 0 <= i < a.names@.len() implies a.names@[i]@ == b.names@[i]@ by {
            assert(name_views(a.names@)[i] == a.names@[i]@);
            assert(name_views(b.names@)[i] == b.names@[i]@);
        }
    }

    /// The read that a command performs, where it is one of the library's own.
    pub fn from_command(command: &FetchCommand) -> (r: Option<Self>)
        ensures
            match r {
                Some(fetch) => fetch.is_read_by(*command),
                None => forall|fetch: Fetch| !#[trigger] fetch.is_read_by(*command),
            },
    {
        if !command.by_uid || command.modified || command.numbers.len() != 1 {
            return None;
        }
        let uid: u32 = command.numbers[0];
        assert(command.numbers@ =~= seq![uid]);
        if command.names.len() == 3 {
            return match (&command.names[0], &command.names[1], &command.names[2]) {
                (Name::Uid, Name::Rfc822Size, Name::BodyStructure) => Some(
                    Fetch::Metadata { uid },
                ),
                _ => None,
            };
        }
        if command.names.len() != 2 {
            return None;
        }
        match (&command.names[0], &command.names[1]) {
            (Name::Uid, Name::BodyExt { section, partial: Some((offset, count)), peek }) => {
                if !*peek {
                    return None;
                }
                match Fetch::copy_section(section) {
                    None => {
                        assert forall|fetch: Fetch| #[trigger]
                            fetch.is_asked_by(*command) implies false by {
                            assert(command.names@[1] is BodyExt);
                        }
                        None
                    },
                    Some(copy) => Some(
                        Fetch::Bytes { uid, section: copy, offset: *offset, count: *count },
                    ),
                }
            },
            _ => None,
        }
    }

    /// The longest literal that the answer may hold.
    pub fn literal_limit(&self) -> (r: Option<usize>)
        ensures
            r == (match self {
                Fetch::Bytes { count, .. } => Some(*count as usize),
                _ => None,
            }),
    {
        match self {
            Fetch::Bytes { count, .. } => Some(*count as usize),
            _ => None,
        }
    }

    /// A row of exactly the size, the structure and the identifier of the message.
    pub open spec fn is_metadata<S>(items: Seq<Item<S>>, size: int, structure: int) -> bool {
        &&& items.len() == 3
        &&& 0 <= size < 3 && 0 <= structure < 3 && size != structure
        &&& items[size] is Rfc822Size
        &&& items[structure] is BodyStructure
        &&& items[3 - size - structure] is Uid
    }

    pub fn metadata<'a, S>(&self, items: &'a Vec<Item<S>>) -> (r: Result<(u32, &'a S), Error>)
        ensures
            match r {
                Ok((size, structure)) => exists|i: int, j: int| #[trigger]
                    Fetch::is_metadata(items@, i, j) && items@[i] == Item::<S>::Rfc822Size(size)
                        && items@[j] == Item::BodyStructure(*structure),
                Err(error) => error == Error::Protocol && forall|i: int, j: int|
                    !#[trigger] Fetch::is_metadata(items@, i, j),
            },
    {
        if items.len() != 3 {
            return Err(Error::Protocol);
        }
        let mut i: usize = 0;
        while i < 3
            invariant
                items@.len() == 3,
                i <= 3,
                forall|a: int, b: int| a < i ==> !#[trigger] Fetch::is_metadata(items@, a, b),
            decreases 3 - i,
        {
            let mut j: usize = 0;
            while j < 3
                invariant
                    items@.len() == 3,
                    i < 3,
                    j <= 3,
                    forall|b: int| b < j ==> !#[trigger] Fetch::is_metadata(items@, i as int, b),
                decreases 3 - j,
            {
                if i != j {
                    let k: usize = 3 - i - j;
                    match (&items[i], &items[j], &items[k]) {
                        (Item::Rfc822Size(size), Item::BodyStructure(structure), Item::Uid(_)) => {
                            assert(Fetch::is_metadata(items@, i as int, j as int));
                            return Ok((*size, structure));
                        },
                        _ => {},
                    }
                }
                j = j + 1;
            }
            i = i + 1;
        }
        Err(Error::Protocol)
    }

    /// The item at `i` holds bytes of the requested section from the requested offset on, beside
    /// the identifier of the message.
    pub open spec fn is_data<S>(self, items: Seq<Item<S>>, i: int) -> bool {
        &&& items.len() == 2
        &&& 0 <= i < 2
        &&& items[1 - i] is Uid
        &&& self matches Fetch::Bytes { section, offset, .. }
        &&& items[i] matches Item::BodyExt { section: actual, origin, data }
        &&& origin == Some(offset)
        &&& data is Some
        &&& match (actual, section) {
            (None, None) => true,
            (Some(actual), Some(section)) => actual.names(section),
            _ => false,
        }
    }

    pub open spec fn data_of<S>(item: Item<S>) -> Seq<u8> {
        match item {
            Item::BodyExt { data: Some(data), .. } => data@,
            _ => Seq::empty(),
        }
    }

    fn data_at<'a, S>(&self, items: &'a Vec<Item<S>>, i: usize) -> (r: Option<&'a Vec<u8>>)
        requires
            items@.len() == 2,
            i < 2,
        ensures
            match r {
                Some(data) => self.is_data(items@, i as int) && data@ == Fetch::data_of(
                    items@[i as int],
                ),
                None => !self.is_data(items@, i as int),
            },
    {
        match (self, &items[i], &items[1 - i]) {
            (
                Fetch::Bytes { section, offset, .. },
                Item::BodyExt { section: actual, origin: Some(origin), data: Some(data) },
                Item::Uid(_),
            ) => {
                let named = match (actual, section) {
                    (None, None) => true,
                    (Some(actual), Some(section)) => actual.same_as(section),
                    _ => false,
                };
                if named && *origin == *offset {
                    Some(data)
                } else {
                    None
                }
            },
            _ => None,
        }
    }

    /// The bytes that the row holds.
    pub fn data<'a, S>(&self, items: &'a Vec<Item<S>>) -> (r: Result<&'a Vec<u8>, Error>)
        ensures
            match r {
                Ok(bytes) => exists|i: int| #[trigger]
                    self.is_data(items@, i) && bytes@ == Fetch::data_of(items@[i]) && (
                    *self matches Fetch::Bytes { count, .. } && bytes@.len() <= count),
                Err(Error::Limit) => exists|i: int| #[trigger]
                    self.is_data(items@, i) && (*self matches Fetch::Bytes { count, .. }
                        && Fetch::data_of(items@[i]).len() > count),
                Err(error) => error == Error::Protocol && forall|i: int|
                    !#[trigger] self.is_data(items@, i),
            },
    {
        let count: u32 = match self {
            Fetch::Metadata { .. } => {
                return Err(Error::Protocol);
            },
            Fetch::Bytes { count, .. } => *count,
        };
        if items.len() != 2 {
            return Err(Error::Protocol);
        }
        let bytes = match self.data_at(items, 0) {
            Some(bytes) => bytes,
            None => match self.data_at(items, 1) {
                Some(bytes) => bytes,
                None => {
                    return Err(Error::Protocol);
                },
            },
        };
        if bytes.len() > count as usize {
            return Err(Error::Limit);
        }
        Ok(bytes)
    }

    /// The row answers this read: it is about the requested message, once, and holds exactly what
    /// was asked for.
    pub open spec fn answered_by<S>(self, items: Seq<Item<S>>) -> bool {
        &&& exists|i: int| 0 <= i < items.len() && #[trigger] items[i] == Item::<S>::Uid(self.wanted())
        &&& match self {
            Fetch::Metadata { .. } => exists|i: int, j: int| #[trigger]
                Fetch::is_metadata(items, i, j),
            Fetch::Bytes { .. } => exists|i: int| #[trigger] self.is_data(items, i),
        }
    }

    /// The row answers this read and its bytes fit the requested count.
    pub open spec fn accepts<S>(self, items: Seq<Item<S>>) -> bool {
        self.answered_by(items) && (self matches Fetch::Bytes { count, .. } ==> forall|i: int|
            #[trigger] self.is_data(items, i) ==> Fetch::data_of(items[i]).len() <= count)
    }

    pub fn validate<S>(&self, items: &Vec<Item<S>>) -> (r: Result<(), Error>)
        ensures
            match r {
                Ok(()) => self.accepts(items@),
                Err(error) => !self.accepts(items@) && error == (if self.answered_by(items@) {
                    Error::Limit
                } else {
                    Error::Protocol
                }),
            },
    {
        let mut found = false;
        let mut repeated = false;
        let mut other = false;
        for i in 0..items.len()
            invariant
                found == exists|j: int|
                    0 <= j < i && #[trigger] items@[j] == Item::<S>::Uid(self.wanted()),
                other == exists|j: int|
                    0 <= j < i && (#[trigger] items@[j] matches Item::Uid(uid) && uid
                        != self.wanted()),
                repeated ==> exists|a: int, b: int|
                    0 <= a < b < i && (#[trigger] items@[a]) is Uid && (#[trigger] items@[b]) is Uid,
        {
            match &items[i] {
                Item::Uid(uid) => {
                    assert(items@[i as int] is Uid);
                    if found || other {
                        repeated = true;
                        assert(exists|a: int| 0 <= a < i && (#[trigger] items@[a]) is Uid);
                    }
                    if *uid == self.uid() {
                        found = true;
                        assert(items@[i as int] == Item::<S>::Uid(self.wanted()));
                    } else {
                        other = true;
                    }
                },
                _ => {},
            }
        }
        if repeated || !found {
            proof {
                if self.answered_by(items@) {
                    self.one_uid(items@);
                }
            }
            return Err(Error::Protocol);
        }
        match self {
            Fetch::Metadata { .. } => match self.metadata(items) {
                Ok(_) => Ok(()),
                Err(error) => Err(error),
            },
            Fetch::Bytes { .. } => match self.data(items) {
                Ok(_) => {
                    assert forall|i: int, j: int| #[trigger]
                        self.is_data(items@, i) && #[trigger] self.is_data(items@, j) implies i
                        == j by {}
                    Ok(())
                },
                Err(error) => Err(error),
            },
        }
    }

    /// A row that answers a read names one message.
    proof fn one_uid<S>(self, items: Seq<Item<S>>)
        requires
            self.answered_by(items),
        ensures
            forall|a: int, b: int|
                0 <= a < b < items.len() ==> !((#[trigger] items[a]) is Uid && (#[trigger] items[b])
                    is Uid),
    {
        match self {
            Fetch::Metadata { .. } => {
                let (i, j) = choose|i: int, j: int| #[trigger] Fetch::is_metadata(items, i, j);
                assert(Fetch::is_metadata(items, i, j));
                assert forall|a: int, b: int| 0 <= a < b < items.len() implies !((
                #[trigger] items[a]) is Uid && (#[trigger] items[b]) is Uid) by {
                    assert(items[i] is Rfc822Size && items[j] is BodyStructure);
                }
            },
            Fetch::Bytes { .. } => {
                let i = choose|i: int| #[trigger] self.is_data(items, i);
                assert(self.is_data(items, i));
            },
        }
    }

    /// The one row of an answer. A message that is gone gives none.
    pub fn sole_row(&self, rows: Vec<Vec<Item>>) -> (r: Result<Vec<Item>, Error>)
        ensures
            match r {
                Ok(items) => rows@.len() == 1 && items == rows@[0] && self.accepts(items@),
                Err(error) => {
                    ||| error == Error::MessageNotFound && rows@.len() == 0
                    ||| error == Error::Protocol && rows@.len() > 1
                    ||| rows@.len() == 1 && !self.accepts(rows@[0]@) && error == (
                    if self.answered_by(rows@[0]@) {
                        Error::Limit
                    } else {
                        Error::Protocol
                    })
                },
            },
    {
        if rows.len() == 0 {
            return Err(Error::MessageNotFound);
        }
        if rows.len() != 1 {
            return Err(Error::Protocol);
        }
        let mut rows = rows;
        let items = rows.remove(0);
        match self.validate(&items) {
            Ok(()) => Ok(items),
            Err(error) => Err(error),
        }
    }
}

/// A command made for a read is recognised as that read and no other.
pub proof fn commands_name_their_read(fetch: Fetch, other: Fetch, command: FetchCommand)
    requires
        fetch.is_asked_by(command),
        other.is_asked_by(command),
        fetch.well_formed(),
    ensures
        other.reads_like(fetch),
{
    assert(seq![fetch.wanted()][0] == seq![other.wanted()][0]);
}

/// Reading leaves no mark: every command that reads a part asks by UID for one message, peeks, and names
/// the part, the place and the count that are wanted.
pub proof fn reads_leave_no_mark(fetch: Fetch, command: FetchCommand)
    requires
        fetch.is_asked_by(command),
    ensures
        command.by_uid && !command.modified,
        command.numbers@.len() == 1 && command.numbers@[0] == fetch.wanted(),
        forall|i: int|
            0 <= i < command.names@.len() ==> ((#[trigger] command.names@[i]) matches Name::BodyExt { peek, .. }
                ==> peek),
        fetch matches Fetch::Bytes { offset, count, .. } ==> command.names@.len() == 2 && (command.names@[1]
            matches Name::BodyExt { partial: Some((from, length)), .. } && from == offset && length == count),
        fetch is Metadata ==> command.names@.len() == 3,
{
}

/// What is accepted of a server is what was asked for: the data of the same message, part and place, and
/// no more of it.
pub proof fn answers_are_what_was_asked_for<S>(fetch: Fetch, items: Seq<Item<S>>)
    requires
        fetch.accepts(items),
    ensures
        exists|i: int| 0 <= i < items.len() && #[trigger] items[i] == Item::<S>::Uid(fetch.wanted()),
        fetch matches Fetch::Bytes { section, offset, count, .. } ==> items.len() == 2 && exists|i: int|
            0 <= i < 2 && (#[trigger] items[i] matches Item::BodyExt { section: given, origin, data: Some(data) }
                && origin == Some(offset) && data@.len() <= count && (given is None <==> section is None)),
        fetch is Metadata ==> items.len() == 3,
{
    if let Fetch::Bytes { .. } = fetch {
        let i = choose|i: int| #[trigger] fetch.is_data(items, i);
        assert(fetch.is_data(items, i));
        assert(items[i] is BodyExt);
    }
}

/// How parts are named on the wire: the whole message by nothing, its headers by a word, a part by its
/// numbers, and the headers of a part by its numbers and a word.
pub proof fn parts_are_named_on_the_wire(path: Vec<u32>, offset: u32)
    ensures
        Fetch::section_text(None) == Some(Seq::<char>::empty()),
        Fetch::section_text(Some(Section::Header)) == Some(seq!['H', 'E', 'A', 'D', 'E', 'R']),
        Fetch::section_text(Some(Section::Part(path))) == Some(part_text(path@)),
        Fetch::section_text(Some(Section::Mime(path))) == Some(part_text(path@) + seq!['.', 'M', 'I', 'M', 'E']),
        Fetch::section_text(Some(Section::Other)) is None,
        Fetch::field(part_text(path@), offset) == seq!['B', 'O', 'D', 'Y', '['] + part_text(path@) + seq![']', '<']
            + decimal(offset as nat) + seq!['>'],
{
    reveal_strlit("HEADER");
    reveal_strlit(".MIME");
    reveal_strlit("BODY[");
    reveal_strlit("]<");
    reveal_strlit(">");
    assert("HEADER"@ =~= seq!['H', 'E', 'A', 'D', 'E', 'R']);
    assert(".MIME"@ =~= seq!['.', 'M', 'I', 'M', 'E']);
    assert("BODY["@ =~= seq!['B', 'O', 'D', 'Y', '[']);
    assert("]<"@ =~= seq![']', '<']);
    assert(">"@ =~= seq!['>']);
}

/// A quotation mark opens and closes, unless a backslash within the quotation stands before it.
pub proof fn quotation_marks_alternate(line: Seq<u8>, i: int)
    requires
        0 <= i < line.len(),
    ensures
        ({
            let (quoted, escaped) = quotes_before(line, i);
            let (after, escapes) = quotes_before(line, i + 1);
            &&& escaped ==> after == quoted && !escapes
            &&& !escaped && line[i] == 0x22 ==> after == !quoted && !escapes
            &&& !escaped && line[i] == 0x5c ==> after == quoted && escapes == quoted
            &&& line[i] != 0x22 && line[i] != 0x5c ==> after == quoted && !escapes
        }),
        quotes_before(line, 0) == (false, false),
{
}

} // verus!
