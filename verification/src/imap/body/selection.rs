//! Deterministic selection of the part that is shown as a message's body.
use vstd::prelude::*;

use crate::imap::mime::{
    attachment, child_path, is_attachment, is_bounded, part_count, parts_count, validate_structure,
};
use crate::imap::types::{same_path, Body, BodyKind, Disposition, Parameter, Structure};
use crate::imap::{Error, Limits};
use crate::text::{
    byte_len, chars_of, is_whitespace, lower_text, lowered_text, same, same_text_ignoring_case, spelled,
    string_of, text_of, trim, trimmed, trimmed_end, trimmed_start, utf8_len,
};

verus! {

/// The part that is shown, and how it is encoded.
#[derive(Debug)]
pub struct Selected {
    pub part: Vec<u32>,
    pub media_type: String,
    pub charset: String,
    pub transfer_encoding: String,
    pub wire_size: usize,
}

/// A selected part as plain values.
pub struct Choice {
    pub part: Seq<u32>,
    pub media_type: Seq<char>,
    pub charset: Seq<char>,
    pub transfer_encoding: Seq<char>,
    pub wire_size: nat,
}

impl View for Selected {
    type V = Choice;

    open spec fn view(&self) -> Choice {
        Choice {
            part: self.part@,
            media_type: self.media_type@,
            charset: self.charset@,
            transfer_encoding: self.transfer_encoding@,
            wire_size: self.wire_size as nat,
        }
    }
}

impl Selected {
    pub fn copy(&self) -> (r: Self)
        ensures
            r@ == self@,
    {
        let part = self.part.clone();
        assert(part@ =~= self.part@);
        Selected {
            part,
            media_type: self.media_type.clone(),
            charset: self.charset.clone(),
            transfer_encoding: self.transfer_encoding.clone(),
            wire_size: self.wire_size,
        }
    }
}

pub open spec fn copied(selected: Option<Selected>) -> Option<Choice> {
    match selected {
        Some(selected) => Some(selected@),
        None => None,
    }
}

fn copy_of(selected: &Option<Selected>) -> (r: Option<Selected>)
    ensures
        copied(r) == copied(*selected),
{
    match selected {
        Some(selected) => Some(selected.copy()),
        None => None,
    }
}

pub open spec fn shown(found: Result<Option<Selected>, Error>) -> Result<Option<Choice>, Error> {
    match found {
        Ok(selected) => Ok(copied(selected)),
        Err(error) => Err(error),
    }
}

pub open spec fn text_view(found: Result<String, Error>) -> Result<Seq<char>, Error> {
    match found {
        Ok(text) => Ok(text@),
        Err(error) => Err(error),
    }
}

pub open spec fn optional_text_view(found: Result<Option<String>, Error>) -> Result<
    Option<Seq<char>>,
    Error,
> {
    match found {
        Ok(Some(text)) => Ok(Some(text@)),
        Ok(None) => Ok(None),
        Err(error) => Err(error),
    }
}

/// The server's text, which must be UTF-8.
pub open spec fn server_text(bytes: Seq<u8>) -> Result<Seq<char>, Error> {
    match spelled(bytes) {
        Some(text) => Ok(text),
        None => Err(Error::Protocol),
    }
}

pub fn imap_text(bytes: &Vec<u8>) -> (r: Result<String, Error>)
    ensures
        text_view(r) == server_text(bytes@),
{
    match text_of(bytes.as_slice()) {
        Some(text) => Ok(text),
        None => Err(Error::Protocol),
    }
}

/// The value of the first parameter from `i` on that is called `wanted`, up to case.
pub open spec fn parameter_value(parameters: Seq<Parameter>, wanted: Seq<char>, i: int) -> Result<
    Option<Seq<char>>,
    Error,
>
    decreases parameters.len() - i,
{
    if i < 0 || i >= parameters.len() {
        Ok(None)
    } else {
        match server_text(parameters[i].0@) {
            Err(error) => Err(error),
            Ok(name) => if lowered_text(name) == lowered_text(wanted) {
                match server_text(parameters[i].1@) {
                    Err(error) => Err(error),
                    Ok(value) => Ok(Some(value)),
                }
            } else {
                parameter_value(parameters, wanted, i + 1)
            },
        }
    }
}

pub fn parameter(parameters: &Vec<Parameter>, wanted: &str) -> (r: Result<Option<String>, Error>)
    ensures
        optional_text_view(r) == parameter_value(parameters@, wanted@, 0),
{
    let mut i: usize = 0;
    while i < parameters.len()
        invariant
            i <= parameters@.len(),
            parameter_value(parameters@, wanted@, i as int) == parameter_value(
                parameters@,
                wanted@,
                0,
            ),
        decreases parameters@.len() - i,
    {
        let name = match imap_text(&parameters[i].0) {
            Ok(name) => name,
            Err(error) => {
                return Err(error);
            },
        };
        if same_text_ignoring_case(name.as_str(), wanted) {
            return match imap_text(&parameters[i].1) {
                Ok(value) => Ok(Some(value)),
                Err(error) => Err(error),
            };
        }
        i = i + 1;
    }
    Ok(None)
}

pub open spec fn is_ascii_control(c: char) -> bool {
    c as u32 <= 0x1f || c as u32 == 0x7f
}

/// The text between angle brackets, where it stands in such brackets.
pub open spec fn unbracketed(value: Seq<char>) -> Seq<char> {
    if value.len() >= 2 && value[0] == '<' && value.last() == '>' {
        value.subrange(1, value.len() - 1)
    } else {
        value
    }
}

/// A content identifier without its brackets.
pub open spec fn content_id(value: Seq<char>) -> Result<Seq<char>, Error> {
    let inner = unbracketed(trimmed(value));
    if inner.len() == 0 || utf8_len(inner) > 998 || exists|i: int|
        0 <= i < inner.len() && is_ascii_control(#[trigger] inner[i]) {
        Err(Error::Protocol)
    } else {
        Ok(inner)
    }
}

pub fn normalize_content_id(value: &str) -> (r: Result<String, Error>)
    ensures
        text_view(r) == content_id(value@),
{
    let outer = trim(value);
    let chars = chars_of(outer.as_str());
    let bracketed = chars.len() >= 2 && chars[0] == '<' && chars[chars.len() - 1] == '>';
    let inner = if bracketed {
        string_of(&chars, 1, chars.len() - 1)
    } else {
        outer
    };
    assert(inner@ == unbracketed(trimmed(value@)));
    if inner.as_str().is_empty() || byte_len(inner.as_str()) > 998 {
        return Err(Error::Protocol);
    }
    let chars = chars_of(inner.as_str());
    for i in 0..chars.len()
        invariant
            chars@ == inner@,
            inner@ == unbracketed(trimmed(value@)),
            forall|j: int| 0 <= j < i ==> !is_ascii_control(#[trigger] inner@[j]),
    {
        let code: u32 = chars[i] as u32;
        if code <= 0x1f || code == 0x7f {
            assert(is_ascii_control(inner@[i as int]));
            return Err(Error::Protocol);
        }
    }
    Ok(inner)
}

/// A text part in a form that can be shown.
pub open spec fn leaf_choice(body: Body, part: Seq<u32>) -> Result<Option<Choice>, Error> {
    match body.kind {
        BodyKind::Text { subtype } => match server_text(subtype@) {
            Err(error) => Err(error),
            Ok(subtype) => {
                let subtype = lowered_text(subtype);
                if subtype != "plain"@ && subtype != "html"@ {
                    Ok(None)
                } else {
                    match parameter_value(body.parameters@, "charset"@, 0) {
                        Err(error) => Err(error),
                        Ok(charset) => match server_text(body.transfer_encoding@) {
                            Err(error) => Err(error),
                            Ok(encoding) => Ok(
                                Some(
                                    Choice {
                                        part,
                                        media_type: "text/"@ + subtype,
                                        charset: match charset {
                                            Some(charset) => charset,
                                            None => "us-ascii"@,
                                        },
                                        transfer_encoding: lowered_text(encoding),
                                        wire_size: body.size as nat,
                                    },
                                ),
                            ),
                        },
                    }
                }
            },
        },
        _ => Ok(None),
    }
}

pub fn leaf(body: &Body, part: Vec<u32>) -> (r: Result<Option<Selected>, Error>)
    ensures
        shown(r) == leaf_choice(*body, part@),
{
    let subtype = match &body.kind {
        BodyKind::Text { subtype } => match imap_text(subtype) {
            Ok(subtype) => lower_text(subtype.as_str()),
            Err(error) => {
                return Err(error);
            },
        },
        _ => {
            return Ok(None);
        },
    };
    if !same(subtype.as_str(), "plain") && !same(subtype.as_str(), "html") {
        return Ok(None);
    }
    let charset = match parameter(&body.parameters, "charset") {
        Ok(Some(charset)) => charset,
        Ok(None) => "us-ascii".to_owned(),
        Err(error) => {
            return Err(error);
        },
    };
    let encoding = match imap_text(&body.transfer_encoding) {
        Ok(encoding) => lower_text(encoding.as_str()),
        Err(error) => {
            return Err(error);
        },
    };
    let mut media_type = "text/".to_owned();
    media_type.push_str(subtype.as_str());
    Ok(
        Some(
            Selected {
                part,
                media_type,
                charset,
                transfer_encoding: encoding,
                wire_size: body.size as usize,
            },
        ),
    )
}

/// The content identifier that the structure states for a single part.
pub open spec fn stated_id(structure: Structure) -> Result<Option<Seq<char>>, Error> {
    match structure {
        Structure::Single { body, .. } => match body.id {
            None => Ok(None),
            Some(id) => match server_text(id@) {
                Err(error) => Err(error),
                Ok(text) => match content_id(text) {
                    Err(error) => Err(error),
                    Ok(id) => Ok(Some(id)),
                },
            },
        },
        _ => Ok(None),
    }
}

pub fn structure_content_id(structure: &Structure) -> (r: Result<Option<String>, Error>)
    ensures
        optional_text_view(r) == stated_id(*structure),
{
    match structure {
        Structure::Single { body, .. } => match &body.id {
            None => Ok(None),
            Some(id) => match imap_text(id) {
                Err(error) => Err(error),
                Ok(text) => match normalize_content_id(text.as_str()) {
                    Err(error) => Err(error),
                    Ok(id) => Ok(Some(id)),
                },
            },
        },
        _ => Ok(None),
    }
}

/// A part and the content identifier of its MIME headers.
pub type PartId = (Vec<u32>, String);

/// The identifier that the MIME headers of this part gave, the first one from `i` on.
pub open spec fn known_id(ids: Seq<PartId>, path: Seq<u32>, i: int) -> Option<Seq<char>>
    decreases ids.len() - i,
{
    if i < 0 || i >= ids.len() {
        None
    } else if ids[i].0@ == path {
        Some(ids[i].1@)
    } else {
        known_id(ids, path, i + 1)
    }
}

/// The content identifier of a child: the one of its MIME headers before the one of the structure.
pub open spec fn child_id(ids: Seq<PartId>, path: Seq<u32>, child: Structure) -> Result<
    Option<Seq<char>>,
    Error,
> {
    let known = match known_id(ids, path, 0) {
        None => Ok(None),
        Some(id) => match content_id(id) {
            Err(error) => Err(error),
            Ok(id) => Ok(Some(id)),
        },
    };
    match known {
        Err(error) => Err(error),
        Ok(known) => match stated_id(child) {
            Err(error) => Err(error),
            Ok(stated) => Ok(
                match known {
                    Some(id) => Some(id),
                    None => stated,
                },
            ),
        },
    }
}

fn identify(ids: &Vec<PartId>, path: &Vec<u32>, child: &Structure) -> (r: Result<
    Option<String>,
    Error,
>)
    ensures
        optional_text_view(r) == child_id(ids@, path@, *child),
{
    let mut known: Option<String> = None;
    let mut i: usize = 0;
    while i < ids.len()
        invariant_except_break
            i <= ids@.len(),
            known is None,
            known_id(ids@, path@, i as int) == known_id(ids@, path@, 0),
        ensures
            match known_id(ids@, path@, 0) {
                None => known is None,
                Some(id) => content_id(id) is Ok && known is Some && Ok::<Seq<char>, Error>(
                    known->0@,
                ) == content_id(id),
            },
        decreases ids@.len() - i,
    {
        if same_path(&ids[i].0, path) {
            match normalize_content_id(ids[i].1.as_str()) {
                Err(error) => {
                    return Err(error);
                },
                Ok(id) => {
                    known = Some(id);
                },
            }
            break;
        }
        i = i + 1;
    }
    match structure_content_id(child) {
        Err(error) => Err(error),
        Ok(stated) => match known {
            Some(id) => Ok(Some(id)),
            None => Ok(stated),
        },
    }
}

pub open spec fn nth_path(path: Seq<u32>, i: int) -> Seq<u32> {
    path.push((i + 1) as u32)
}

/// The first candidate from `i` on, of the given type where one is given.
pub open spec fn first_candidate(
    candidates: Seq<Option<Choice>>,
    media_type: Option<Seq<char>>,
    i: int,
) -> Option<Choice>
    decreases candidates.len() - i,
{
    if i < 0 || i >= candidates.len() {
        None
    } else if candidates[i] matches Some(choice) && (media_type is None || media_type == Some(
        choice.media_type,
    )) {
        candidates[i]
    } else {
        first_candidate(candidates, media_type, i + 1)
    }
}

/// The candidate of the first child from `i` on that bears the identifier `root`.
pub open spec fn root_candidate(
    bodies: Seq<Structure>,
    candidates: Seq<Option<Choice>>,
    path: Seq<u32>,
    ids: Seq<PartId>,
    root: Seq<char>,
    i: int,
) -> Result<Option<Choice>, Error>
    decreases bodies.len() - i,
{
    if i < 0 || i >= bodies.len() {
        Ok(None)
    } else {
        match child_id(ids, nth_path(path, i), bodies[i]) {
            Err(error) => Err(error),
            Ok(id) => if id == Some(root) {
                Ok(candidates[i])
            } else {
                root_candidate(bodies, candidates, path, ids, root, i + 1)
            },
        }
    }
}

/// What a multipart shows, given what each of its children would show: of alternatives the plain
/// text before the HTML, of related parts the root, and otherwise the first part that can be shown.
pub open spec fn multipart_choice(
    bodies: Seq<Structure>,
    candidates: Seq<Option<Choice>>,
    subtype: Seq<char>,
    parameters: Seq<Parameter>,
    path: Seq<u32>,
    ids: Seq<PartId>,
) -> Result<Option<Choice>, Error> {
    if subtype == "alternative"@ {
        Ok(
            match first_candidate(candidates, Some("text/plain"@), 0) {
                Some(choice) => Some(choice),
                None => first_candidate(candidates, Some("text/html"@), 0),
            },
        )
    } else if subtype == "related"@ {
        let root = match parameter_value(parameters, "start"@, 0) {
            Err(error) => Err(error),
            Ok(None) => Ok(None),
            Ok(Some(start)) => match content_id(start) {
                Err(error) => Err(error),
                Ok(root) => root_candidate(bodies, candidates, path, ids, root, 0),
            },
        };
        match root {
            Err(error) => Err(error),
            Ok(Some(choice)) => Ok(Some(choice)),
            Ok(None) => Ok(first_candidate(candidates, None, 0)),
        }
    } else {
        Ok(first_candidate(candidates, None, 0))
    }
}

/// What a structure shows as the body of its message.
pub open spec fn selection(structure: Structure, path: Seq<u32>, ids: Seq<PartId>) -> Result<
    Option<Choice>,
    Error,
>
    decreases structure,
{
    match structure {
        Structure::Single { body, disposition } => if is_attachment(disposition) {
            Ok(None)
        } else {
            leaf_choice(
                body,
                if path.len() == 0 {
                    seq![1u32]
                } else {
                    path
                },
            )
        },
        Structure::Multi { bodies, subtype, parameters, disposition } => if is_attachment(
            disposition,
        ) {
            Ok(None)
        } else {
            match server_text(subtype@) {
                Err(error) => Err(error),
                Ok(subtype) => match selections(bodies@, path, ids, bodies@.len()) {
                    Err(error) => Err(error),
                    Ok(candidates) => multipart_choice(
                        bodies@,
                        candidates,
                        lowered_text(subtype),
                        parameters@,
                        path,
                        ids,
                    ),
                },
            }
        },
    }
}

/// What each of the first `count` children shows.
pub open spec fn selections(
    bodies: Seq<Structure>,
    path: Seq<u32>,
    ids: Seq<PartId>,
    count: nat,
) -> Result<Seq<Option<Choice>>, Error>
    decreases bodies, count,
{
    if count == 0 || count > bodies.len() {
        Ok(Seq::empty())
    } else {
        match selections(bodies, path, ids, (count - 1) as nat) {
            Err(error) => Err(error),
            Ok(before) => match selection(bodies[count - 1], nth_path(path, count - 1), ids) {
                Err(error) => Err(error),
                Ok(choice) => Ok(before.push(choice)),
            },
        }
    }
}

proof fn selections_fail_on(
    bodies: Seq<Structure>,
    path: Seq<u32>,
    ids: Seq<PartId>,
    few: nat,
    many: nat,
)
    requires
        few <= many <= bodies.len(),
        selections(bodies, path, ids, few) is Err,
    ensures
        selections(bodies, path, ids, many) == selections(bodies, path, ids, few),
    decreases many,
{
    if few < many {
        selections_fail_on(bodies, path, ids, few, (many - 1) as nat);
    }
}

pub open spec fn candidate_views(candidates: Seq<Option<Selected>>) -> Seq<Option<Choice>> {
    candidates.map_values(|candidate: Option<Selected>| copied(candidate))
}

fn first_of(candidates: &Vec<Option<Selected>>, media_type: Option<&str>) -> (r: Option<Selected>)
    ensures
        copied(r) == first_candidate(
            candidate_views(candidates@),
            match media_type {
                Some(media_type) => Some(media_type@),
                None => None,
            },
            0,
        ),
{
    let ghost views = candidate_views(candidates@);
    let ghost wanted = match media_type {
        Some(media_type) => Some(media_type@),
        None => None,
    };
    let mut i: usize = 0;
    while i < candidates.len()
        invariant
            i <= candidates@.len(),
            views == candidate_views(candidates@),
            wanted == match media_type {
                Some(media_type) => Some(media_type@),
                None => None,
            },
            first_candidate(views, wanted, i as int) == first_candidate(views, wanted, 0),
        decreases candidates@.len() - i,
    {
        assert(views[i as int] == copied(candidates@[i as int]));
        match &candidates[i] {
            Some(candidate) => {
                let wanted_here = match media_type {
                    Some(media_type) => same(candidate.media_type.as_str(), media_type),
                    None => true,
                };
                if wanted_here {
                    return Some(candidate.copy());
                }
            },
            None => {},
        }
        i = i + 1;
    }
    None
}

fn root_of(
    bodies: &Vec<Structure>,
    candidates: &Vec<Option<Selected>>,
    path: &Vec<u32>,
    ids: &Vec<PartId>,
    root: &str,
) -> (r: Result<Option<Selected>, Error>)
    requires
        candidates@.len() == bodies@.len() <= u32::MAX,
    ensures
        shown(r) == root_candidate(
            bodies@,
            candidate_views(candidates@),
            path@,
            ids@,
            root@,
            0,
        ),
{
    let ghost views = candidate_views(candidates@);
    let mut i: usize = 0;
    while i < bodies.len()
        invariant
            i <= bodies@.len() <= u32::MAX,
            candidates@.len() == bodies@.len(),
            views == candidate_views(candidates@),
            root_candidate(bodies@, views, path@, ids@, root@, i as int) == root_candidate(
                bodies@,
                views,
                path@,
                ids@,
                root@,
                0,
            ),
        decreases bodies@.len() - i,
    {
        let child = match child_path(path, i + 1) {
            Ok(child) => child,
            Err(error) => {
                return Err(error);
            },
        };
        assert(child@ == nth_path(path@, i as int));
        let id = match identify(ids, &child, &bodies[i]) {
            Ok(id) => id,
            Err(error) => {
                return Err(error);
            },
        };
        let found = match &id {
            Some(id) => same(id.as_str(), root),
            None => false,
        };
        if found {
            assert(views[i as int] == copied(candidates@[i as int]));
            return Ok(copy_of(&candidates[i]));
        }
        i = i + 1;
    }
    Ok(None)
}

fn choose_multipart(
    bodies: &Vec<Structure>,
    candidates: &Vec<Option<Selected>>,
    subtype: &str,
    parameters: &Vec<Parameter>,
    path: &Vec<u32>,
    ids: &Vec<PartId>,
) -> (r: Result<Option<Selected>, Error>)
    requires
        candidates@.len() == bodies@.len() <= u32::MAX,
    ensures
        shown(r) == multipart_choice(
            bodies@,
            candidate_views(candidates@),
            subtype@,
            parameters@,
            path@,
            ids@,
        ),
{
    if same(subtype, "alternative") {
        return match first_of(candidates, Some("text/plain")) {
            Some(selected) => Ok(Some(selected)),
            None => Ok(first_of(candidates, Some("text/html"))),
        };
    }
    if same(subtype, "related") {
        let root = match parameter(parameters, "start") {
            Err(error) => {
                return Err(error);
            },
            Ok(None) => None,
            Ok(Some(start)) => match normalize_content_id(start.as_str()) {
                Err(error) => {
                    return Err(error);
                },
                Ok(root) => match root_of(bodies, candidates, path, ids, root.as_str()) {
                    Err(error) => {
                        return Err(error);
                    },
                    Ok(found) => found,
                },
            },
        };
        return match root {
            Some(selected) => Ok(Some(selected)),
            None => Ok(first_of(candidates, None)),
        };
    }
    Ok(first_of(candidates, None))
}

proof fn parts_outnumber_children(bodies: Seq<Structure>, count: nat)
    requires
        count <= bodies.len(),
    ensures
        count <= parts_count(bodies, count),
    decreases count,
{
    if count > 0 {
        parts_outnumber_children(bodies, (count - 1) as nat);
        assert(part_count(bodies[count - 1]) >= 1);
    }
}

proof fn child_is_smaller(bodies: Seq<Structure>, i: nat, count: nat)
    requires
        i < count <= bodies.len(),
    ensures
        part_count(bodies[i as int]) <= parts_count(bodies, count),
    decreases count,
{
    if i + 1 < count {
        child_is_smaller(bodies, i, (count - 1) as nat);
    }
}

fn choose_part(structure: &Structure, path: &Vec<u32>, ids: &Vec<PartId>) -> (r: Result<
    Option<Selected>,
    Error,
>)
    requires
        part_count(*structure) <= u32::MAX,
    ensures
        shown(r) == selection(*structure, path@, ids@),
    decreases structure,
{
    match structure {
        Structure::Single { body, disposition } => {
            if attachment(disposition) {
                return Ok(None);
            }
            let part = if path.len() == 0 {
                let mut part: Vec<u32> = Vec::new();
                part.push(1);
                assert(part@ =~= seq![1u32]);
                part
            } else {
                let part = path.clone();
                assert(part@ =~= path@);
                part
            };
            leaf(body, part)
        },
        Structure::Multi { bodies, subtype, parameters, disposition } => {
            if attachment(disposition) {
                return Ok(None);
            }
            let subtype = match imap_text(subtype) {
                Ok(subtype) => lower_text(subtype.as_str()),
                Err(error) => {
                    return Err(error);
                },
            };
            let mut candidates: Vec<Option<Selected>> = Vec::new();
            proof {
                parts_outnumber_children(bodies@, bodies@.len());
                assert(candidate_views(candidates@) =~= Seq::empty());
            }
            let mut i: usize = 0;
            while i < bodies.len()
                invariant
                    i <= bodies@.len() <= u32::MAX,
                    *structure matches Structure::Multi { bodies: all, .. } && all == *bodies,
                    parts_count(bodies@, bodies@.len()) <= u32::MAX,
                    candidates@.len() == i,
                    selections(bodies@, path@, ids@, i as nat) == Ok::<Seq<Option<Choice>>, Error>(
                        candidate_views(candidates@),
                    ),
                    *structure matches Structure::Multi { bodies: _, subtype: kind, parameters: _, disposition: shown_as }
                        && !is_attachment(shown_as) && server_text(kind@) is Ok,
                decreases bodies@.len() - i,
            {
                let child = match child_path(path, i + 1) {
                    Ok(child) => child,
                    Err(error) => {
                        return Err(error);
                    },
                };
                assert(child@ == nth_path(path@, i as int));
                proof {
                    child_is_smaller(bodies@, i as nat, bodies@.len());
                }
                let ghost before = candidate_views(candidates@);
                match choose_part(&bodies[i], &child, ids) {
                    Ok(candidate) => {
                        candidates.push(candidate);
                        assert(candidate_views(candidates@) =~= before.push(copied(candidate)));
                    },
                    Err(error) => {
                        proof {
                            selections_fail_on(
                                bodies@,
                                path@,
                                ids@,
                                (i + 1) as nat,
                                bodies@.len(),
                            );
                        }
                        return Err(error);
                    },
                }
                i = i + 1;
            }
            choose_multipart(bodies, &candidates, subtype.as_str(), parameters, path, ids)
        },
    }
}

/// Select a body without fetching its siblings. `ids` maps direct multipart/related child paths to
/// the value from their MIME headers.
pub fn select(structure: &Structure, limits: &Limits, ids: &Vec<PartId>) -> (r: Result<
    Option<Selected>,
    Error,
>)
    requires
        limits.valid(),
    ensures
        shown(r) == (if is_bounded(*structure, *limits) {
            selection(*structure, Seq::empty(), ids@)
        } else {
            Err(Error::Limit)
        }),
{
    match validate_structure(structure, limits) {
        Err(error) => Err(error),
        Ok(()) => {
            let root: Vec<u32> = Vec::new();
            assert(root@ =~= Seq::<u32>::empty());
            choose_part(structure, &root, ids)
        },
    }
}

/// Parts that are offered as files never become the body, nor does anything inside of them.
pub proof fn attachments_are_not_shown(structure: Structure, path: Seq<u32>, ids: Seq<PartId>)
    ensures
        (structure matches Structure::Single { disposition, .. } && is_attachment(disposition))
            ==> selection(structure, path, ids) == Ok::<Option<Choice>, Error>(None),
        (structure matches Structure::Multi { disposition, .. } && is_attachment(disposition))
            ==> selection(structure, path, ids) == Ok::<Option<Choice>, Error>(None),
{
}

/// What a candidate list offers is what is shown: the first candidate is one of the candidates.
proof fn first_is_offered(candidates: Seq<Option<Choice>>, media_type: Option<Seq<char>>, i: int)
    requires
        0 <= i,
    ensures
        first_candidate(candidates, media_type, i) matches Some(choice) ==> exists|j: int|
            i <= j < candidates.len() && #[trigger] candidates[j] == Some(choice) && (media_type
                is None || media_type == Some(choice.media_type)),
        first_candidate(candidates, media_type, i) is None ==> forall|j: int|
            i <= j < candidates.len() ==> (#[trigger] candidates[j] is None || (media_type is Some
                && media_type != Some(candidates[j]->0.media_type))),
    decreases candidates.len() - i,
{
    if i < candidates.len() {
        first_is_offered(candidates, media_type, i + 1);
    }
}

/// Of alternatives, plain text is shown before HTML, and nothing else is shown.
pub proof fn plain_text_comes_first(
    bodies: Seq<Structure>,
    candidates: Seq<Option<Choice>>,
    parameters: Seq<Parameter>,
    path: Seq<u32>,
    ids: Seq<PartId>,
)
    ensures
        multipart_choice(bodies, candidates, "alternative"@, parameters, path, ids) matches Ok(
            Some(choice),
        ) ==> {
            &&& candidates.contains(Some(choice))
            &&& choice.media_type == "text/plain"@ || choice.media_type == "text/html"@
            &&& choice.media_type != "text/plain"@ ==> forall|j: int|
                0 <= j < candidates.len() ==> (#[trigger] candidates[j] matches Some(other)
                    ==> other.media_type != "text/plain"@)
        },
{
    first_is_offered(candidates, Some("text/plain"@), 0);
    first_is_offered(candidates, Some("text/html"@), 0);
}

/// Where the children of a multipart offer something, and what each of them offers.
proof fn children_offer(bodies: Seq<Structure>, path: Seq<u32>, ids: Seq<PartId>, count: nat)
    requires
        count <= bodies.len(),
        selections(bodies, path, ids, count) is Ok,
    ensures
        selections(bodies, path, ids, count)->Ok_0.len() == count,
        forall|i: int|
            0 <= i < count ==> selection(#[trigger] bodies[i], path.push((i + 1) as u32), ids) == Ok::<
                Option<Choice>,
                Error,
            >(selections(bodies, path, ids, count)->Ok_0[i]),
    decreases count,
{
    if count > 0 {
        children_offer(bodies, path, ids, (count - 1) as nat);
    }
}

/// What the child of a multipart in the given place, counted from one, would show on its own.
pub open spec fn offered(bodies: Seq<Structure>, path: Seq<u32>, ids: Seq<PartId>, place: int) -> Result<
    Option<Choice>,
    Error,
> {
    selection(bodies[place - 1], path.push(place as u32), ids)
}

/// The choice is of the wanted type, where one is wanted.
pub open spec fn is_wanted(choice: Choice, wanted: Option<Seq<char>>) -> bool {
    wanted matches Some(media_type) ==> choice.media_type == media_type
}

/// The `place`-th child offers `choice`, and no child before it offers one that is `wanted`.
pub open spec fn offers_first(
    bodies: Seq<Structure>,
    path: Seq<u32>,
    ids: Seq<PartId>,
    wanted: Option<Seq<char>>,
    place: int,
    choice: Choice,
) -> bool {
    &&& 1 <= place <= bodies.len()
    &&& is_wanted(choice, wanted)
    &&& offered(bodies, path, ids, place) == Ok::<Option<Choice>, Error>(Some(choice))
    &&& forall|earlier: int|
        1 <= earlier < place ==> (#[trigger] offered(bodies, path, ids, earlier) matches Ok(Some(other))
            ==> !is_wanted(other, wanted))
}

/// No child offers a choice that is `wanted`.
pub open spec fn none_offers(
    bodies: Seq<Structure>,
    path: Seq<u32>,
    ids: Seq<PartId>,
    wanted: Option<Seq<char>>,
) -> bool {
    forall|place: int|
        1 <= place <= bodies.len() ==> (#[trigger] offered(bodies, path, ids, place) matches Ok(
            Some(other),
        ) ==> !is_wanted(other, wanted))
}

proof fn first_candidates_are_offered_first(
    bodies: Seq<Structure>,
    path: Seq<u32>,
    ids: Seq<PartId>,
    candidates: Seq<Option<Choice>>,
    wanted: Option<Seq<char>>,
    i: int,
)
    requires
        0 <= i <= bodies.len(),
        candidates.len() == bodies.len(),
        forall|k: int|
            0 <= k < bodies.len() ==> selection(#[trigger] bodies[k], path.push((k + 1) as u32), ids)
                == Ok::<Option<Choice>, Error>(candidates[k]),
        forall|k: int|
            0 <= k < i ==> (#[trigger] candidates[k] matches Some(other) ==> !is_wanted(other, wanted)),
    ensures
        match first_candidate(candidates, wanted, i) {
            Some(choice) => exists|place: int| #[trigger]
                offers_first(bodies, path, ids, wanted, place, choice),
            None => none_offers(bodies, path, ids, wanted),
        },
    decreases candidates.len() - i,
{
    if i < candidates.len() {
        if candidates[i] is Some && is_wanted(candidates[i]->0, wanted) {
            let choice = candidates[i]->0;
            assert(selection(bodies[i], path.push((i + 1) as u32), ids) == Ok::<
                Option<Choice>,
                Error,
            >(candidates[i]));
            assert forall|earlier: int| 1 <= earlier < i + 1 implies (#[trigger] offered(
                bodies,
                path,
                ids,
                earlier,
            ) matches Ok(Some(other)) ==> !is_wanted(other, wanted)) by {
                assert(selection(bodies[earlier - 1], path.push((earlier - 1 + 1) as u32), ids) == Ok::<
                    Option<Choice>,
                    Error,
                >(candidates[earlier - 1]));
            }
            assert(offers_first(bodies, path, ids, wanted, i + 1, choice));
        } else {
            first_candidates_are_offered_first(
                bodies,
                path,
                ids,
                candidates,
                wanted,
                i + 1,
            );
        }
    } else {
        assert forall|place: int| 1 <= place <= bodies.len() implies (#[trigger] offered(
            bodies,
            path,
            ids,
            place,
        ) matches Ok(Some(other)) ==> !is_wanted(other, wanted)) by {
            assert(selection(bodies[place - 1], path.push((place - 1 + 1) as u32), ids) == Ok::<
                Option<Choice>,
                Error,
            >(candidates[place - 1]));
        }
    }
}

/// A multipart that is neither a set of alternatives nor of related parts shows what the first of its
/// children shows that shows anything, whatever its type. It shows nothing only where none of them
/// does.
pub proof fn the_first_showable_part_is_shown(structure: Structure, path: Seq<u32>, ids: Seq<PartId>)
    requires
        structure matches Structure::Multi { bodies, subtype, parameters, disposition }
            && !is_attachment(disposition) && (spelled(subtype@) matches Some(name) && lowered_text(name)
            != "alternative"@ && lowered_text(name) != "related"@),
        selection(structure, path, ids) is Ok,
    ensures
        match selection(structure, path, ids)->Ok_0 {
            Some(choice) => exists|place: int| #[trigger]
                offers_first(structure->bodies@, path, ids, None, place, choice),
            None => none_offers(structure->bodies@, path, ids, None),
        },
{
    let bodies = structure->bodies@;
    children_offer(bodies, path, ids, bodies.len());
    first_candidates_are_offered_first(
        bodies,
        path,
        ids,
        selections(bodies, path, ids, bodies.len())->Ok_0,
        None,
        0,
    );
}

/// Of alternatives, the first plain text is shown. Where there is none, the first HTML text is; and
/// where there is neither, nothing is.
pub proof fn alternatives_prefer_plain_text(structure: Structure, path: Seq<u32>, ids: Seq<PartId>)
    requires
        structure matches Structure::Multi { bodies, subtype, parameters, disposition }
            && !is_attachment(disposition) && (spelled(subtype@) matches Some(name) && lowered_text(name)
            == "alternative"@),
        selection(structure, path, ids) is Ok,
    ensures
        ({
            let plain = Some("text/plain"@);
            let html = Some("text/html"@);
            let bodies = structure->bodies@;
            match selection(structure, path, ids)->Ok_0 {
                Some(choice) => (exists|place: int| #[trigger]
                    offers_first(bodies, path, ids, plain, place, choice)) || (none_offers(
                    bodies,
                    path,
                    ids,
                    plain,
                ) && exists|place: int| #[trigger]
                    offers_first(bodies, path, ids, html, place, choice)),
                None => none_offers(bodies, path, ids, plain) && none_offers(
                    bodies,
                    path,
                    ids,
                    html,
                ),
            }
        }),
{
    let plain = Some("text/plain"@);
    let html = Some("text/html"@);
    let bodies = structure->bodies@;
    let candidates = selections(bodies, path, ids, bodies.len())->Ok_0;
    assert("alternative"@ != "related"@) by {
        reveal_strlit("alternative");
        reveal_strlit("related");
    }
    children_offer(bodies, path, ids, bodies.len());
    first_candidates_are_offered_first(
        bodies,
        path,
        ids,
        candidates,
        plain,
        0,
    );
    first_candidates_are_offered_first(bodies, path, ids, candidates, html, 0);
}

/// Of related parts that name no root, the first that shows anything is shown. Where they name one and
/// the first child that bears its identifier shows something, that is shown.
pub proof fn related_parts_show_their_root(
    structure: Structure,
    path: Seq<u32>,
    ids: Seq<PartId>,
    root: Seq<char>,
    place: int,
)
    requires
        structure matches Structure::Multi { bodies, subtype, parameters, disposition }
            && !is_attachment(disposition) && (spelled(subtype@) matches Some(name) && lowered_text(name)
            == "related"@),
        selection(structure, path, ids) is Ok,
    ensures
        parameter_value(structure->parameters@, "start"@, 0) == Ok::<Option<Seq<char>>, Error>(None)
            ==> match selection(structure, path, ids)->Ok_0 {
            Some(choice) => exists|first: int| #[trigger]
                offers_first(structure->bodies@, path, ids, None, first, choice),
            None => none_offers(structure->bodies@, path, ids, None),
        },
        (parameter_value(structure->parameters@, "start"@, 0) matches Ok(Some(start)) && content_id(start)
            == Ok::<Seq<char>, Error>(root) && 1 <= place <= structure->bodies@.len() && child_id(
            ids,
            path.push(place as u32),
            structure->bodies@[place - 1],
        ) == Ok::<Option<Seq<char>>, Error>(Some(root)) && (forall|earlier: int|
            1 <= earlier < place ==> child_id(
                ids,
                path.push(earlier as u32),
                #[trigger] structure->bodies@[earlier - 1],
            ) != Ok::<Option<Seq<char>>, Error>(Some(root))) && offered(
            structure->bodies@,
            path,
            ids,
            place,
        )->Ok_0 is Some) ==> selection(structure, path, ids) == offered(
            structure->bodies@,
            path,
            ids,
            place,
        ),
{
    let bodies = structure->bodies@;
    let candidates = selections(bodies, path, ids, bodies.len())->Ok_0;
    assert("alternative"@ != "related"@) by {
        reveal_strlit("alternative");
        reveal_strlit("related");
    }
    children_offer(bodies, path, ids, bodies.len());
    first_candidates_are_offered_first(
        bodies,
        path,
        ids,
        candidates,
        None,
        0,
    );
    if 1 <= place <= bodies.len() && (forall|earlier: int|
        1 <= earlier < place ==> child_id(
            ids,
            path.push(earlier as u32),
            #[trigger] bodies[earlier - 1],
        ) != Ok::<Option<Seq<char>>, Error>(Some(root))) && child_id(
        ids,
        path.push(place as u32),
        bodies[place - 1],
    ) == Ok::<Option<Seq<char>>, Error>(Some(root)) && root_candidate(
        bodies,
        candidates,
        path,
        ids,
        root,
        0,
    ) is Ok {
        roots_are_found(bodies, candidates, path, ids, root, 0, place);
        assert(selection(bodies[place - 1], path.push((place - 1 + 1) as u32), ids) == Ok::<
            Option<Choice>,
            Error,
        >(candidates[place - 1]));
    }
}

proof fn roots_are_found(
    bodies: Seq<Structure>,
    candidates: Seq<Option<Choice>>,
    path: Seq<u32>,
    ids: Seq<PartId>,
    root: Seq<char>,
    i: int,
    place: int,
)
    requires
        0 <= i < place <= bodies.len(),
        root_candidate(bodies, candidates, path, ids, root, i) is Ok,
        forall|earlier: int|
            1 <= earlier < place ==> child_id(
                ids,
                path.push(earlier as u32),
                #[trigger] bodies[earlier - 1],
            ) != Ok::<Option<Seq<char>>, Error>(Some(root)),
        child_id(ids, path.push(place as u32), bodies[place - 1]) == Ok::<Option<Seq<char>>, Error>(
            Some(root),
        ),
    ensures
        root_candidate(bodies, candidates, path, ids, root, i) == Ok::<Option<Choice>, Error>(
            candidates[place - 1],
        ),
    decreases place - i,
{
    if i < place - 1 {
        assert(child_id(ids, path.push((i + 1) as u32), bodies[(i + 1) - 1]) != Ok::<
            Option<Seq<char>>,
            Error,
        >(Some(root)));
        roots_are_found(bodies, candidates, path, ids, root, i + 1, place);
    }
}

/// The part of a structure to which a path of places, each counted from one, leads.
pub open spec fn part_at(structure: Structure, path: Seq<u32>) -> Option<Structure>
    decreases path.len(),
{
    if path.len() == 0 {
        Some(structure)
    } else if structure is Multi && 1 <= path[0] <= structure->bodies@.len() {
        part_at(structure->bodies@[path[0] - 1], path.drop_first())
    } else {
        None
    }
}

/// The parameter has this name, up to the case of its letters.
pub open spec fn is_called(parameter: Parameter, wanted: Seq<char>) -> bool {
    spelled(parameter.0@) matches Some(name) && lowered_text(name) == lowered_text(wanted)
}

/// The parameter has a name that can be read, and it is another one.
pub open spec fn is_called_otherwise(parameter: Parameter, wanted: Seq<char>) -> bool {
    spelled(parameter.0@) matches Some(name) && lowered_text(name) != lowered_text(wanted)
}

/// The choice describes this part: a text that is plain or HTML and not offered as a file, the charset
/// that it states or US-ASCII, its transfer encoding in lower case, and its size.
pub open spec fn describes(choice: Choice, part: Structure) -> bool {
    part matches Structure::Single { body, disposition } && !is_attachment(disposition) && (
    body.kind matches BodyKind::Text { subtype } && {
        &&& spelled(subtype@) matches Some(name) && (lowered_text(name) == "plain"@ || lowered_text(name)
            == "html"@) && choice.media_type == "text/"@ + lowered_text(name)
        &&& spelled(body.transfer_encoding@) matches Some(name) && choice.transfer_encoding
            == lowered_text(name)
        &&& choice.wire_size == body.size
        &&& (forall|i: int|
            0 <= i < body.parameters@.len() ==> is_called_otherwise(
                #[trigger] body.parameters@[i],
                "charset"@,
            )) ==> choice.charset == "us-ascii"@
        &&& choice.charset == "us-ascii"@ || exists|i: int|
            0 <= i < body.parameters@.len() && is_called(#[trigger] body.parameters@[i], "charset"@)
                && spelled(body.parameters@[i].1@) == Some(choice.charset)
    })
}

proof fn parameters_are_found(parameters: Seq<Parameter>, wanted: Seq<char>, i: int)
    requires
        0 <= i,
    ensures
        parameter_value(parameters, wanted, i) matches Ok(Some(value)) ==> exists|k: int|
            i <= k < parameters.len() && is_called(#[trigger] parameters[k], wanted) && spelled(
                parameters[k].1@,
            ) == Some(value) && forall|j: int|
                i <= j < k ==> is_called_otherwise(#[trigger] parameters[j], wanted),
        parameter_value(parameters, wanted, i) == Ok::<Option<Seq<char>>, Error>(None) ==> forall|k: int|
            i <= k < parameters.len() ==> is_called_otherwise(#[trigger] parameters[k], wanted),
        parameter_value(parameters, wanted, i) is Err ==> parameter_value(parameters, wanted, i)->Err_0
            == Error::Protocol && exists|k: int|
            i <= k < parameters.len() && (spelled((#[trigger] parameters[k]).0@) is None || spelled(
                parameters[k].1@,
            ) is None),
    decreases parameters.len() - i,
{
    if i < parameters.len() {
        assert(parameters[i] == parameters[i]);
        parameters_are_found(parameters, wanted, i + 1);
    }
}

/// A parameter is the first one of its name, whatever the case; it is missing where there is none of
/// that name, and refused only where some name or value is no UTF-8.
pub proof fn parameters_are_the_first_of_their_name(parameters: Seq<Parameter>, wanted: Seq<char>)
    ensures
        match parameter_value(parameters, wanted, 0) {
            Ok(Some(value)) => exists|k: int|
                0 <= k < parameters.len() && is_called(#[trigger] parameters[k], wanted) && spelled(
                    parameters[k].1@,
                ) == Some(value) && forall|j: int|
                    0 <= j < k ==> is_called_otherwise(#[trigger] parameters[j], wanted),
            Ok(None) => forall|k: int|
                0 <= k < parameters.len() ==> is_called_otherwise(#[trigger] parameters[k], wanted),
            Err(_) => exists|k: int|
                0 <= k < parameters.len() && (spelled((#[trigger] parameters[k]).0@) is None || spelled(
                    parameters[k].1@,
                ) is None),
        },
{
    parameters_are_found(parameters, wanted, 0);
}

proof fn part_at_child(structure: Structure, place: u32, rest: Seq<u32>)
    requires
        structure is Multi,
        1 <= place <= structure->bodies@.len(),
    ensures
        part_at(structure, seq![place] + rest) == part_at(structure->bodies@[place - 1], rest),
{
    assert((seq![place] + rest).drop_first() =~= rest);
}

proof fn choices_describe_parts(structure: Structure, path: Seq<u32>, ids: Seq<PartId>)
    requires
        part_count(structure) <= u32::MAX,
    ensures
        selection(structure, path, ids) matches Ok(Some(choice)) ==> exists|below: Seq<u32>| #[trigger]
            part_at(structure, below) matches Some(part) && describes(choice, part) && choice.part == (
            if path.len() == 0 && below.len() == 0 {
                seq![1u32]
            } else {
                path + below
            }),
    decreases structure,
{
    match structure {
        Structure::Single { body, disposition } => {
            if let Ok(Some(choice)) = selection(structure, path, ids) {
                parameters_are_found(body.parameters@, "charset"@, 0);
                lower_case_stays("charset"@);
                assert(lowered_text("charset"@) == "charset"@) by {
                    reveal_strlit("charset");
                }
                assert(part_at(structure, Seq::<u32>::empty()) == Some(structure));
                assert(path + Seq::<u32>::empty() =~= path);
                assert(describes(choice, structure));
            }
        },
        Structure::Multi { bodies, subtype, parameters, disposition } => {
            if let Ok(Some(choice)) = selection(structure, path, ids) {
                children_offer(bodies@, path, ids, bodies@.len());
                let candidates = selections(bodies@, path, ids, bodies@.len())->Ok_0;
                some_child_is_chosen(structure, path, ids);
                let i = choose|i: int| 0 <= i < candidates.len() && candidates[i] == Some(choice);
                parts_outnumber_children(bodies@, bodies@.len());
                child_is_smaller(bodies@, i as nat, bodies@.len());
                assert(selection(bodies@[i], path.push((i + 1) as u32), ids) == Ok::<
                    Option<Choice>,
                    Error,
                >(candidates[i]));
                choices_describe_parts(bodies@[i], path.push((i + 1) as u32), ids);
                let below = choose|below: Seq<u32>| #[trigger]
                    part_at(bodies@[i], below) matches Some(part) && describes(choice, part)
                        && choice.part == path.push((i + 1) as u32) + below;
                part_at_child(structure, (i + 1) as u32, below);
                assert(path.push((i + 1) as u32) + below =~= path + (seq![(i + 1) as u32] + below));
                assert(part_at(structure, seq![(i + 1) as u32] + below) is Some);
            }
        },
    }
}

proof fn lower_case_stays(s: Seq<char>)
    ensures
        lowered_text(lowered_text(s)) == lowered_text(s),
{
    assert(lowered_text(lowered_text(s)) =~= lowered_text(s));
}

proof fn some_child_is_chosen(structure: Structure, path: Seq<u32>, ids: Seq<PartId>)
    requires
        structure is Multi,
        selection(structure, path, ids) matches Ok(Some(_)),
    ensures
        ({
            let candidates = selections(
                structure->bodies@,
                path,
                ids,
                structure->bodies@.len(),
            );
            candidates is Ok && exists|i: int|
                0 <= i < candidates->Ok_0.len() && candidates->Ok_0[i] == selection(
                    structure,
                    path,
                    ids,
                )->Ok_0
        }),
{
    let bodies = structure->bodies@;
    let candidates = selections(bodies, path, ids, bodies.len())->Ok_0;
    children_offer(bodies, path, ids, bodies.len());
    first_is_offered(candidates, Some("text/plain"@), 0);
    first_is_offered(candidates, Some("text/html"@), 0);
    first_is_offered(candidates, None, 0);
    if let Ok(Some(start)) = parameter_value(structure->parameters@, "start"@, 0) {
        if let Ok(root) = content_id(start) {
            roots_are_candidates(bodies, candidates, path, ids, root, 0);
        }
    }
}

proof fn roots_are_candidates(
    bodies: Seq<Structure>,
    candidates: Seq<Option<Choice>>,
    path: Seq<u32>,
    ids: Seq<PartId>,
    root: Seq<char>,
    i: int,
)
    requires
        0 <= i,
        candidates.len() == bodies.len(),
    ensures
        root_candidate(bodies, candidates, path, ids, root, i) matches Ok(Some(choice)) ==> exists|j: int|
            i <= j < candidates.len() && #[trigger] candidates[j] == Some(choice),
    decreases bodies.len() - i,
{
    if i < bodies.len() {
        roots_are_candidates(bodies, candidates, path, ids, root, i + 1);
    }
}

/// What is shown is a text of the message: the part that is named stands in that place of the
/// structure, is plain text or HTML, is not offered as a file, and has the stated charset, transfer
/// encoding and size.
pub proof fn the_shown_part_is_a_text_of_the_message(structure: Structure, ids: Seq<PartId>)
    requires
        part_count(structure) <= u32::MAX,
    ensures
        selection(structure, Seq::empty(), ids) matches Ok(Some(choice)) ==> match structure {
            Structure::Single { .. } => choice.part == seq![1u32] && describes(choice, structure),
            Structure::Multi { .. } => part_at(structure, choice.part) matches Some(part) && describes(
                choice,
                part,
            ),
        },
{
    choices_describe_parts(structure, Seq::empty(), ids);
    if let Ok(Some(choice)) = selection(structure, Seq::empty(), ids) {
        let below = choose|below: Seq<u32>| #[trigger]
            part_at(structure, below) matches Some(part) && describes(choice, part) && choice.part == (
            if below.len() == 0 {
                seq![1u32]
            } else {
                Seq::empty() + below
            });
        assert(Seq::<u32>::empty() + below =~= below);
    }
}

/// A single part is shown exactly where it is plain text or HTML and not offered as a file, as far as
/// its words can be read.
pub proof fn texts_are_shown(
    body: Body,
    disposition: Option<Disposition>,
    path: Seq<u32>,
    ids: Seq<PartId>,
)
    requires
        body.kind matches BodyKind::Text { subtype } && spelled(subtype@) is Some,
    ensures
        ({
            let name = lowered_text(spelled(body.kind->Text_subtype@)->0);
            let found = selection(Structure::Single { body, disposition }, path, ids);
            &&& (is_attachment(disposition) || (name != "plain"@ && name != "html"@)) ==> found == Ok::<
                Option<Choice>,
                Error,
            >(None)
            &&& (!is_attachment(disposition) && (name == "plain"@ || name == "html"@)) ==> (found matches Ok(
                Some(_),
            ) || found == Err::<Option<Choice>, Error>(Error::Protocol))
        }),
{
    parameters_are_found(body.parameters@, "charset"@, 0);
}

/// A content identifier reads back from its angle brackets, whatever white space stands around them, and
/// one without brackets is taken as it is. It has one to 998 bytes and no control characters.
pub proof fn content_ids_read_back(before: Seq<char>, id: Seq<char>, after: Seq<char>)
    requires
        forall|i: int| 0 <= i < before.len() ==> is_whitespace(#[trigger] before[i]),
        forall|i: int| 0 <= i < after.len() ==> is_whitespace(#[trigger] after[i]),
    ensures
        content_id(before + (seq!['<'] + id + seq!['>']) + after) == (if 0 < id.len() && utf8_len(id) <= 998 && forall|
            i: int,
        | 0 <= i < id.len() ==> !(((#[trigger] id[i]) as u32) < 0x20 || id[i] as u32 == 0x7f) {
            Ok::<Seq<char>, Error>(id)
        } else {
            Err(Error::Protocol)
        }),
{
    let inner = seq!['<'] + id + seq!['>'];
    edges_are_trimmed(before, inner, after);
    assert(unbracketed(inner) =~= id);
    if forall|i: int| 0 <= i < id.len() ==> !(((#[trigger] id[i]) as u32) < 0x20 || id[i] as u32 == 0x7f) {
        assert(forall|i: int| 0 <= i < id.len() ==> !is_ascii_control(#[trigger] id[i]));
    } else {
        let i = choose|i: int| 0 <= i < id.len() && (((#[trigger] id[i]) as u32) < 0x20 || id[i] as u32 == 0x7f);
        assert(is_ascii_control(id[i]));
    }
}

proof fn edges_are_trimmed(before: Seq<char>, inner: Seq<char>, after: Seq<char>)
    requires
        forall|i: int| 0 <= i < before.len() ==> is_whitespace(#[trigger] before[i]),
        forall|i: int| 0 <= i < after.len() ==> is_whitespace(#[trigger] after[i]),
        inner.len() > 0,
        !is_whitespace(inner[0]) && !is_whitespace(inner.last()),
    ensures
        trimmed(before + inner + after) == inner,
{
    starts_come_off(before, inner + after);
    assert(before + inner + after =~= before + (inner + after));
    assert((inner + after)[0] == inner[0]);
    ends_come_off(inner, after);
}

proof fn starts_come_off(before: Seq<char>, rest: Seq<char>)
    requires
        forall|i: int| 0 <= i < before.len() ==> is_whitespace(#[trigger] before[i]),
        rest.len() > 0,
        !is_whitespace(rest[0]),
    ensures
        trimmed_start(before + rest) == rest,
    decreases before.len(),
{
    if before.len() > 0 {
        let shorter = before.drop_first();
        assert forall|i: int| 0 <= i < shorter.len() implies is_whitespace(#[trigger] shorter[i]) by {
            assert(shorter[i] == before[i + 1]);
        }
        starts_come_off(shorter, rest);
        assert((before + rest)[0] == before[0]);
        assert((before + rest).drop_first() =~= shorter + rest);
    } else {
        assert(before + rest =~= rest);
    }
}

proof fn ends_come_off(inner: Seq<char>, after: Seq<char>)
    requires
        forall|i: int| 0 <= i < after.len() ==> is_whitespace(#[trigger] after[i]),
        inner.len() > 0,
        !is_whitespace(inner.last()),
    ensures
        trimmed_end(inner + after) == inner,
    decreases after.len(),
{
    if after.len() > 0 {
        let shorter = after.drop_last();
        assert forall|i: int| 0 <= i < shorter.len() implies is_whitespace(#[trigger] shorter[i]) by {
            assert(shorter[i] == after[i]);
        }
        ends_come_off(inner, shorter);
        assert((inner + after).last() == after.last());
        assert(is_whitespace(after[after.len() - 1]));
        assert((inner + after).drop_last() =~= inner + shorter);
    } else {
        assert(inner + after =~= inner);
    }
}

/// A part goes by the identifier that its own headers state where they were read, the first note of it,
/// and else by the one that the server states.
pub proof fn headers_name_their_part(ids: Seq<PartId>, path: Seq<u32>, child: Structure)
    ensures
        (forall|i: int| 0 <= i < ids.len() ==> (#[trigger] ids[i]).0@ != path) ==> child_id(ids, path, child)
            == stated_id(child),
        forall|i: int|
            0 <= i < ids.len() && (#[trigger] ids[i]).0@ == path && (forall|j: int|
                0 <= j < i ==> (#[trigger] ids[j]).0@ != path) && stated_id(child) is Ok ==> child_id(ids, path, child)
                == (match content_id(ids[i].1@) {
                Ok(id) => Ok::<Option<Seq<char>>, Error>(Some(id)),
                Err(error) => Err(error),
            }),
        stated_id(child) is Err ==> child_id(ids, path, child) is Err,
        child is Multi ==> stated_id(child) == Ok::<Option<Seq<char>>, Error>(None),
{
    notes_are_found(ids, path, 0);
}

proof fn notes_are_found(ids: Seq<PartId>, path: Seq<u32>, from: int)
    requires
        0 <= from,
    ensures
        (forall|i: int| from <= i < ids.len() ==> (#[trigger] ids[i]).0@ != path) ==> known_id(ids, path, from) is None,
        forall|i: int|
            from <= i < ids.len() && (#[trigger] ids[i]).0@ == path && (forall|j: int|
                from <= j < i ==> (#[trigger] ids[j]).0@ != path) ==> known_id(ids, path, from) == Some(ids[i].1@),
    decreases ids.len() - from,
{
    if from < ids.len() && ids[from].0@ != path {
        notes_are_found(ids, path, from + 1);
    }
}

} // verus!
