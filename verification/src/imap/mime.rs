//! MIME structure limits and part identity shared by message readers.
use vstd::prelude::*;

use super::types::{BodyKind, Disposition, Structure};
use super::{Error, Limits};
use crate::text::{decimal, decimal_text, equal_ignoring_case, same_ignoring_case};

verus! {

/// The number of parts, attached messages and everything in them counted in.
pub open spec fn part_count(structure: Structure) -> nat
    decreases structure,
{
    match structure {
        Structure::Single { body, .. } => 1 + match body.kind {
            BodyKind::Message { structure } => part_count(*structure),
            _ => 0,
        },
        Structure::Multi { bodies, .. } => 1 + parts_count(bodies@, bodies@.len()),
    }
}

/// The number of parts in the first `count` of these structures.
pub open spec fn parts_count(bodies: Seq<Structure>, count: nat) -> nat
    decreases bodies, count,
{
    if count == 0 || count > bodies.len() {
        0
    } else {
        parts_count(bodies, (count - 1) as nat) + part_count(bodies[count - 1])
    }
}

pub open spec fn most(a: nat, b: nat) -> nat {
    if a > b {
        a
    } else {
        b
    }
}

/// The number of levels, the outermost one counted in.
pub open spec fn nesting(structure: Structure) -> nat
    decreases structure,
{
    match structure {
        Structure::Single { body, .. } => 1 + match body.kind {
            BodyKind::Message { structure } => nesting(*structure),
            _ => 0,
        },
        Structure::Multi { bodies, .. } => 1 + deepest(bodies@, bodies@.len()),
    }
}

/// The number of levels of the deepest one of the first `count` structures.
pub open spec fn deepest(bodies: Seq<Structure>, count: nat) -> nat
    decreases bodies, count,
{
    if count == 0 || count > bodies.len() {
        0
    } else {
        most(deepest(bodies, (count - 1) as nat), nesting(bodies[count - 1]))
    }
}

/// The structure stays within the ceilings on parts and levels.
pub open spec fn is_bounded(structure: Structure, limits: Limits) -> bool {
    part_count(structure) <= limits.max_mime_parts && nesting(structure) <= limits.max_nesting
}

fn visit(structure: &Structure, limits: &Limits, parts: usize, depth: usize) -> (r: Result<
    usize,
    Error,
>)
    requires
        1 <= depth <= limits.max_nesting + 1,
        parts <= limits.max_mime_parts,
        limits.max_nesting < usize::MAX,
    ensures
        match r {
            Ok(total) => {
                &&& total == parts + part_count(*structure)
                &&& total <= limits.max_mime_parts
                &&& depth - 1 + nesting(*structure) <= limits.max_nesting
            },
            Err(error) => error == Error::Limit && (parts + part_count(*structure)
                > limits.max_mime_parts || depth - 1 + nesting(*structure) > limits.max_nesting),
        },
    decreases structure,
{
    if parts >= limits.max_mime_parts || depth > limits.max_nesting {
        return Err(Error::Limit);
    }
    let seen: usize = parts + 1;
    match structure {
        Structure::Single { body, .. } => {
            match &body.kind {
                BodyKind::Message { structure } => visit(structure, limits, seen, depth + 1),
                _ => Ok(seen),
            }
        },
        Structure::Multi { bodies, .. } => {
            let mut total: usize = seen;
            let mut i: usize = 0;
            while i < bodies.len()
                invariant
                    i <= bodies@.len(),
                    *structure matches Structure::Multi { bodies: all, .. } && all == *bodies,
                    1 <= depth <= limits.max_nesting < usize::MAX,
                    seen == parts + 1,
                    total == seen + parts_count(bodies@, i as nat),
                    total <= limits.max_mime_parts,
                    depth + deepest(bodies@, i as nat) <= limits.max_nesting,
                decreases bodies@.len() - i,
            {
                assert(parts_count(bodies@, (i + 1) as nat) == parts_count(bodies@, i as nat)
                    + part_count(bodies@[i as int]));
                assert(deepest(bodies@, (i + 1) as nat) == most(
                    deepest(bodies@, i as nat),
                    nesting(bodies@[i as int]),
                ));
                match visit(&bodies[i], limits, total, depth + 1) {
                    Ok(now) => {
                        total = now;
                    },
                    Err(error) => {
                        proof {
                            counts_grow(bodies@, (i + 1) as nat, bodies@.len());
                        }
                        return Err(error);
                    },
                }
                i = i + 1;
            }
            Ok(total)
        },
    }
}

proof fn counts_grow(bodies: Seq<Structure>, few: nat, many: nat)
    requires
        few <= many <= bodies.len(),
    ensures
        parts_count(bodies, few) <= parts_count(bodies, many),
        deepest(bodies, few) <= deepest(bodies, many),
    decreases many,
{
    if few < many {
        counts_grow(bodies, few, (many - 1) as nat);
    }
}

/// Count the complete server-provided structure before selection cuts off attached-message and
/// attachment subtrees. Those subtrees are ineligible for rendering, but still consume the MIME
/// structure budget.
pub fn validate_structure(structure: &Structure, limits: &Limits) -> (r: Result<(), Error>)
    requires
        limits.max_nesting < usize::MAX,
    ensures
        r == (if is_bounded(*structure, *limits) {
            Ok::<(), Error>(())
        } else {
            Err(Error::Limit)
        }),
{
    match visit(structure, limits, 0, 1) {
        Ok(_) => Ok(()),
        Err(error) => Err(error),
    }
}

/// The bytes `attachment`.
pub open spec fn attachment_word() -> Seq<u8> {
    seq![0x61, 0x74, 0x74, 0x61, 0x63, 0x68, 0x6d, 0x65, 0x6e, 0x74]
}

/// The sender wants the part to be offered as a file.
pub open spec fn is_attachment(disposition: Option<Disposition>) -> bool {
    disposition matches Some(shown) && equal_ignoring_case(shown.kind@, attachment_word())
}

pub fn attachment(disposition: &Option<Disposition>) -> (r: bool)
    ensures
        r == is_attachment(*disposition),
{
    match disposition {
        None => false,
        Some(shown) => {
            let word: [u8; 10] = [
                0x61,
                0x74,
                0x74,
                0x61,
                0x63,
                0x68,
                0x6d,
                0x65,
                0x6e,
                0x74,
            ];
            assert(word@ =~= attachment_word());
            same_ignoring_case(shown.kind.as_slice(), word.as_slice())
        },
    }
}

/// The path of the `child`-th part below `parent`, counted from one.
pub fn child_path(parent: &Vec<u32>, child: usize) -> (r: Result<Vec<u32>, Error>)
    ensures
        match r {
            Ok(path) => 1 <= child <= u32::MAX && path@ == parent@.push(child as u32),
            Err(error) => error == Error::Limit && !(1 <= child <= u32::MAX),
        },
{
    if child == 0 || child > 0xffff_ffff {
        return Err(Error::Limit);
    }
    let mut path = parent.clone();
    path.push(child as u32);
    assert(path@ =~= parent@.push(child as u32));
    Ok(path)
}

/// The numbers of the path with dots between them.
pub open spec fn part_text(path: Seq<u32>) -> Seq<char>
    decreases path.len(),
{
    if path.len() == 0 {
        Seq::empty()
    } else if path.len() == 1 {
        decimal(path[0] as nat)
    } else {
        part_text(path.drop_last()).push('.') + decimal(path.last() as nat)
    }
}

pub fn part_name(path: &Vec<u32>) -> (r: String)
    ensures
        r@ == part_text(path@),
{
    let mut name = String::new();
    for i in 0..path.len()
        invariant
            name@ == part_text(path@.take(i as int)),
    {
        if i != 0 {
            name.push('.');
        }
        let number = decimal_text(path[i]);
        let ghost before = path@.take(i as int);
        let ghost now = path@.take(i + 1);
        assert(now.drop_last() =~= before);
        assert(now.last() == path@[i as int]);
        name.push_str(number.as_str());
        assert(name@ =~= part_text(now));
    }
    assert(path@.take(path@.len() as int) =~= path@);
    name
}

/// A part is an attachment exactly where its disposition is the word `attachment`, in upper or lower
/// case.
pub proof fn attachments_say_so(disposition: Option<Disposition>)
    ensures
        disposition is None ==> !is_attachment(disposition),
        disposition matches Some(shown) ==> (is_attachment(disposition) <==> shown.kind@.len()
            == "attachment"@.len() && forall|i: int|
            0 <= i < shown.kind@.len() ==> {
                ||| (#[trigger] shown.kind@[i]) as int == "attachment"@[i] as int
                ||| shown.kind@[i] as int + 32 == "attachment"@[i] as int
            }),
{
    reveal_strlit("attachment");
    let word = attachment_word();
    assert(word.len() == 10);
    assert(forall|i: int| 0 <= i < 10 ==> word[i] as int == "attachment"@[i] as int);
    assert(forall|i: int| 0 <= i < 10 ==> 97 <= #[trigger] word[i] <= 122);
    if let Some(shown) = disposition {
        if equal_ignoring_case(shown.kind@, word) {
            assert forall|i: int| 0 <= i < shown.kind@.len() implies {
                ||| (#[trigger] shown.kind@[i]) as int == "attachment"@[i] as int
                ||| shown.kind@[i] as int + 32 == "attachment"@[i] as int
            } by {
                assert(word[i] as int == "attachment"@[i] as int);
            }
        } else if shown.kind@.len() == 10 && forall|i: int|
            0 <= i < shown.kind@.len() ==> {
                ||| (#[trigger] shown.kind@[i]) as int == "attachment"@[i] as int
                ||| shown.kind@[i] as int + 32 == "attachment"@[i] as int
            } {
            assert forall|i: int| 0 <= i < shown.kind@.len() implies crate::text::lowered(
                #[trigger] shown.kind@[i],
            ) == crate::text::lowered(word[i]) by {
                assert(word[i] as int == "attachment"@[i] as int);
                assert(97 <= word[i] <= 122);
            }
        }
    }
}

/// Every part counts itself and all that it holds, and lies one level above what it holds.
pub proof fn parts_add_up(structure: Structure, i: int)
    ensures
        part_count(structure) >= 1,
        1 <= nesting(structure) <= part_count(structure),
        structure matches Structure::Multi { bodies, .. } ==> {
            &&& bodies@.len() == 0 ==> part_count(structure) == 1 && nesting(structure) == 1
            &&& bodies@.len() == 1 ==> part_count(structure) == 1 + part_count(bodies@[0])
                && nesting(structure) == 1 + nesting(bodies@[0])
            &&& part_count(structure) >= 1 + bodies@.len()
            &&& 0 <= i < bodies@.len() ==> nesting(structure) >= 1 + nesting(bodies@[i])
                && part_count(structure) >= bodies@.len() + part_count(bodies@[i])
        },
        structure matches Structure::Single { body, .. } ==> match body.kind {
            BodyKind::Message { structure: inner } => part_count(structure) == 1 + part_count(*inner)
                && nesting(structure) == 1 + nesting(*inner),
            _ => part_count(structure) == 1 && nesting(structure) == 1,
        },
    decreases structure,
{
    match structure {
        Structure::Single { body, .. } => {
            if let BodyKind::Message { structure: inner } = body.kind {
                parts_add_up(*inner, 0);
            }
        },
        Structure::Multi { bodies, .. } => {
            children_add_up(bodies@, bodies@.len(), i);
            reveal_with_fuel(parts_count, 2);
            reveal_with_fuel(deepest, 2);
        },
    }
}

proof fn children_add_up(bodies: Seq<Structure>, count: nat, i: int)
    requires
        count <= bodies.len(),
    ensures
        parts_count(bodies, count) >= count,
        deepest(bodies, count) <= parts_count(bodies, count),
        0 <= i < count ==> deepest(bodies, count) >= nesting(bodies[i]) && parts_count(bodies, count) >= count
            - 1 + part_count(bodies[i]),
    decreases bodies, count,
{
    if count > 0 {
        children_add_up(bodies, (count - 1) as nat, i);
        parts_add_up(bodies[count - 1], 0);
    }
}

/// A part is named by its numbers from the outermost on, with dots between them.
pub proof fn part_names_list_the_numbers(path: Seq<u32>, number: u32)
    ensures
        part_text(seq![number]) == decimal(number as nat),
        path.len() > 0 ==> part_text(path.push(number)) == part_text(path) + seq!['.'] + decimal(number as nat),
{
    reveal_with_fuel(part_text, 2);
    let longer = path.push(number);
    assert(longer.drop_last() =~= path);
    if path.len() > 0 {
        assert(part_text(longer) =~= part_text(path) + seq!['.'] + decimal(number as nat));
    }
}

} // verus!
