//! Paths as the steps that they take, whatever their spelling.
use vstd::prelude::*;

use crate::policy::name_views;
use crate::text::{chars_of, same, string_of};

verus! {

/// The pieces of a path between its slashes.
pub open spec fn pieces(path: Seq<char>) -> Seq<Seq<char>>
    decreases path.len(),
{
    if path.len() == 0 {
        seq![Seq::empty()]
    } else {
        let before = pieces(path.drop_last());
        if path.last() == '/' {
            before.push(Seq::empty())
        } else {
            before.drop_last().push(before.last().push(path.last()))
        }
    }
}

/// A piece that names something: neither empty nor the directory itself.
pub open spec fn is_component(piece: Seq<char>) -> bool {
    piece.len() > 0 && piece != "."@
}

/// The names along a path.
pub open spec fn components(path: Seq<char>) -> Seq<Seq<char>> {
    pieces(path).filter(|piece: Seq<char>| is_component(piece))
}

/// The steps of a path: the root of an absolute one, a leading `.` of a relative one, and then the names.
/// Repeated slashes, a slash at the end and any other `.` are no steps.
pub open spec fn steps(path: Seq<char>) -> Seq<Seq<char>> {
    (if path.len() > 0 && path[0] == '/' {
        seq!["/"@]
    } else if path.len() > 0 && path[0] == '.' && (path.len() == 1 || path[1] == '/') {
        seq!["."@]
    } else {
        Seq::empty()
    }) + components(path)
}

fn push_component(names: &mut Vec<String>, piece: String, Ghost(done): Ghost<Seq<Seq<char>>>)
    requires
        name_views(old(names)@) == done.filter(|piece: Seq<char>| is_component(piece)),
    ensures
        name_views(final(names)@) == done.push(piece@).filter(
            |piece: Seq<char>| is_component(piece),
        ),
{
    proof {
        reveal(Seq::filter);
        assert(done.push(piece@).drop_last() =~= done);
        assert(piece@.len() > 0 || !is_component(piece@));
    }
    let chars = chars_of(piece.as_str());
    if chars.len() > 0 && !same(piece.as_str(), ".") {
        let ghost before = name_views(names@);
        names.push(piece);
        assert(name_views(names@) =~= before.push(piece@));
    }
}

/// The names along a path.
pub fn components_of(path: &str) -> (r: Vec<String>)
    ensures
        name_views(r@) == components(path@),
{
    let chars = chars_of(path);
    let mut names: Vec<String> = Vec::new();
    let ghost mut done: Seq<Seq<char>> = Seq::empty();
    let mut begun: usize = 0;
    proof {
        reveal(Seq::filter);
        assert(name_views(names@) =~= done.filter(|piece: Seq<char>| is_component(piece)));
        assert(chars@.take(0) =~= Seq::<char>::empty());
        assert(chars@.subrange(0, 0) =~= Seq::<char>::empty());
        assert(pieces(chars@.take(0)) =~= done.push(chars@.subrange(0, 0)));
    }
    for i in 0..chars.len()
        invariant
            chars@ == path@,
            begun <= i,
            pieces(chars@.take(i as int)) == done.push(chars@.subrange(begun as int, i as int)),
            name_views(names@) == done.filter(|piece: Seq<char>| is_component(piece)),
    {
        let ghost before = pieces(chars@.take(i as int));
        let ghost piece = chars@.subrange(begun as int, i as int);
        proof {
            assert(chars@.take(i + 1).drop_last() =~= chars@.take(i as int));
            assert(chars@.take(i + 1).last() == chars@[i as int]);
            assert(before.drop_last() =~= done);
            assert(before.last() == piece);
        }
        if chars[i] == '/' {
            let text = string_of(&chars, begun, i);
            push_component(&mut names, text, Ghost(done));
            proof {
                done = done.push(piece);
                assert(chars@.subrange(i + 1, i + 1) =~= Seq::<char>::empty());
            }
            begun = i + 1;
        } else {
            assert(piece.push(chars@[i as int]) =~= chars@.subrange(begun as int, i + 1));
        }
    }
    let text = string_of(&chars, begun, chars.len());
    push_component(&mut names, text, Ghost(done));
    assert(chars@.take(chars@.len() as int) =~= chars@);
    names
}

fn steps_of(path: &str) -> (r: Vec<String>)
    ensures
        name_views(r@) == steps(path@),
{
    let chars = chars_of(path);
    let mut all: Vec<String> = Vec::new();
    if chars.len() > 0 && chars[0] == '/' {
        all.push("/".to_owned());
    } else if chars.len() > 0 && chars[0] == '.' && (chars.len() == 1 || chars[1] == '/') {
        all.push(".".to_owned());
    }
    let ghost first = name_views(all@);
    let mut names = components_of(path);
    let ghost rest = name_views(names@);
    all.append(&mut names);
    assert(name_views(all@) =~= first + rest);
    assert(name_views(all@) =~= steps(path@));
    all
}

/// Whether the first steps of one list are those of the other.
fn leads(prefix: &Vec<String>, all: &Vec<String>) -> (r: bool)
    ensures
        r == name_views(prefix@).is_prefix_of(name_views(all@)),
{
    let ghost (a, b) = (name_views(prefix@), name_views(all@));
    if prefix.len() > all.len() {
        return false;
    }
    for i in 0..prefix.len()
        invariant
            a == name_views(prefix@),
            b == name_views(all@),
            prefix@.len() <= all@.len(),
            forall|j: int| 0 <= j < i ==> a[j] == b[j],
    {
        if !same(prefix[i].as_str(), all[i].as_str()) {
            assert(a[i as int] != b[i as int]);
            assert(b.subrange(0, a.len() as int)[i as int] == b[i as int]);
            return false;
        }
    }
    assert(a =~= b.subrange(0, a.len() as int));
    true
}

/// Whether both paths take the same steps.
pub fn same_path(a: &str, b: &str) -> (r: bool)
    ensures
        r == (steps(a@) == steps(b@)),
{
    let (one, other) = (steps_of(a), steps_of(b));
    if one.len() != other.len() {
        assert(name_views(one@).len() != name_views(other@).len());
        return false;
    }
    let r = leads(&one, &other);
    assert(r == (steps(a@) =~= steps(b@)));
    r
}

/// Whether a path takes all the steps of a directory first: it is the directory or lies below it.
pub fn begins_with(path: &str, directory: &str) -> (r: bool)
    ensures
        r == steps(directory@).is_prefix_of(steps(path@)),
{
    leads(&steps_of(directory), &steps_of(path))
}

/// A path takes the same steps when a slash is put behind it.
pub proof fn a_slash_at_the_end_is_no_step(path: Seq<char>)
    requires
        path.len() > 0,
    ensures
        steps(path.push('/')) == steps(path),
{
    reveal(Seq::filter);
    let longer = path.push('/');
    assert(longer.drop_last() =~= path);
    assert(pieces(longer).drop_last() =~= pieces(path));
    assert(components(longer) =~= components(path));
}

/// A slash parts a path into steps: the steps of two paths with a slash between them are those of the one
/// and then those of the other.
pub proof fn slashes_part_the_steps(before: Seq<char>, after: Seq<char>)
    ensures
        pieces(before + seq!['/'] + after) == pieces(before) + pieces(after),
        components(before + seq!['/'] + after) == components(before) + components(after),
{
    pieces_are_parted(before, after);
    Seq::filter_distributes_over_add(pieces(before), pieces(after), |piece: Seq<char>| is_component(piece));
}

proof fn some_piece_remains(path: Seq<char>)
    ensures
        pieces(path).len() > 0,
    decreases path.len(),
{
    if path.len() > 0 {
        some_piece_remains(path.drop_last());
    }
}

proof fn pieces_are_parted(before: Seq<char>, after: Seq<char>)
    ensures
        pieces(before + seq!['/'] + after) == pieces(before) + pieces(after),
    decreases after.len(),
{
    let whole = before + seq!['/'] + after;
    some_piece_remains(before);
    some_piece_remains(after);
    if after.len() == 0 {
        assert(whole.drop_last() =~= before);
        assert(whole.last() == '/');
        assert(pieces(after) =~= seq![Seq::<char>::empty()]);
        assert(pieces(whole) =~= pieces(before) + pieces(after));
    } else {
        let shorter = after.drop_last();
        pieces_are_parted(before, shorter);
        some_piece_remains(shorter);
        assert(whole.drop_last() =~= before + seq!['/'] + shorter);
        assert(whole.last() == after.last());
        let (a, b) = (pieces(before), pieces(shorter));
        assert((a + b).drop_last() =~= a + b.drop_last());
        assert((a + b).last() == b.last());
        assert(pieces(whole) =~= pieces(before) + pieces(after));
    }
}

/// A text without a slash is one step, unless it is empty or a single dot.
pub proof fn names_are_single_steps(name: Seq<char>)
    requires
        forall|i: int| 0 <= i < name.len() ==> #[trigger] name[i] != '/',
    ensures
        pieces(name) == seq![name],
        name.len() > 0 && name != "."@ ==> components(name) == seq![name],
        name.len() == 0 || name == "."@ ==> components(name).len() == 0,
{
    names_are_single_pieces(name);
    reveal(Seq::filter);
    assert(seq![name].drop_last() =~= Seq::<Seq<char>>::empty());
    let keep = |piece: Seq<char>| is_component(piece);
    assert(Seq::<Seq<char>>::empty().filter(keep).len() == 0);
    if name.len() > 0 && name != "."@ {
        assert(components(name) =~= seq![name]);
    }
}

proof fn names_are_single_pieces(name: Seq<char>)
    requires
        forall|i: int| 0 <= i < name.len() ==> #[trigger] name[i] != '/',
    ensures
        pieces(name) == seq![name],
    decreases name.len(),
{
    if name.len() > 0 {
        let shorter = name.drop_last();
        assert forall|i: int| 0 <= i < shorter.len() implies #[trigger] shorter[i] != '/' by {
            assert(shorter[i] == name[i]);
        }
        names_are_single_pieces(shorter);
        assert(name[name.len() - 1] != '/');
        assert(shorter.push(name.last()) =~= name);
        assert(pieces(name) =~= seq![name]);
    } else {
        assert(name =~= Seq::<char>::empty());
    }
}

/// A path that begins with a slash begins at the root, and one that does not never equals it.
pub proof fn absolute_paths_begin_at_the_root(path: Seq<char>, other: Seq<char>)
    ensures
        path.len() > 0 && path[0] == '/' ==> steps(path).len() > 0 && steps(path)[0] == seq!['/'] && steps(path).skip(1)
            == components(path),
        path.len() > 0 && path[0] != '/' && path[0] != '.' ==> steps(path) == components(path),
        path.len() > 0 && path[0] == '/' && other.len() > 0 && other[0] == '/' ==> (steps(path) == steps(other)
            <==> components(path) == components(other)),
{
    reveal_strlit("/");
    assert("/"@ =~= seq!['/']);
    if path.len() > 0 && path[0] == '/' {
        assert(steps(path).skip(1) =~= components(path));
        if other.len() > 0 && other[0] == '/' {
            assert(steps(other).skip(1) =~= components(other));
        }
    }
    if path.len() > 0 && path[0] != '/' && path[0] != '.' {
        assert(steps(path) =~= components(path));
    }
}

} // verus!
