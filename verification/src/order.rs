//! The order of strings, and lists kept in it.
use vstd::prelude::*;

use crate::text::chars_of;

verus! {

/// `a` comes before `b` when the two are compared character by character.
pub open spec fn precedes(a: Seq<char>, b: Seq<char>) -> bool
    decreases a.len(),
{
    if b.len() == 0 {
        false
    } else if a.len() == 0 {
        true
    } else if a[0] == b[0] {
        precedes(a.drop_first(), b.drop_first())
    } else {
        a[0] < b[0]
    }
}

/// Nothing comes before itself.
pub proof fn order_is_irreflexive(a: Seq<char>)
    ensures
        !precedes(a, a),
    decreases a.len(),
{
    if a.len() > 0 {
        order_is_irreflexive(a.drop_first());
    }
}

/// Of two different strings, one comes before the other.
pub proof fn order_is_total(a: Seq<char>, b: Seq<char>)
    ensures
        a == b || precedes(a, b) || precedes(b, a),
        !(precedes(a, b) && precedes(b, a)),
    decreases a.len(),
{
    if a.len() > 0 && b.len() > 0 {
        order_is_total(a.drop_first(), b.drop_first());
        if a[0] == b[0] && a.drop_first() == b.drop_first() {
            assert(a =~= seq![a[0]] + a.drop_first());
            assert(b =~= seq![b[0]] + b.drop_first());
        }
    } else if a.len() == 0 && b.len() == 0 {
        assert(a =~= b);
    }
}

pub proof fn order_is_transitive(a: Seq<char>, b: Seq<char>, c: Seq<char>)
    requires
        precedes(a, b),
        precedes(b, c),
    ensures
        precedes(a, c),
    decreases a.len(),
{
    if a.len() > 0 && a[0] == b[0] && b[0] == c[0] {
        order_is_transitive(a.drop_first(), b.drop_first(), c.drop_first());
    }
}

/// Whether `a` comes before `b`.
pub fn comes_before(a: &str, b: &str) -> (r: bool)
    ensures
        r == precedes(a@, b@),
{
    let left = chars_of(a);
    let right = chars_of(b);
    let mut i: usize = 0;
    assert(a@.skip(0) =~= a@ && b@.skip(0) =~= b@);
    while i < left.len() && i < right.len()
        invariant
            left@ == a@,
            right@ == b@,
            i <= left@.len(),
            i <= right@.len(),
            precedes(a@.skip(i as int), b@.skip(i as int)) == precedes(a@, b@),
        decreases left@.len() - i,
    {
        if left[i] != right[i] {
            return left[i] < right[i];
        }
        assert(a@.skip(i as int).drop_first() =~= a@.skip(i + 1));
        assert(b@.skip(i as int).drop_first() =~= b@.skip(i + 1));
        i = i + 1;
    }
    i < right.len()
}

/// Each string of the list comes before all the later ones.
pub open spec fn is_ascending(list: Seq<String>) -> bool {
    forall|i: int, j: int|
        0 <= i < j < list.len() ==> precedes((#[trigger] list[i])@, (#[trigger] list[j])@)
}

/// Both lists hold the same strings.
pub open spec fn same_members(a: Seq<String>, b: Seq<String>) -> bool {
    forall|wanted: Seq<char>|
        #[trigger] crate::text::listed(a, wanted) == crate::text::listed(b, wanted)
}

/// The strings of the list in order, each once.
pub fn sorted_set(list: &Vec<String>) -> (r: Vec<String>)
    ensures
        is_ascending(r@),
        same_members(r@, list@),
{
    let mut out: Vec<String> = Vec::new();
    let mut i: usize = 0;
    assert forall|wanted: Seq<char>| #[trigger]
        crate::text::listed(out@, wanted) == crate::text::listed(list@.take(0), wanted) by {}
    while i < list.len()
        invariant
            i <= list@.len(),
            is_ascending(out@),
            same_members(out@, list@.take(i as int)),
        decreases list@.len() - i,
    {
        let ghost before = out@;
        let ghost wanted_now = list@[i as int]@;
        let ghost fewer = list@.take(i as int);
        let ghost more = list@.take(i + 1);
        insert_into(&mut out, list[i].as_str());
        assert forall|wanted: Seq<char>| #[trigger]
            crate::text::listed(out@, wanted) == crate::text::listed(more, wanted) by {
            assert(crate::text::listed(before, wanted) == crate::text::listed(fewer, wanted));
            if crate::text::listed(fewer, wanted) {
                let k = choose|k: int| 0 <= k < fewer.len() && (#[trigger] fewer[k])@ == wanted;
                assert(more[k]@ == wanted);
            }
            if wanted == wanted_now {
                assert(more[i as int]@ == wanted);
            }
            if crate::text::listed(more, wanted) {
                let k = choose|k: int| 0 <= k < more.len() && (#[trigger] more[k])@ == wanted;
                if k < i {
                    assert(fewer[k]@ == wanted);
                }
            }
        }
        i = i + 1;
    }
    assert(list@.take(list@.len() as int) =~= list@);
    out
}

fn insert_into(out: &mut Vec<String>, value: &str)
    requires
        is_ascending(old(out)@),
    ensures
        is_ascending(final(out)@),
        forall|wanted: Seq<char>| #[trigger]
            crate::text::listed(final(out)@, wanted) == (crate::text::listed(old(out)@, wanted)
                || wanted == value@),
{
    let mut at: usize = 0;
    while at < out.len() && comes_before(out[at].as_str(), value)
        invariant
            at <= out@.len(),
            out@ == old(out)@,
            forall|k: int| 0 <= k < at ==> precedes((#[trigger] out@[k])@, value@),
        decreases out@.len() - at,
    {
        at = at + 1;
    }
    if at < out.len() && crate::text::same(out[at].as_str(), value) {
        assert(out@[at as int]@ == value@);
        return;
    }
    let ghost before = out@;
    proof {
        if at < before.len() {
            order_is_total(before[at as int]@, value@);
        }
    }
    out.insert(at, value.to_owned());
    let ghost after = out@;
    assert(after =~= before.insert(at as int, after[at as int]));
    assert(after[at as int]@ == value@);
    assert forall|i: int, j: int| 0 <= i < j < after.len() implies precedes(
        (#[trigger] after[i])@,
        (#[trigger] after[j])@,
    ) by {
        if i == at {
            assert(after[j] == before[j - 1]);
            if j - 1 > at {
                assert(precedes(before[at as int]@, before[j - 1]@));
                order_is_transitive(value@, before[at as int]@, before[j - 1]@);
            }
        } else if j == at {
            assert(after[i] == before[i]);
        } else {
            let a = if i < at {
                i
            } else {
                i - 1
            };
            let b = if j < at {
                j
            } else {
                j - 1
            };
            assert(after[i] == before[a] && after[j] == before[b]);
        }
    }
    assert forall|wanted: Seq<char>| #[trigger]
        crate::text::listed(after, wanted) == (crate::text::listed(before, wanted) || wanted
            == value@) by {
        if crate::text::listed(before, wanted) {
            let k = choose|k: int| 0 <= k < before.len() && (#[trigger] before[k])@ == wanted;
            if k < at {
                assert(after[k]@ == wanted);
            } else {
                assert(after[k + 1]@ == wanted);
            }
        }
        if wanted == value@ {
            assert(after[at as int]@ == wanted);
        }
        if crate::text::listed(after, wanted) {
            let k = choose|k: int| 0 <= k < after.len() && (#[trigger] after[k])@ == wanted;
            if k < at {
                assert(before[k]@ == wanted);
            } else if k > at {
                assert(before[k - 1]@ == wanted);
            }
        }
    }
}

/// `slice::sort_unstable` puts numbers in ascending order; each occurs as often as before.
#[verifier::external_body]
pub(crate) fn sort_numbers(values: &mut Vec<u32>)
    ensures
        forall|i: int, j: int|
            0 <= i < j < final(values)@.len() ==> #[trigger] final(values)@[i]
                <= #[trigger] final(values)@[j],
        final(values)@.to_multiset() == old(values)@.to_multiset(),
{
    values.sort_unstable();
}

/// Each number is greater than all the later ones.
pub open spec fn is_descending(values: Seq<u32>) -> bool {
    forall|i: int, j: int| 0 <= i < j < values.len() ==> #[trigger] values[i] > #[trigger] values[j]
}

/// The numbers in descending order, or nothing where one occurs twice.
pub fn descending(values: &Vec<u32>) -> (r: Option<Vec<u32>>)
    ensures
        match r {
            Some(list) => {
                &&& values@.no_duplicates()
                &&& is_descending(list@)
                &&& list@.len() == values@.len()
                &&& forall|value: u32| #[trigger]
                    list@.contains(value) == values@.contains(value)
            },
            None => !values@.no_duplicates(),
        },
{
    broadcast use vstd::seq_lib::group_to_multiset_ensures;

    let mut sorted = values.clone();
    assert(sorted@ =~= values@);
    sort_numbers(&mut sorted);
    let ghost given = values@;
    let ghost all = sorted@;
    proof {
        vstd::seq_lib::to_multiset_len(given);
        vstd::seq_lib::to_multiset_len(all);
        assert forall|value: u32| all.contains(value) == given.contains(value) by {
            vstd::seq_lib::to_multiset_contains(all, value);
            vstd::seq_lib::to_multiset_contains(given, value);
        }
    }
    let mut out: Vec<u32> = Vec::new();
    let mut left: usize = sorted.len();
    while left > 0
        invariant
            sorted@ == all,
            left <= all.len(),
            out@.len() == all.len() - left,
            forall|i: int, j: int|
                0 <= i < j < all.len() ==> #[trigger] all[i] <= #[trigger] all[j],
            all.to_multiset() == given.to_multiset(),
            given == values@,
            forall|k: int| 0 <= k < out@.len() ==> #[trigger] out@[k] == all[all.len() - 1 - k],
            forall|i: int, j: int|
                left <= i < j < all.len() ==> #[trigger] all[i] < #[trigger] all[j],
        decreases left,
    {
        let value: u32 = sorted[left - 1];
        if left < sorted.len() && sorted[left] == value {
            proof {
                if given.no_duplicates() {
                    given.lemma_multiset_has_no_duplicates();
                    all.lemma_multiset_has_no_duplicates_conv();
                    assert(all[left - 1] != all[left as int]);
                }
            }
            return None;
        }
        proof {
            assert forall|i: int, j: int| left - 1 <= i < j < all.len() implies #[trigger] all[i]
                < #[trigger] all[j] by {
                if i == left - 1 {
                    assert(all[left - 1] <= all[left as int]);
                    if j > left {
                        assert(all[left as int] < all[j]);
                    }
                }
            }
        }
        out.push(value);
        left = left - 1;
    }
    proof {
        assert(all.no_duplicates());
        all.lemma_multiset_has_no_duplicates();
        given.lemma_multiset_has_no_duplicates_conv();
        assert forall|value: u32| #[trigger] out@.contains(value) == given.contains(value) by {
            vstd::seq_lib::to_multiset_contains(all, value);
            vstd::seq_lib::to_multiset_contains(given, value);
            if all.contains(value) {
                let i = choose|i: int| 0 <= i < all.len() && all[i] == value;
                assert(out@[all.len() - 1 - i] == value);
            }
            if out@.contains(value) {
                let k = choose|k: int| 0 <= k < out@.len() && out@[k] == value;
                assert(all[all.len() - 1 - k] == value);
            }
        }
    }
    Some(out)
}

/// A list in order is fixed by its members.
pub proof fn ascending_lists_are_unique(a: Seq<String>, b: Seq<String>)
    requires
        is_ascending(a),
        is_ascending(b),
        same_members(a, b),
    ensures
        a.len() == b.len(),
        forall|i: int| 0 <= i < a.len() ==> (#[trigger] a[i])@ == b[i]@,
    decreases a.len() + b.len(),
{
    if a.len() == 0 {
        if b.len() > 0 {
            assert(crate::text::listed(b, b[0]@));
            assert(crate::text::listed(a, b[0]@));
        }
    } else if b.len() == 0 {
        assert(crate::text::listed(a, a[0]@));
        assert(crate::text::listed(b, a[0]@));
    } else {
        let x = a.last()@;
        let y = b.last()@;
        assert(crate::text::listed(a, x));
        assert(crate::text::listed(b, x));
        assert(crate::text::listed(b, y));
        assert(crate::text::listed(a, y));
        let i = choose|i: int| 0 <= i < b.len() && (#[trigger] b[i])@ == x;
        let j = choose|j: int| 0 <= j < a.len() && (#[trigger] a[j])@ == y;
        order_is_total(x, y);
        if i < b.len() - 1 {
            assert(precedes(b[i]@, b[b.len() - 1]@));
            if j < a.len() - 1 {
                assert(precedes(a[j]@, a[a.len() - 1]@));
            }
            assert(j == a.len() - 1);
            order_is_irreflexive(x);
        }
        assert(x == y);
        let c = a.drop_last();
        let d = b.drop_last();
        assert forall|wanted: Seq<char>| #[trigger]
            crate::text::listed(c, wanted) == crate::text::listed(d, wanted) by {
            assert(crate::text::listed(a, wanted) == crate::text::listed(b, wanted));
            without_last(a, wanted);
            without_last(b, wanted);
        }
        ascending_lists_are_unique(c, d);
        assert forall|k: int| 0 <= k < a.len() implies (#[trigger] a[k])@ == b[k]@ by {
            if k < c.len() {
                assert(c[k]@ == d[k]@);
            }
        }
    }
}

proof fn without_last(list: Seq<String>, wanted: Seq<char>)
    requires
        is_ascending(list),
        list.len() > 0,
    ensures
        crate::text::listed(list.drop_last(), wanted) == (crate::text::listed(list, wanted)
            && wanted != list.last()@),
{
    let rest = list.drop_last();
    if crate::text::listed(rest, wanted) {
        let k = choose|k: int| 0 <= k < rest.len() && (#[trigger] rest[k])@ == wanted;
        assert(list[k]@ == wanted);
        assert(precedes(list[k]@, list[list.len() - 1]@));
        order_is_irreflexive(wanted);
    }
    if crate::text::listed(list, wanted) && wanted != list.last()@ {
        let k = choose|k: int| 0 <= k < list.len() && (#[trigger] list[k])@ == wanted;
        assert(rest[k]@ == wanted);
    }
}

/// Whether both lists in order hold the same strings.
pub fn same_list(a: &Vec<String>, b: &Vec<String>) -> (r: bool)
    requires
        is_ascending(a@),
        is_ascending(b@),
    ensures
        r == same_members(a@, b@),
{
    if a.len() != b.len() {
        proof {
            if same_members(a@, b@) {
                ascending_lists_are_unique(a@, b@);
            }
        }
        return false;
    }
    for i in 0..a.len()
        invariant
            is_ascending(a@),
            is_ascending(b@),
            a@.len() == b@.len(),
            forall|j: int| 0 <= j < i ==> (#[trigger] a@[j])@ == b@[j]@,
    {
        if !crate::text::same(a[i].as_str(), b[i].as_str()) {
            proof {
                if same_members(a@, b@) {
                    ascending_lists_are_unique(a@, b@);
                    assert(a@[i as int]@ == b@[i as int]@);
                }
            }
            return false;
        }
    }
    assert forall|wanted: Seq<char>| #[trigger]
        crate::text::listed(a@, wanted) == crate::text::listed(b@, wanted) by {
        if crate::text::listed(a@, wanted) {
            let k = choose|k: int| 0 <= k < a@.len() && (#[trigger] a@[k])@ == wanted;
            assert(b@[k]@ == wanted);
        }
        if crate::text::listed(b@, wanted) {
            let k = choose|k: int| 0 <= k < b@.len() && (#[trigger] b@[k])@ == wanted;
            assert(a@[k]@ == wanted);
        }
    }
    true
}

/// The order is that of a dictionary: the first character that differs decides, by its number, and a text
/// comes before what goes on behind it.
pub proof fn the_first_difference_decides(common: Seq<char>, a: char, rest_a: Seq<char>, b: char, rest_b: Seq<char>)
    ensures
        a != b ==> precedes(common + seq![a] + rest_a, common + seq![b] + rest_b) == ((a as int) < b as int),
        precedes(common, common + seq![a] + rest_a),
        !precedes(common + seq![a] + rest_a, common),
    decreases common.len(),
{
    let x = common + seq![a] + rest_a;
    let y = common + seq![b] + rest_b;
    if common.len() == 0 {
        assert(x[0] == a && y[0] == b);
    } else {
        let rest = common.drop_first();
        the_first_difference_decides(rest, a, rest_a, b, rest_b);
        assert(x.drop_first() =~= rest + seq![a] + rest_a);
        assert(y.drop_first() =~= rest + seq![b] + rest_b);
        assert(x[0] == common[0] && y[0] == common[0]);
    }
}

} // verus!
