//! The order in which names are sorted: by their characters, first to last,
//! each by its code point.

use vstd::prelude::*;
use vstd::string::StrSliceExecFns;

verus! {

/// `left` comes strictly before `right`: at the first place where they
/// differ `left` has the smaller code point, or `left` ends there and `right`
/// goes on.
pub open spec fn precedes(left: Seq<char>, right: Seq<char>) -> bool
    decreases left.len(),
{
    if right.len() == 0 {
        false
    } else if left.len() == 0 {
        true
    } else if left[0] != right[0] {
        (left[0] as u32) < (right[0] as u32)
    } else {
        precedes(left.skip(1), right.skip(1))
    }
}

/// No name of the sequence comes strictly before an earlier one.
pub open spec fn ascending(names: Seq<String>) -> bool {
    forall|i: int, j: int|
        0 <= i < j < names.len() ==> !precedes((#[trigger] names[j])@, (#[trigger] names[i])@)
}

/// No name comes before itself.
pub proof fn lemma_precedes_irreflexive(name: Seq<char>)
    ensures
        !precedes(name, name),
    decreases name.len(),
{
    if name.len() > 0 {
        lemma_precedes_irreflexive(name.skip(1));
    }
}

/// What comes before a name comes before everything that the name comes
/// before.
pub proof fn lemma_precedes_transitive(first: Seq<char>, second: Seq<char>, third: Seq<char>)
    requires
        precedes(first, second),
        precedes(second, third),
    ensures
        precedes(first, third),
    decreases first.len(),
{
    if first.len() > 0 && first[0] == second[0] && second[0] == third[0] {
        lemma_precedes_transitive(first.skip(1), second.skip(1), third.skip(1));
    }
}

/// Where two names agree up to a place, one comes before the other exactly
/// if what is left of it from that place comes before what is left of the
/// other.
proof fn lemma_precedes_from(left: Seq<char>, right: Seq<char>, place: int)
    requires
        0 <= place <= left.len(),
        place <= right.len(),
        forall|j: int| 0 <= j < place ==> left[j] == right[j],
    ensures
        precedes(left, right) == precedes(left.skip(place), right.skip(place)),
    decreases place,
{
    if place > 0 {
        assert(left[0] == right[0]);
        assert forall|j: int| 0 <= j < place - 1 implies left.skip(1)[j] == right.skip(1)[j] by {
            assert(left.skip(1)[j] == left[j + 1]);
            assert(right.skip(1)[j] == right[j + 1]);
        }
        lemma_precedes_from(left.skip(1), right.skip(1), place - 1);
        assert(left.skip(1).skip(place - 1) == left.skip(place));
        assert(right.skip(1).skip(place - 1) == right.skip(place));
    } else {
        assert(left.skip(0) == left);
        assert(right.skip(0) == right);
    }
}

/// Whether `left` comes strictly before `right`.
pub fn name_precedes(left: &String, right: &String) -> (r: bool)
    ensures
        r == precedes(left@, right@),
{
    let first = left.as_str();
    let second = right.as_str();
    let first_len = first.unicode_len();
    let second_len = second.unicode_len();
    let mut i: usize = 0;
    while i < first_len && i < second_len
        invariant
            first@ == left@,
            second@ == right@,
            first_len == first@.len(),
            second_len == second@.len(),
            i <= first_len,
            i <= second_len,
            forall|j: int| 0 <= j < i ==> first@[j] == second@[j],
        decreases first_len - i,
    {
        let a = first.get_char(i);
        let b = second.get_char(i);
        if a != b {
            proof {
                lemma_precedes_from(first@, second@, i as int);
                assert(first@.skip(i as int)[0] == a);
                assert(second@.skip(i as int)[0] == b);
            }
            return (a as u32) < (b as u32);
        }
        i += 1;
    }
    proof {
        lemma_precedes_from(first@, second@, i as int);
    }
    first_len < second_len
}

} // verus!
