//! The first element of a sequence with some property.

use vstd::prelude::*;

verus! {

/// The first element that has the property, if there is one.
pub open spec fn first_where<T>(s: Seq<T>, p: spec_fn(T) -> bool) -> Option<T>
    decreases s.len(),
{
    if s.len() == 0 {
        None
    } else if p(s[0]) {
        Some(s[0])
    } else {
        first_where(s.drop_first(), p)
    }
}

/// An element with the property before which none has it is the first.
pub proof fn lemma_first_where<T>(s: Seq<T>, p: spec_fn(T) -> bool, i: int)
    requires
        0 <= i < s.len(),
        p(s[i]),
        forall|j: int| 0 <= j < i ==> !p(#[trigger] s[j]),
    ensures
        first_where(s, p) == Some(s[i]),
    decreases i,
{
    if i > 0 {
        assert(!p(s[0]));
        let t = s.drop_first();
        assert forall|j: int| 0 <= j < i - 1 implies !p(#[trigger] t[j]) by {
            assert(t[j] == s[j + 1]);
        }
        lemma_first_where(t, p, i - 1);
    }
}

/// Where no element has the property, none is the first.
pub proof fn lemma_none_where<T>(s: Seq<T>, p: spec_fn(T) -> bool)
    requires
        forall|j: int| 0 <= j < s.len() ==> !p(#[trigger] s[j]),
    ensures
        first_where(s, p) is None,
    decreases s.len(),
{
    if s.len() > 0 {
        assert(!p(s[0]));
        let t = s.drop_first();
        assert forall|j: int| 0 <= j < t.len() implies !p(#[trigger] t[j]) by {
            assert(t[j] == s[j + 1]);
        }
        lemma_none_where(t, p);
    }
}

} // verus!
