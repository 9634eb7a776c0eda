//! Small helpers over `Seq`: first-match indices and `filter` steps, used by
//! the account store and the scheduler.

use vstd::prelude::*;

verus! {

/// Index of the first element of `s` satisfying `pred`, or -1 when none does.
pub open spec fn spec_first_match<A>(s: Seq<A>, pred: spec_fn(A) -> bool) -> int
    decreases s.len(),
{
    if s.len() == 0 {
        -1
    } else if pred(s[0]) {
        0
    } else {
        let r = spec_first_match(s.drop_first(), pred);
        if r < 0 {
            -1
        } else {
            1 + r
        }
    }
}

/// A non-negative first-match index lies in range, satisfies the predicate,
/// and nothing before it does; a negative one means nothing satisfies it.
pub proof fn lemma_first_match_properties<A>(s: Seq<A>, pred: spec_fn(A) -> bool)
    ensures
        spec_first_match(s, pred) >= 0 ==> 0 <= spec_first_match(s, pred) < s.len() && pred(
            s[spec_first_match(s, pred)],
        ) && (forall|k: int| 0 <= k < spec_first_match(s, pred) ==> !pred(s[k])),
        spec_first_match(s, pred) < 0 ==> forall|k: int| 0 <= k < s.len() ==> !pred(s[k]),
    decreases s.len(),
{
    if s.len() > 0 && !pred(s[0]) {
        lemma_first_match_properties(s.drop_first(), pred);
        assert(forall|k: int| 1 <= k < s.len() ==> s[k] == s.drop_first()[k - 1]);
    }
}

/// A position that satisfies the predicate, with nothing before it doing so,
/// is the first match.
pub proof fn lemma_first_match_at<A>(s: Seq<A>, pred: spec_fn(A) -> bool, i: int)
    requires
        0 <= i < s.len(),
        pred(s[i]),
        forall|k: int| 0 <= k < i ==> !pred(s[k]),
    ensures
        spec_first_match(s, pred) == i,
    decreases s.len(),
{
    if i > 0 {
        assert(!pred(s[0]));
        assert(pred(s.drop_first()[i - 1]));
        assert(forall|k: int| 0 <= k < i - 1 ==> s.drop_first()[k] == s[k + 1]);
        lemma_first_match_at(s.drop_first(), pred, i - 1);
    }
}

/// When nothing satisfies the predicate, there is no first match.
pub proof fn lemma_first_match_none<A>(s: Seq<A>, pred: spec_fn(A) -> bool)
    requires
        forall|k: int| 0 <= k < s.len() ==> !pred(s[k]),
    ensures
        spec_first_match(s, pred) == -1,
{
    lemma_first_match_properties(s, pred);
    if spec_first_match(s, pred) >= 0 {
        assert(pred(s[spec_first_match(s, pred)]));
    }
}

/// Filtering after a `push` appends the element exactly when it passes.
pub proof fn lemma_filter_push<A>(s: Seq<A>, pred: spec_fn(A) -> bool, x: A)
    ensures
        s.push(x).filter(pred) == if pred(x) {
            s.filter(pred).push(x)
        } else {
            s.filter(pred)
        },
{
    reveal(Seq::filter);
    assert(s.push(x).drop_last() =~= s);
    assert(s.push(x).last() == x);
}

/// Filtering a sequence none of whose elements pass gives the empty sequence.
pub proof fn lemma_filter_none<A>(s: Seq<A>, pred: spec_fn(A) -> bool)
    requires
        forall|k: int| 0 <= k < s.len() ==> !pred(s[k]),
    ensures
        s.filter(pred) =~= Seq::<A>::empty(),
    decreases s.len(),
{
    reveal(Seq::filter);
    if s.len() > 0 {
        assert(forall|k: int| 0 <= k < s.drop_last().len() ==> s.drop_last()[k] == s[k]);
        lemma_filter_none(s.drop_last(), pred);
    }
}

} // verus!
