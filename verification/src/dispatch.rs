use vstd::prelude::*;

use crate::identity::TypeIdentity;
use crate::identity::equals;

verus! {

/// Holds when no candidate in `cands` equals `subject`.
pub open spec fn no_match(cands: Seq<TypeIdentity>, subject: TypeIdentity) -> bool {
    forall|i: int| 0 <= i < cands.len() ==> cands[i] != subject
}

/// Holds when position `i` carries the first candidate equal to `subject`.
pub open spec fn is_first_match(cands: Seq<TypeIdentity>, subject: TypeIdentity, i: int) -> bool {
    &&& 0 <= i < cands.len()
    &&& cands[i] == subject
    &&& forall|j: int| 0 <= j < i ==> cands[j] != subject
}

/// A pattern that tests a subject identity against one captured candidate
/// identity.
pub trait TypePattern {
    /// The candidate identity this pattern captured at construction.
    spec fn candidate(&self) -> TypeIdentity;

    /// Returns whether `subject` is exactly the captured candidate.
    fn matches(&self, subject: TypeIdentity) -> (r: bool)
        ensures
            r == (subject == self.candidate()),
    ;
}

/// The pattern used by the reusable-list form: it stores the candidate
/// identity it was built for and matches a subject by token equality.
pub struct TypeMatcher {
    /// The captured candidate identity.
    pub identity: TypeIdentity,
}

impl TypeMatcher {
    /// Builds a matcher capturing `candidate`.
    pub fn new(candidate: TypeIdentity) -> (m: TypeMatcher)
        ensures
            m.identity == candidate,
    {
        TypeMatcher { identity: candidate }
    }
}

impl TypePattern for TypeMatcher {
    open spec fn candidate(&self) -> TypeIdentity {
        self.identity
    }

    fn matches(&self, subject: TypeIdentity) -> (r: bool) {
        equals(subject, self.identity)
    }
}

/// The candidate identity captured by each entry of a pattern list.
pub open spec fn candidates_of<P: TypePattern, F>(entries: Seq<(P, F)>) -> Seq<TypeIdentity> {
    entries.map_values(|e: (P, F)| e.0.candidate())
}

/// What a dispatch over `entries` returns for `value` of identity `subject`:
/// `None` exactly when no candidate matches, else a result of the handler
/// standing at the first matching position.
pub open spec fn dispatch_result<'a, T, R, P: TypePattern, F: Fn(&'a T) -> R>(
    entries: Seq<(P, F)>,
    subject: TypeIdentity,
    value: &'a T,
    r: Option<R>,
) -> bool {
    match r {
        Option::None => no_match(candidates_of(entries), subject),
        Option::Some(res) => exists|i: int|
            {
                &&& #[trigger] is_first_match(candidates_of(entries), subject, i)
                &&& call_ensures(entries[i].1, (value,), res)
            },
    }
}

/// Dispatches `value` against an ordered pattern list.
///
/// The subject identity is tested against each pattern in order; the first
/// matching entry's handler is invoked on `value` and its result returned,
/// without looking at later entries. If no pattern matches, the dispatch
/// returns `None`.
pub fn match_type<'a, T, R, P: TypePattern, F: Fn(&'a T) -> R>(
    value: &'a T,
    subject: TypeIdentity,
    patterns: &Vec<(P, F)>,
) -> (r: Option<R>)
    requires
        forall|i: int|
            0 <= i < patterns@.len() ==> call_requires(#[trigger] patterns@[i].1, (value,)),
    ensures
        dispatch_result(patterns@, subject, value, r),
        (r is Some) <==> !no_match(candidates_of(patterns@), subject),
{
    let n = patterns.len();
    let mut k: usize = 0;
    while k < n
        invariant
            n == patterns@.len(),
            k <= n,
            forall|i: int|
                0 <= i < patterns@.len() ==> call_requires(#[trigger] patterns@[i].1, (value,)),
            forall|j: int| 0 <= j < k ==> candidates_of(patterns@)[j] != subject,
        decreases n - k,
    {
        let entry = &patterns[k];
        if entry.0.matches(subject) {
            let res = (entry.1)(value);
            proof {
                assert(is_first_match(candidates_of(patterns@), subject, k as int));
            }
            return Some(res);
        }
        proof {
            assert(candidates_of(patterns@)[k as int] != subject);
        }
        k = k + 1;
    }
    None
}

/// Wherever some candidate equals the subject, a first matching position
/// exists.
pub proof fn lemma_first_match_exists(cands: Seq<TypeIdentity>, subject: TypeIdentity)
    requires
        !no_match(cands, subject),
    ensures
        exists|i: int| is_first_match(cands, subject, i),
{
    let j = choose|j: int| 0 <= j < cands.len() && cands[j] == subject;
    lemma_first_match_at_or_before(cands, subject, j);
}

/// Below any matching position a first matching position exists.
proof fn lemma_first_match_at_or_before(cands: Seq<TypeIdentity>, subject: TypeIdentity, j: int)
    requires
        0 <= j < cands.len(),
        cands[j] == subject,
    ensures
        exists|i: int| is_first_match(cands, subject, i),
    decreases j,
{
    if forall|k: int| 0 <= k < j ==> cands[k] != subject {
        assert(is_first_match(cands, subject, j));
    } else {
        let k = choose|k: int| 0 <= k < j && cands[k] == subject;
        lemma_first_match_at_or_before(cands, subject, k);
    }
}

/// A dispatch finds a result exactly when some candidate in the list
/// equals the subject identity.
pub proof fn lemma_match_found<'a, T, R, P: TypePattern, F: Fn(&'a T) -> R>(
    entries: Seq<(P, F)>,
    subject: TypeIdentity,
    value: &'a T,
    r: Option<R>,
)
    requires
        dispatch_result(entries, subject, value, r),
    ensures
        (r is Some) <==> !no_match(candidates_of(entries), subject),
{
    let cands = candidates_of(entries);
    match r {
        Option::None => {},
        Option::Some(res) => {
            let i = choose|i: int|
                {
                    &&& #[trigger] is_first_match(cands, subject, i)
                    &&& call_ensures(entries[i].1, (value,), res)
                };
            assert(cands[i] == subject);
        },
    }
}

/// At most one position can hold the first matching candidate.
pub proof fn lemma_first_match_unique(
    cands: Seq<TypeIdentity>,
    subject: TypeIdentity,
    i: int,
    j: int,
)
    requires
        is_first_match(cands, subject, i),
        is_first_match(cands, subject, j),
    ensures
        i == j,
{
    if i < j {
        assert(cands[i] != subject);
    } else if j < i {
        assert(cands[j] != subject);
    }
}

/// Determinism: over one pattern list, subject and value, any two dispatch
/// results are equal, provided each handler in the list is itself
/// deterministic on the value.
pub proof fn lemma_dispatch_deterministic<'a, T, R, P: TypePattern, F: Fn(&'a T) -> R>(
    entries: Seq<(P, F)>,
    subject: TypeIdentity,
    value: &'a T,
    r1: Option<R>,
    r2: Option<R>,
)
    requires
        dispatch_result(entries, subject, value, r1),
        dispatch_result(entries, subject, value, r2),
        forall|i: int, y1: R, y2: R|
            0 <= i < entries.len() && #[trigger] call_ensures(entries[i].1, (value,), y1)
                && #[trigger] call_ensures(entries[i].1, (value,), y2) ==> y1 == y2,
    ensures
        r1 == r2,
{
    let cands = candidates_of(entries);
    match (r1, r2) {
        (Option::None, Option::None) => {},
        (Option::None, Option::Some(res2)) => {
            let i = choose|i: int|
                {
                    &&& #[trigger] is_first_match(cands, subject, i)
                    &&& call_ensures(entries[i].1, (value,), res2)
                };
            assert(cands[i] != subject);
        },
        (Option::Some(res1), Option::None) => {
            let i = choose|i: int|
                {
                    &&& #[trigger] is_first_match(cands, subject, i)
                    &&& call_ensures(entries[i].1, (value,), res1)
                };
            assert(cands[i] != subject);
        },
        (Option::Some(res1), Option::Some(res2)) => {
            let i1 = choose|i: int|
                {
                    &&& #[trigger] is_first_match(cands, subject, i)
                    &&& call_ensures(entries[i].1, (value,), res1)
                };
            let i2 = choose|i: int|
                {
                    &&& #[trigger] is_first_match(cands, subject, i)
                    &&& call_ensures(entries[i].1, (value,), res2)
                };
            lemma_first_match_unique(cands, subject, i1, i2);
        },
    }
}

/// First-match priority: when position `i` holds the first matching
/// candidate, the dispatch returns a result of that entry's handler —
/// never of a later duplicate.
pub proof fn lemma_first_match_priority<'a, T, R, P: TypePattern, F: Fn(&'a T) -> R>(
    entries: Seq<(P, F)>,
    subject: TypeIdentity,
    value: &'a T,
    r: Option<R>,
    i: int,
)
    requires
        dispatch_result(entries, subject, value, r),
        is_first_match(candidates_of(entries), subject, i),
    ensures
        r is Some,
        call_ensures(entries[i].1, (value,), r->0),
{
    let cands = candidates_of(entries);
    match r {
        Option::None => {
            assert(cands[i] != subject);
        },
        Option::Some(res) => {
            let k = choose|k: int|
                {
                    &&& #[trigger] is_first_match(cands, subject, k)
                    &&& call_ensures(entries[k].1, (value,), res)
                };
            lemma_first_match_unique(cands, subject, i, k);
        },
    }
}

/// No-match correctness: when no candidate in the list equals the subject
/// identity — in particular when the list is empty — the dispatch returns
/// `None`.
pub proof fn lemma_no_match_none<'a, T, R, P: TypePattern, F: Fn(&'a T) -> R>(
    entries: Seq<(P, F)>,
    subject: TypeIdentity,
    value: &'a T,
    r: Option<R>,
)
    requires
        dispatch_result(entries, subject, value, r),
        no_match(candidates_of(entries), subject),
    ensures
        r is None,
{
    let cands = candidates_of(entries);
    if r is Some {
        let i = choose|i: int|
            {
                &&& #[trigger] is_first_match(cands, subject, i)
                &&& call_ensures(entries[i].1, (value,), r->0)
            };
        assert(cands[i] != subject);
    }
}

/// Order sensitivity, the stable side: when at most one entry of the list
/// carries a candidate equal to the subject identity, reordering the list
/// never changes the dispatch result, provided that entry's handler is
/// deterministic on the value. (When several entries could match, the
/// order decides which handler fires — first match wins.)
pub proof fn lemma_reorder_stable<'a, T, R, P: TypePattern, F: Fn(&'a T) -> R>(
    entries1: Seq<(P, F)>,
    entries2: Seq<(P, F)>,
    subject: TypeIdentity,
    value: &'a T,
    r1: Option<R>,
    r2: Option<R>,
)
    requires
        entries1.to_multiset() == entries2.to_multiset(),
        forall|i: int, j: int|
            0 <= i < entries1.len() && 0 <= j < entries1.len()
                && #[trigger] candidates_of(entries1)[i] == subject
                && #[trigger] candidates_of(entries1)[j] == subject ==> i == j,
        dispatch_result(entries1, subject, value, r1),
        dispatch_result(entries2, subject, value, r2),
        forall|i: int, y1: R, y2: R|
            0 <= i < entries1.len() && #[trigger] call_ensures(entries1[i].1, (value,), y1)
                && #[trigger] call_ensures(entries1[i].1, (value,), y2) ==> y1 == y2,
    ensures
        r1 == r2,
{
    broadcast use vstd::seq_lib::group_to_multiset_ensures;

    let cands1 = candidates_of(entries1);
    let cands2 = candidates_of(entries2);
    match (r1, r2) {
        (Option::None, Option::None) => {},
        (Option::None, Option::Some(res2)) => {
            let i2 = choose|i: int|
                {
                    &&& #[trigger] is_first_match(cands2, subject, i)
                    &&& call_ensures(entries2[i].1, (value,), res2)
                };
            let e = entries2[i2];
            assert(entries2.contains(e));
            assert(entries2.to_multiset().count(e) > 0);
            assert(entries1.to_multiset().count(e) > 0);
            assert(entries1.contains(e));
            let k = choose|k: int| 0 <= k < entries1.len() && entries1[k] == e;
            assert(cands1[k] == subject);
        },
        (Option::Some(res1), Option::None) => {
            let i1 = choose|i: int|
                {
                    &&& #[trigger] is_first_match(cands1, subject, i)
                    &&& call_ensures(entries1[i].1, (value,), res1)
                };
            let e = entries1[i1];
            assert(entries1.contains(e));
            assert(entries1.to_multiset().count(e) > 0);
            assert(entries2.to_multiset().count(e) > 0);
            assert(entries2.contains(e));
            let k = choose|k: int| 0 <= k < entries2.len() && entries2[k] == e;
            assert(cands2[k] == subject);
        },
        (Option::Some(res1), Option::Some(res2)) => {
            let i1 = choose|i: int|
                {
                    &&& #[trigger] is_first_match(cands1, subject, i)
                    &&& call_ensures(entries1[i].1, (value,), res1)
                };
            let i2 = choose|i: int|
                {
                    &&& #[trigger] is_first_match(cands2, subject, i)
                    &&& call_ensures(entries2[i].1, (value,), res2)
                };
            let e = entries2[i2];
            assert(entries2.contains(e));
            assert(entries2.to_multiset().count(e) > 0);
            assert(entries1.to_multiset().count(e) > 0);
            assert(entries1.contains(e));
            let k = choose|k: int| 0 <= k < entries1.len() && entries1[k] == e;
            assert(cands1[k] == subject);
            assert(k == i1);
            assert(call_ensures(entries1[i1].1, (value,), res2));
            assert(call_ensures(entries1[i1].1, (value,), res1));
        },
    }
}

} // verus!
