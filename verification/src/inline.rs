use vstd::prelude::*;

use crate::dispatch::TypeMatcher;
use crate::dispatch::TypePattern;
use crate::dispatch::candidates_of;
use crate::dispatch::dispatch_result;
use crate::dispatch::is_first_match;
use crate::dispatch::no_match;
use crate::identity::TypeIdentity;
use crate::identity::equals;

verus! {

/// The inline-expansion form of a dispatch: a chain of arms written at the
/// call site, one per candidate, each with its own handler. The chain
/// short-circuits exactly as the reusable-list form does: the handler of
/// the first arm whose candidate equals the subject identity runs, and
/// later arms leave the outcome untouched.
pub struct TypeMatch<'a, T, R> {
    /// The subject value the chain dispatches on.
    pub value: &'a T,
    /// The runtime identity of the subject value.
    pub subject: TypeIdentity,
    /// The result of the arm that fired, if one has fired yet.
    pub outcome: Option<R>,
    /// The candidates the arms so far have tested, in order.
    pub seen: Ghost<Seq<TypeIdentity>>,
}

impl<'a, T, R> TypeMatch<'a, T, R> {
    /// An arm has fired exactly when some candidate seen so far equals the
    /// subject identity.
    pub open spec fn wf(self) -> bool {
        (self.outcome is Some) <==> !no_match(self.seen@, self.subject)
    }

    /// One arm of the chain: when no earlier arm has fired and `candidate`
    /// equals the subject identity, `handler` runs on the value and fixes
    /// the outcome; otherwise the arm changes nothing but the record of
    /// seen candidates.
    pub fn arm<F: Fn(&'a T) -> R>(self, candidate: TypeIdentity, handler: F) -> (r:
        TypeMatch<'a, T, R>)
        requires
            self.wf(),
            self.outcome is None && candidate == self.subject ==> call_requires(
                handler,
                (self.value,),
            ),
        ensures
            r.wf(),
            r.value == self.value,
            r.subject == self.subject,
            r.seen@ == self.seen@.push(candidate),
            self.outcome is Some ==> r.outcome == self.outcome,
            self.outcome is None && candidate == self.subject ==> r.outcome is Some
                && call_ensures(handler, (self.value,), r.outcome->0),
            self.outcome is None && candidate != self.subject ==> r.outcome is None,
    {
        let ghost seen2 = self.seen@.push(candidate);
        proof {
            assert(seen2[self.seen@.len() as int] == candidate);
            assert forall|j: int| 0 <= j < self.seen@.len() implies seen2[j] == self.seen@[j] by {}
        }
        if self.outcome.is_none() && equals(candidate, self.subject) {
            let res = handler(self.value);
            TypeMatch { value: self.value, subject: self.subject, outcome: Some(res), seen: Ghost(seen2) }
        } else {
            proof {
                if self.outcome is None {
                    assert forall|j: int| 0 <= j < seen2.len() implies seen2[j] != self.subject by {
                        if j < self.seen@.len() {
                            assert(seen2[j] == self.seen@[j]);
                        }
                    }
                } else {
                    let w = choose|j: int|
                        0 <= j < self.seen@.len() && self.seen@[j] == self.subject;
                    assert(seen2[w] == self.subject);
                }
            }
            TypeMatch { value: self.value, subject: self.subject, outcome: self.outcome, seen: Ghost(seen2) }
        }
    }

    /// Closes the chain: the outcome of the first arm that fired, or
    /// `None` when no candidate in the chain equalled the subject
    /// identity.
    pub fn finish(self) -> (r: Option<R>)
        requires
            self.wf(),
        ensures
            r == self.outcome,
            (r is None) <==> no_match(self.seen@, self.subject),
            (r is Some) ==> exists|i: int| is_first_match(self.seen@, self.subject, i),
    {
        proof {
            if self.outcome is Some {
                crate::dispatch::lemma_first_match_exists(self.seen@, self.subject);
            }
        }
        self.outcome
    }
}

/// Opens an inline dispatch chain on `value`, whose runtime identity is
/// `subject`.
pub fn type_match<'a, T, R>(value: &'a T, subject: TypeIdentity) -> (r: TypeMatch<'a, T, R>)
    ensures
        r.value == value,
        r.subject == subject,
        r.outcome is None,
        r.seen@ == Seq::<TypeIdentity>::empty(),
        r.wf(),
{
    TypeMatch { value, subject, outcome: None, seen: Ghost(Seq::empty()) }
}

/// Form equivalence, run end to end: dispatching a pattern list by
/// feeding its entries one arm at a time into an inline chain meets
/// exactly the contract of `match_type` on that list. Together with
/// `lemma_dispatch_deterministic`, the two forms return equal results
/// whenever the handlers are deterministic on the value.
pub fn dispatch_through_arms<'a, T, R, F: Fn(&'a T) -> R>(
    value: &'a T,
    subject: TypeIdentity,
    patterns: Vec<(TypeMatcher, F)>,
) -> (r: Option<R>)
    requires
        forall|i: int|
            0 <= i < patterns@.len() ==> call_requires(#[trigger] patterns@[i].1, (value,)),
    ensures
        dispatch_result(patterns@, subject, value, r),
        (r is Some) <==> !no_match(candidates_of(patterns@), subject),
{
    let ghost orig = patterns@;
    let ghost cands = candidates_of(orig);
    let mut pats = patterns;
    let mut chain: TypeMatch<'a, T, R> = type_match(value, subject);
    let ghost mut k: int = 0;
    proof {
        assert(cands.take(0) =~= Seq::<TypeIdentity>::empty());
    }
    while pats.len() > 0
        invariant
            0 <= k,
            k + pats@.len() == orig.len(),
            pats@ == orig.subrange(k, orig.len() as int),
            cands == candidates_of(orig),
            chain.wf(),
            chain.value == value,
            chain.subject == subject,
            chain.seen@ == cands.take(k),
            forall|i: int| 0 <= i < orig.len() ==> call_requires(#[trigger] orig[i].1, (value,)),
            match chain.outcome {
                Option::None => no_match(cands.take(k), subject),
                Option::Some(res) => exists|i: int|
                    {
                        &&& #[trigger] is_first_match(cands, subject, i)
                        &&& i < k
                        &&& call_ensures(orig[i].1, (value,), res)
                    },
            },
        decreases pats@.len(),
    {
        let entry = pats.remove(0);
        proof {
            assert(entry == orig[k]);
            assert(cands[k] == entry.0.candidate());
        }
        let ghost prev = chain;
        chain = chain.arm(entry.0.identity, entry.1);
        proof {
            assert(cands.take(k + 1) =~= cands.take(k).push(cands[k]));
            if prev.outcome is None && cands[k] == subject {
                assert forall|j: int| 0 <= j < k implies cands[j] != subject by {
                    assert(cands.take(k)[j] == cands[j]);
                }
                assert(is_first_match(cands, subject, k));
            }
            k = k + 1;
            assert(pats@ =~= orig.subrange(k, orig.len() as int));
        }
    }
    proof {
        assert(cands.take(k) =~= cands);
    }
    chain.finish()
}

/// Form equivalence: the arm at position `i` of an inline chain fires
/// exactly when the reusable-list dispatch over the same ordered
/// candidates selects position `i` — both forms decide through the same
/// first-match predicate, and both come up empty exactly when no
/// candidate equals the subject identity.
pub proof fn lemma_forms_agree(cands: Seq<TypeIdentity>, subject: TypeIdentity, i: int)
    requires
        0 <= i < cands.len(),
    ensures
        (no_match(cands.take(i), subject) && cands[i] == subject) <==> is_first_match(
            cands,
            subject,
            i,
        ),
{
    assert(forall|j: int| 0 <= j < i ==> cands.take(i)[j] == cands[j]);
}

} // verus!
