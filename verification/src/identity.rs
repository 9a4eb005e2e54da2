use vstd::prelude::*;

verus! {

/// An opaque runtime token identifying one concrete type.
///
/// Two tokens are equal exactly when they denote the same concrete type.
/// The caller maintains the registry that assigns each concrete type its
/// stable tag; the library only compares tokens for equality.
#[derive(Clone, Copy, Debug, PartialEq, Eq, Structural)]
pub struct TypeIdentity {
    /// The stable tag the caller's registry assigned to the type.
    pub tag: u64,
}

impl TypeIdentity {
    /// Builds the identity token that carries the given stable tag.
    pub fn new(tag: u64) -> (r: TypeIdentity)
        ensures
            r.tag == tag,
    {
        TypeIdentity { tag }
    }
}

/// Decides whether two identity tokens denote the same concrete type.
pub fn equals(a: TypeIdentity, b: TypeIdentity) -> (r: bool)
    ensures
        r == (a == b),
{
    a.tag == b.tag
}

/// Token equality is an equivalence relation: reflexive, symmetric and
/// transitive.
pub proof fn lemma_equals_equivalence(a: TypeIdentity, b: TypeIdentity, c: TypeIdentity)
    ensures
        a == a,
        (a == b) == (b == a),
        a == b && b == c ==> a == c,
{
}

} // verus!
