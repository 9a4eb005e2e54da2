//! Runtime type-dispatch for values behind a type-tag registry.
//!
//! A value's concrete type is represented by an opaque [`TypeIdentity`]
//! token. An ordered list of patterns, each capturing one candidate
//! identity, is tested against the subject's identity in order; the handler
//! of the first matching pattern produces the result, and a list with no
//! matching pattern yields `None`.

mod dispatch;
mod identity;
mod inline;

pub use dispatch::TypeMatcher;
pub use dispatch::TypePattern;
pub use dispatch::candidates_of;
pub use dispatch::dispatch_result;
pub use dispatch::is_first_match;
pub use dispatch::lemma_dispatch_deterministic;
pub use dispatch::lemma_first_match_exists;
pub use dispatch::lemma_first_match_priority;
pub use dispatch::lemma_first_match_unique;
pub use dispatch::lemma_match_found;
pub use dispatch::lemma_no_match_none;
pub use dispatch::lemma_reorder_stable;
pub use dispatch::match_type;
pub use dispatch::no_match;
pub use identity::TypeIdentity;
pub use identity::equals;
pub use identity::lemma_equals_equivalence;
pub use inline::TypeMatch;
pub use inline::dispatch_through_arms;
pub use inline::lemma_forms_agree;
pub use inline::type_match;
