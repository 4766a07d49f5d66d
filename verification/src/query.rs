use vstd::prelude::*;

pub mod post;
pub mod pre;

verus! {

/// Boolean-combination semantics for one clause of a group query.
#[derive(PartialEq, Eq, Structural, Clone, Copy, Debug)]
pub enum Occur {
    /// The clause must match.
    Must,
    /// The clause may match; if a group has no `Must` clause, at least one
    /// `Should` clause has to match.
    Should,
    /// The clause must not match.
    MustNot,
}

/// A literal value a query compares a field against.
#[derive(PartialEq, Eq, Structural, Clone, Copy, Debug)]
pub enum Value {
    U64(u64),
}

} // verus!
