use vstd::prelude::*;

verus! {

/// A queried field or sheet is absent from the schema it was resolved
/// against. Non-fatal: the offending sheet or clause is dropped and
/// processing continues for all other units.
#[derive(Debug)]
pub struct SchemaMismatchError {
    pub field: String,
    pub reason: String,
}

/// A query value could not be coerced to the native storage type of the
/// field it is compared against. Non-fatal in the same way.
#[derive(Debug)]
pub struct FieldTypeError {
    pub field: String,
    pub expected: String,
    pub got: String,
}

/// The two error classes of the search subsystem. `Failure` is fatal and
/// aborts the enclosing operation; the other variants are scoped to one
/// sheet or one query clause.
#[derive(Debug)]
pub enum Error {
    /// Fatal: unimplemented value/type combinations, unresolved relation
    /// conditions, exhausted relation recursion budget.
    Failure(String),
    /// Non-fatal schema mismatch.
    SchemaMismatch(SchemaMismatchError),
    /// Non-fatal value/field type mismatch.
    FieldType(FieldTypeError),
}

impl Error {
    /// Whether this error aborts the whole enclosing operation rather than
    /// only the unit (sheet, clause) it arose in.
    pub open spec fn spec_is_fatal(&self) -> bool {
        self is Failure
    }

    pub fn is_fatal(&self) -> (r: bool)
        ensures
            r == self.spec_is_fatal(),
    {
        matches!(self, Error::Failure(_))
    }
}

} // verus!
