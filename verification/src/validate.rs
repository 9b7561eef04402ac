//! The capability of a value to check itself.
use crate::errors::Errors;
use vstd::prelude::*;

verus! {

/// A validatable type.
///
/// `T` is the type of the details that the errors of this type carry. What
/// makes a value valid is for each implementing type to say.
pub trait Validate<T> {
    /// Validates the value.
    ///
    /// A valid value gives `Ok`. An invalid one gives the errors that say why,
    /// and these are never empty.
    fn validate(&self) -> (result: Result<(), Errors<T>>)
        ensures
            result matches Err(errors) ==> !errors@.is_empty(),
    ;
}

} // verus!
