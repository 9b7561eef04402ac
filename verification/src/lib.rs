//! Structured validation errors.
//!
//! A value that fails validation is described by an [`Errors`] tree: a list of
//! errors that concern the value as a whole, and, for each field that is at
//! fault, a nested tree of the same shape. A single failure is an [`Error`]: a
//! message for people, and optionally a payload of the caller's choosing.
//! Types that can check themselves implement [`Validate`].
pub mod error;
pub mod errors;
pub mod laws;
pub mod validate;

pub use crate::error::Error;
pub use crate::error::ErrorView;
pub use crate::error::SimpleError;
pub use crate::errors::Errors;
pub use crate::errors::ErrorsView;
pub use crate::errors::SimpleErrors;
pub use crate::validate::Validate;
