//! A single validation error.
use vstd::prelude::*;

verus! {

/// What an [`Error`] stands for: its message as a sequence of characters and
/// the details attached to it, if any.
pub struct ErrorView<T> {
    pub message: Seq<char>,
    pub details: Option<T>,
}

impl<T> ErrorView<T> {
    /// An error with the given message and no details.
    pub open spec fn new(message: Seq<char>) -> Self {
        ErrorView { message, details: None }
    }

    /// An error with the given message and details.
    pub open spec fn with_details(message: Seq<char>, details: T) -> Self {
        ErrorView { message, details: Some(details) }
    }

    /// The same error with `details` in place of any it had.
    pub open spec fn set_details(self, details: T) -> Self {
        ErrorView { message: self.message, details: Some(details) }
    }
}

/// An individual validation error.
///
/// The message is fixed when the error is made. The details are absent until
/// they are given, and a later [`Error::set_details`] replaces them.
#[derive(Debug)]
pub struct Error<T> {
    details: Option<T>,
    message: String,
}

/// An `Error` with no custom details, to avoid the generic parameter when not needed.
pub type SimpleError = Error<()>;

impl<T> View for Error<T> {
    type V = ErrorView<T>;

    closed spec fn view(&self) -> ErrorView<T> {
        ErrorView { message: self.message@, details: self.details }
    }
}

impl<T> Error<T> {
    /// Constructs a validation error without details.
    pub fn new(message: &str) -> (error: Self)
        ensures
            error@ == ErrorView::<T>::new(message@),
    {
        Error { details: None, message: message.to_owned() }
    }

    /// Constructs a validation error with additional details.
    pub fn with_details(message: &str, details: T) -> (error: Self)
        ensures
            error@ == ErrorView::with_details(message@, details),
    {
        Error { details: Some(details), message: message.to_owned() }
    }

    /// Additional contextual information about the error, if provided.
    pub fn details(&self) -> (details: Option<&T>)
        ensures
            match details {
                Some(d) => self@.details == Some(*d),
                None => self@.details is None,
            },
    {
        self.details.as_ref()
    }

    /// Sets the details of this error, discarding any it had before.
    pub fn set_details(&mut self, details: T)
        ensures
            final(self)@ == old(self)@.set_details(details),
    {
        self.details = Some(details);
    }

    /// A human-readable message explaining the error.
    pub fn message(&self) -> (message: &str)
        ensures
            message@ == self@.message,
    {
        self.message.as_str()
    }

    /// The error as it is shown to people: its message, unchanged.
    pub fn to_string(&self) -> (text: String)
        ensures
            text@ == self@.message,
    {
        self.message.clone()
    }

    /// A short description of the error: its message.
    pub fn description(&self) -> (text: &str)
        ensures
            text@ == self@.message,
    {
        self.message.as_str()
    }
}

} // verus!
