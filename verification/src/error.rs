//! The error type of the library and the helpers that build errors.

use vstd::prelude::*;

verus! {

/// The result of an operation that fails with a message for the user.
pub type Result<T> = std::result::Result<T, AppError>;

/// An error that is reported to the user as one line of text.
#[derive(Debug, Clone, PartialEq, Eq)]
pub struct AppError {
    message: String,
}

impl View for AppError {
    type V = Seq<char>;

    closed spec fn view(&self) -> Seq<char> {
        self.message@
    }
}

impl AppError {
    /// Create an error with the given message.
    pub fn new(message: String) -> (result: Self)
        ensures
            result@ == message@,
    {
        AppError { message }
    }

    /// The message of the error.
    pub fn message(&self) -> (result: &str)
        ensures
            result@ == self@,
    {
        self.message.as_str()
    }

    /// A copy of the message of the error.
    pub fn to_string(&self) -> (result: String)
        ensures
            result@ == self@,
    {
        self.message.clone()
    }
}

/// Create an error from a fixed message.
pub fn failure(message: &str) -> (result: AppError)
    ensures
        result@ == message@,
{
    AppError::new(String::from_str(message))
}

/// A value, or the message of an error.
pub type Outcome<T> = std::result::Result<T, Seq<char>>;

/// What a result says: the mathematical value, or the message of the error.
pub open spec fn outcome<T: DeepView>(result: Result<T>) -> Outcome<T::V> {
    match result {
        Ok(value) => Ok(value.deep_view()),
        Err(error) => Err(error@),
    }
}

/// Put a message in front of the message of an error.
pub trait Context<T>: Sized {
    fn context(self, message: &str) -> Result<T>;
}

impl<T> Context<T> for Result<T> {
    fn context(self, message: &str) -> (result: Result<T>)
        ensures
            match self {
                Ok(value) => result == Ok::<T, AppError>(value),
                Err(error) => result matches Err(wrapped) && wrapped@ == message@ + ": "@ + error@,
            },
    {
        match self {
            Ok(value) => Ok(value),
            Err(error) => Err(
                AppError::new(String::from_str(message).concat(": ").concat(error.message())),
            ),
        }
    }
}

/// Turn an absent value into an error.
pub trait OptionContext<T>: Sized {
    fn context(self, message: &str) -> Result<T>;
}

impl<T> OptionContext<T> for Option<T> {
    fn context(self, message: &str) -> (result: Result<T>)
        ensures
            match self {
                Some(value) => result == Ok::<T, AppError>(value),
                None => result matches Err(error) && error@ == message@,
            },
    {
        match self {
            Some(value) => Ok(value),
            None => Err(failure(message)),
        }
    }
}

} // verus!
