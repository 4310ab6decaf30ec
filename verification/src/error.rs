//! The library's error type: a plain message, convertible from the failure
//! shapes the core produces.

use vstd::prelude::*;

verus! {

/// A failed operation, carrying a human-readable message.
#[derive(Debug)]
pub struct Error(pub String);

impl Error {
    /// The error's message text.
    pub fn message(&self) -> (r: &str)
        ensures
            r@ == self.0@,
    {
        self.0.as_str()
    }
}

impl Clone for Error {
    /// A copy carrying the same message.
    fn clone(&self) -> (r: Self)
        ensures
            r == *self,
    {
        Error(self.0.clone())
    }
}

/// Conversion of foreign failure shapes into the library's `Result`.
pub trait IntoResult<T>: Sized {
    /// Repackages `self` as a `Result` over [`Error`].
    fn into_result(self) -> Result<T, Error>;
}

impl<T> IntoResult<T> for Result<T, String> {
    /// Wraps the error message, keeping a success unchanged.
    fn into_result(self) -> (r: Result<T, Error>)
        ensures
            self is Ok <==> r is Ok,
            self is Ok ==> r->Ok_0 == self->Ok_0,
            self is Err ==> r->Err_0.0 == self->Err_0,
    {
        match self {
            Ok(v) => Ok(v),
            Err(m) => Err(Error(m)),
        }
    }
}

} // verus!
