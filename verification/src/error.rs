//! The crate's general error value.
use vstd::prelude::*;
use vstd::string::*;

verus! {

broadcast use vstd::string::group_string_axioms;

/// Error type carrying a message, to easily return those kind of errors
/// arbitrarily in the code.
pub struct StdError(pub String);

impl StdError {
    /// A boxed copy of this error.
    pub fn to_boxed(&self) -> (b: Box<Self>)
        ensures
            b.0@ == self.0@,
    {
        Box::new(StdError(self.0.clone()))
    }

    /// This error, boxed, as the error of a result.
    pub fn to_boxed_err(&self) -> (r: Result<(), Box<Self>>)
        ensures
            r matches Err(b) && b.0@ == self.0@,
    {
        Err(self.to_boxed())
    }

    /// The text that displays this error: `Standard error: ` and the message.
    pub fn message(&self) -> (m: String)
        ensures
            m@ == "Standard error: "@ + self.0@,
    {
        let mut m = String::from_str("Standard error: ");
        m.append(self.0.as_str());
        m
    }
}

} // verus!
