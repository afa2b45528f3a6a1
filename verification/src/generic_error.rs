//! A generic error type.
use vstd::prelude::*;
use vstd::string::*;

verus! {

/// A generic error type that can be fully sent between threads.
pub struct GenericError(pub String);

impl GenericError {
    /// The text that shows the error to a user.
    pub open spec fn shown(&self) -> Seq<char> {
        "Error: "@ + self.0@
    }

    /// The text that shows the error to a developer.
    pub open spec fn debugged(&self) -> Seq<char> {
        "Error("@ + self.0@ + ")"@
    }

    /// Makes an error of the text of anything that can be written out.
    pub fn from_text(value: &str) -> (error: Self)
        ensures
            error.0@ == value@,
    {
        Self(String::from_str(value))
    }

    /// Returns the text that shows the error to a user.
    pub fn to_text(&self) -> (text: String)
        ensures
            text@ == self.shown(),
    {
        let mut text: String = String::from_str("Error: ");
        text.append(self.0.as_str());
        text
    }

    /// Returns the text that shows the error to a developer.
    pub fn to_debug_text(&self) -> (text: String)
        ensures
            text@ == self.debugged(),
    {
        let mut text: String = String::from_str("Error(");
        text.append(self.0.as_str());
        text.append(")");
        text
    }
}

} // verus!
