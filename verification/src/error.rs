use vstd::prelude::*;

verus! {

/// An error with a human-readable message.
pub struct ErrorReport {
    message: String,
}

/// The result type used throughout the library.
pub type Fallible<T> = Result<T, ErrorReport>;

impl ErrorReport {
    /// Build an error carrying `message`.
    pub fn new(message: &str) -> (r: ErrorReport)
        ensures
            r.message() == message@,
    {
        ErrorReport { message: message.to_owned() }
    }

    /// The message carried by this error.
    pub closed spec fn message(&self) -> Seq<char> {
        self.message@
    }

    /// The error as shown to the user: `error: ` and its message.
    pub fn to_string(&self) -> (r: String)
        ensures
            r@ == "error: "@ + self.message(),
    {
        crate::text::concat_str("error: ", self.message.as_str())
    }

    /// The message carried by this error.
    pub fn message_text(&self) -> (r: &str)
        ensures
            r@ == self.message(),
    {
        self.message.as_str()
    }
}

/// Fail with the given message.
pub fn fail<T>(msg: String) -> (r: Fallible<T>)
    ensures
        r matches Err(e) && e.message() == msg@,
{
    Err(ErrorReport { message: msg })
}

} // verus!
