use vstd::prelude::*;
use vstd::string::StringExecFns;

verus! {

/// An error raised while establishing a hub connection.
pub struct Error {
    pub message: String,
}

impl Error {
    /// A handshake failure whose message carries the peer-supplied reason.
    pub fn handshake_error(inner: &str) -> (r: Error)
        ensures
            r.message@ == "Handshake failed, inner "@ + inner@,
    {
        Error { message: String::from_str("Handshake failed, inner ").concat(inner) }
    }

    /// A handshake failure with no further detail.
    pub fn handshake_error_simple() -> (r: Error)
        ensures
            r.message@ == "Handshake failed"@,
    {
        Error { message: String::from_str("Handshake failed") }
    }
}

} // verus!
