//! The ways an invocation can fail.
use vstd::prelude::*;

verus! {

/// A failure of one invocation; each ends it.
#[derive(PartialEq, Eq, Debug)]
pub enum BwdError {
    /// The environment or the filesystem failed, with its message.
    Io(String),
    /// The clipboard refused the text, with its message.
    Clipboard(String),
    /// The target given does not exist; it carries the target as given.
    InvalidPath(String),
    /// Root-relative output was asked for and no ancestor holds a marker.
    RootNotFound,
    /// The structured document could not be written, with the message.
    Json(String),
}

/// The one-line text of an error.
pub open spec fn message_spec(e: BwdError) -> Seq<char> {
    match e {
        BwdError::Io(m) => "IO Error: "@ + m@,
        BwdError::Clipboard(m) => "Clipboard Error: "@ + m@,
        BwdError::InvalidPath(t) => "Invalid path: '"@ + t@ + "'"@,
        BwdError::RootNotFound => "Root not found"@,
        BwdError::Json(m) => "JSON Error: "@ + m@,
    }
}

impl BwdError {
    /// The text shown for this error.
    pub fn message(&self) -> (r: String)
        ensures
            r@ == message_spec(*self),
    {
        match self {
            BwdError::Io(m) => String::from_str("IO Error: ").concat(m.as_str()),
            BwdError::Clipboard(m) => String::from_str("Clipboard Error: ").concat(m.as_str()),
            BwdError::InvalidPath(t) => String::from_str("Invalid path: '").concat(t.as_str()).concat(
                "'",
            ),
            BwdError::RootNotFound => String::from_str("Root not found"),
            BwdError::Json(m) => String::from_str("JSON Error: ").concat(m.as_str()),
        }
    }
}

} // verus!
