use vstd::prelude::*;
use crate::value::PlistValue;

verus! {

/// What can go wrong in this library.
#[derive(Debug)]
pub enum Error {
    /// An external command failed, or its output could not be read; the text
    /// holds the command's own diagnostic.
    CommandExecution(String),
    /// A property list does not have the expected structure; the value is the
    /// one that was rejected.
    Decode(PlistValue),
    /// A change record matches none of the known record shapes.
    UnknownChangeShape(PlistValue),
    /// A path has no parent directory or no base name.
    MalformedPath(String),
    /// A destination, a backup, a previous backup or a cache entry does not exist.
    NotFound(String),
    /// The same comparison is already being computed.
    AlreadyLoading,
    /// The shared state could not be locked.
    StateAccess(String),
}

impl Error {
    /// This is the malformed-path error for `p`.
    pub open spec fn is_malformed_path(self, p: Seq<char>) -> bool {
        match self {
            Error::MalformedPath(q) => q@ == p,
            _ => false,
        }
    }

    /// This is the not-found error for `what`.
    pub open spec fn is_not_found(self, what: Seq<char>) -> bool {
        match self {
            Error::NotFound(q) => q@ == what,
            _ => false,
        }
    }

    /// A human-readable description; record values are left to the caller to render.
    pub fn message(&self) -> (r: String)
        ensures
            match self {
                Error::CommandExecution(s) => r@ == s@,
                Error::MalformedPath(p) => r@ == "Malformed path: "@ + p@,
                Error::NotFound(what) => r@ == "Not found: "@ + what@,
                Error::StateAccess(s) => r@ == "Unable to access state: "@ + s@,
                Error::Decode(_) => r@ == "Unable to parse response"@,
                Error::UnknownChangeShape(_) => r@ == "Unable to read change"@,
                Error::AlreadyLoading => r@ == "Already loading backup"@,
            },
    {
        match self {
            Error::CommandExecution(s) => s.clone(),
            Error::MalformedPath(p) => String::from_str("Malformed path: ").concat(p.as_str()),
            Error::NotFound(what) => String::from_str("Not found: ").concat(what.as_str()),
            Error::StateAccess(s) => String::from_str("Unable to access state: ").concat(s.as_str()),
            Error::Decode(_) => String::from_str("Unable to parse response"),
            Error::UnknownChangeShape(_) => String::from_str("Unable to read change"),
            Error::AlreadyLoading => String::from_str("Already loading backup"),
        }
    }
}

} // verus!
