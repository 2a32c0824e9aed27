//! The failure taxonomy of the pipeline. Every stage fails fast with its own
//! distinct kind; no kind is ever collapsed into another on the way up.

use vstd::prelude::*;

verus! {

/// One distinct failure kind per pipeline stage.
#[derive(Clone, Copy, Debug, PartialEq, Eq, Structural)]
pub enum Error {
    /// A transport-level failure in one of the HTTP calls.
    Network,
    /// The lookup response was not a JSON array of city objects.
    Deserialization,
    /// The lookup succeeded but returned zero candidate cities.
    NoResults,
    /// The selection token was not a valid zero-based index into the candidates.
    InvalidSelection,
    /// The forecast page held no meteogram image URL.
    MeteogramNotFound,
    /// A filesystem write failed.
    Io,
    /// The external viewer could not be launched.
    Launch,
}

impl Error {
    /// A short human-readable description, for the unverified shell to print.
    pub fn describe(&self) -> (r: &'static str)
        ensures
            r@.len() > 0,
    {
        proof {
            reveal_strlit("network request failed");
            reveal_strlit("could not parse city list");
            reveal_strlit("no cities matched the query");
            reveal_strlit("invalid city selection");
            reveal_strlit("could not find meteogram URL");
            reveal_strlit("could not write output file");
            reveal_strlit("could not launch viewer");
        }
        match self {
            Error::Network => "network request failed",
            Error::Deserialization => "could not parse city list",
            Error::NoResults => "no cities matched the query",
            Error::InvalidSelection => "invalid city selection",
            Error::MeteogramNotFound => "could not find meteogram URL",
            Error::Io => "could not write output file",
            Error::Launch => "could not launch viewer",
        }
    }
}

} // verus!
