//! Error type of the decoder.

use vstd::prelude::*;
use vstd::string::StringExecFns;

verus! {

/// Why decoding failed.
#[derive(Debug, Clone, PartialEq, Eq)]
pub enum Jbig2Error {
    InvalidData(String),
    UnsupportedFeature(String),
    InternalError(String),
}

impl Jbig2Error {
    /// The human-readable text of the error, as a message prefix and the detail.
    pub open spec fn spec_message(&self) -> Seq<char> {
        match self {
            Jbig2Error::InvalidData(m) => "invalid data: "@ + m@,
            Jbig2Error::UnsupportedFeature(m) => "unsupported feature: "@ + m@,
            Jbig2Error::InternalError(m) => "internal error: "@ + m@,
        }
    }

    /// Render the error as text (`"invalid data: <detail>"` and so on).
    pub fn message(&self) -> (s: String)
        ensures
            s@ == self.spec_message(),
    {
        match self {
            Jbig2Error::InvalidData(m) => "invalid data: ".to_owned().concat(m.as_str()),
            Jbig2Error::UnsupportedFeature(m) => "unsupported feature: ".to_owned().concat(m.as_str()),
            Jbig2Error::InternalError(m) => "internal error: ".to_owned().concat(m.as_str()),
        }
    }
}

/// The result of a decoding step.
pub type Result<T> = core::result::Result<T, Jbig2Error>;

} // verus!
