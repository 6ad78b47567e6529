//! The closed set of fatal error kinds a run can end with.
//!
//! Every fatal condition aborts the whole run: there is no retry, no partial
//! report. The binary maps these onto whatever error type the decoding
//! library's interface requires at its boundary.

use vstd::prelude::*;

verus! {

/// A fatal error of a single inspection run.
#[derive(Clone, Copy, Debug, PartialEq, Eq, Structural)]
pub enum MediaError {
    /// No input path was supplied, or the container holds no decodable
    /// video stream.
    NoVideoStream,
    /// The container could not be opened or parsed.
    ContainerOpen,
    /// The stream's codec parameters could not produce a decoder.
    DecoderConstruction,
    /// A mid-stream decode failure; the run aborts without a report.
    Decode,
}

impl MediaError {
    /// A human-readable description of the error kind.
    pub fn describe(&self) -> (s: String)
        ensures
            s@ == self.describe_spec(),
    {
        match self {
            MediaError::NoVideoStream => String::from_str("No video stream found"),
            MediaError::ContainerOpen => String::from_str("Could not open the container"),
            MediaError::DecoderConstruction => String::from_str("Could not construct a decoder"),
            MediaError::Decode => String::from_str("Decode failure"),
        }
    }

    /// What `describe` returns for each kind.
    pub open spec fn describe_spec(&self) -> Seq<char> {
        match self {
            MediaError::NoVideoStream => "No video stream found"@,
            MediaError::ContainerOpen => "Could not open the container"@,
            MediaError::DecoderConstruction => "Could not construct a decoder"@,
            MediaError::Decode => "Decode failure"@,
        }
    }
}

} // verus!
