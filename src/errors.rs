//! Failures that end a run.
use vstd::prelude::*;

verus! {

#[verifier::external_type_specification]
#[verifier::external_body]
pub struct ExIoError(std::io::Error);

/// Why a run stopped.
#[derive(Debug)]
pub enum ZbbError {
    /// Reading from the terminal failed.
    StdIoError { e: std::io::Error },
    /// A request or the read of its response body failed.
    NetworkError { message: String },
    /// A page does not have the shape the extraction expects.
    ExtractionError { message: String },
}

impl ZbbError {
    /// A network failure carrying the transport's own description.
    pub fn network(message: String) -> (r: ZbbError)
        ensures
            r matches ZbbError::NetworkError { message: m } && m@ == message@,
    {
        ZbbError::NetworkError { message }
    }

    /// A page whose shape the extraction does not recognise.
    pub fn extraction(message: &str) -> (r: ZbbError)
        ensures
            r matches ZbbError::ExtractionError { message: m } && m@ == message@,
    {
        ZbbError::ExtractionError { message: String::from_str(message) }
    }
}

impl From<std::io::Error> for ZbbError {
    fn from(e: std::io::Error) -> (r: ZbbError) {
        ZbbError::StdIoError { e }
    }
}

impl vstd::std_specs::convert::FromSpecImpl<std::io::Error> for ZbbError {
    open spec fn obeys_from_spec() -> bool {
        true
    }

    open spec fn from_spec(e: std::io::Error) -> ZbbError {
        ZbbError::StdIoError { e }
    }
}

} // verus!
