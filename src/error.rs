use vstd::prelude::*;

verus! {

/// Every way the pipeline can stop; each one is terminal.
#[derive(Debug, Clone, Copy, PartialEq, Eq, Structural)]
pub enum RuntimeError {
    InvalidCardCountNumberError,
    MalformedLineError,
    ParseJsonError,
    ParseStdinError,
    WebRequestBodyParseError,
    WebRequestError,
}

} // verus!
