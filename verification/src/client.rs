use vstd::prelude::*;

verus! {

/// A failed call against the judge, rendered as one line of text.
#[derive(Debug)]
pub struct DescriptiveError {
    pub message: String,
}

impl DescriptiveError {
    pub fn new(message: String) -> (r: DescriptiveError)
        ensures
            r.message@ == message@,
    {
        DescriptiveError { message }
    }
}

/// The four judge endpoints.
#[derive(Debug, Clone, Copy, PartialEq, Eq, Structural)]
pub enum Endpoint {
    Explore,
    Licenses,
    Dig,
    Cash,
}

/// What to do with the status of an HTTP reply.
#[derive(Debug, Clone, Copy, PartialEq, Eq, Structural)]
pub enum ResponseAction {
    /// Success: parse the body.
    ParseBody,
    /// The cell holds nothing at that depth: an empty token list, not an error.
    EmptyResult,
    /// Any other status: a failure the caller reports and retries.
    Fail,
}

/// Status 200 means parse the body; 404 counts as an empty result on the dig
/// endpoint only; everything else is a failure.
pub fn classify_response(endpoint: Endpoint, status: u16) -> (r: ResponseAction)
    ensures
        (r == ResponseAction::ParseBody) <==> status == 200,
        (r == ResponseAction::EmptyResult) <==> (status == 404 && endpoint == Endpoint::Dig),
        (r == ResponseAction::Fail) <==> (status != 200 && !(status == 404 && endpoint
            == Endpoint::Dig)),
{
    if status == 200 {
        ResponseAction::ParseBody
    } else if status == 404 && matches!(endpoint, Endpoint::Dig) {
        ResponseAction::EmptyResult
    } else {
        ResponseAction::Fail
    }
}

} // verus!
