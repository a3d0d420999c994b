//! What a request answers: a JSON body on success, a fixed diagnostic on a fault.

use vstd::prelude::*;
use vstd::string::*;

verus! {

/// Status code of a successful answer.
pub const STATUS_OK: u16 = 200;

/// Status code of every fault.
pub const STATUS_SERVER_FAULT: u16 = 500;

/// The three ways in which a request can fail once the service is up.
#[derive(Clone, Copy, Debug, PartialEq, Eq, Structural)]
pub enum Fault {
    /// No connection could be borrowed from the pool.
    PoolUnavailable,
    /// The query did not complete.
    QueryFailed,
    /// The rows could not be encoded.
    EncodeFailed,
}

/// The text sent to the client for `fault` on the resource named `resource`.
/// It depends on nothing else, so no detail of the failure can leak into it.
pub open spec fn diagnostic_text(fault: Fault, resource: Seq<char>) -> Seq<char> {
    match fault {
        Fault::PoolUnavailable => "Unable to get connection from pool"@,
        Fault::QueryFailed => "Cannot get "@ + resource + " from the database"@,
        Fault::EncodeFailed => "Cannot serialize "@ + resource,
    }
}

impl Fault {
    /// The diagnostic for this fault on `resource`.
    pub fn diagnostic(self, resource: &str) -> (text: String)
        ensures
            text@ == diagnostic_text(self, resource@),
    {
        match self {
            Fault::PoolUnavailable => String::from_str("Unable to get connection from pool"),
            Fault::QueryFailed => {
                let mut text = String::from_str("Cannot get ");
                text.append(resource);
                text.append(" from the database");
                text
            },
            Fault::EncodeFailed => {
                let mut text = String::from_str("Cannot serialize ");
                text.append(resource);
                text
            },
        }
    }
}

/// The answer to one request.
#[derive(Debug)]
pub enum Response {
    /// The encoded envelope.
    Success { body: Vec<u8> },
    /// A fault, with the diagnostic that goes to the client.
    Failure { fault: Fault, message: String },
}

/// An answer as the contracts see it.
pub enum ResponseModel {
    Success { body: Seq<u8> },
    Failure { fault: Fault, message: Seq<char> },
}

/// The answer for `fault` on `resource`, as the contracts see it.
pub open spec fn failure_model(fault: Fault, resource: Seq<char>) -> ResponseModel {
    ResponseModel::Failure { fault, message: diagnostic_text(fault, resource) }
}

impl View for Response {
    type V = ResponseModel;

    open spec fn view(&self) -> ResponseModel {
        match self {
            Response::Success { body } => ResponseModel::Success { body: body@ },
            Response::Failure { fault, message } => ResponseModel::Failure {
                fault: *fault,
                message: message@,
            },
        }
    }
}

impl Response {
    /// The status code: 200 for a success, 500 for every fault.
    pub open spec fn spec_status(&self) -> u16 {
        match self {
            Response::Success { .. } => STATUS_OK,
            Response::Failure { .. } => STATUS_SERVER_FAULT,
        }
    }

    /// The content type that goes with the body.
    pub open spec fn spec_content_type(&self) -> Seq<char> {
        match self {
            Response::Success { .. } => "application/json"@,
            Response::Failure { .. } => "text/plain; charset=utf-8"@,
        }
    }

    /// The answer for `fault` on `resource`.
    pub fn failure(fault: Fault, resource: &str) -> (response: Response)
        ensures
            response@ == failure_model(fault, resource@),
    {
        Response::Failure { fault, message: fault.diagnostic(resource) }
    }

    #[verifier::when_used_as_spec(spec_status)]
    pub fn status(&self) -> (code: u16)
        ensures
            code == self.spec_status(),
    {
        match self {
            Response::Success { .. } => STATUS_OK,
            Response::Failure { .. } => STATUS_SERVER_FAULT,
        }
    }

    pub fn content_type(&self) -> (name: &'static str)
        ensures
            name@ == self.spec_content_type(),
    {
        match self {
            Response::Success { .. } => "application/json",
            Response::Failure { .. } => "text/plain; charset=utf-8",
        }
    }

    /// Whether this is the success answer.
    pub fn is_success(&self) -> (yes: bool)
        ensures
            yes == (self is Success),
    {
        match self {
            Response::Success { .. } => true,
            Response::Failure { .. } => false,
        }
    }
}

} // verus!
