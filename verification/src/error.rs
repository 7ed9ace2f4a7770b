//! What can go wrong while a server is set up or a request is read.

use vstd::prelude::*;

verus! {

/// An error of the server. `Io` and `Ssl` carry what the operating system or
/// the TLS layer said of the failure.
#[derive(Debug)]
pub enum ServerError {
    /// The text of a route did not parse; the message says why.
    ParseAction(String),
    /// A request lacked a required pseudo-header or named a method other than GET.
    BadRequest,
    /// Reading or writing failed.
    Io(String),
    /// The TLS layer failed.
    Ssl(String),
}

/// What `ServerError::message` says of an error.
pub open spec fn message_of(e: ServerError) -> Seq<char> {
    match e {
        ServerError::ParseAction(msg) => "Error parsing Action: "@ + msg@,
        ServerError::BadRequest => "Bad request"@,
        ServerError::Io(msg) => "Io error: "@ + msg@,
        ServerError::Ssl(msg) => "SSL error: "@ + msg@,
    }
}

/// What `ServerError::description` says of an error.
pub open spec fn description_of(e: ServerError) -> Seq<char> {
    match e {
        ServerError::ParseAction(_) => "Error parsing request action"@,
        ServerError::BadRequest => "Bad request"@,
        ServerError::Io(msg) => msg@,
        ServerError::Ssl(msg) => msg@,
    }
}

impl ServerError {
    /// The error as a line of text for a log or a user.
    pub fn message(&self) -> (r: String)
        ensures
            r@ == message_of(*self),
    {
        match self {
            ServerError::ParseAction(msg) => {
                let mut r = String::from_str("Error parsing Action: ");
                r.append(msg.as_str());
                r
            },
            ServerError::BadRequest => String::from_str("Bad request"),
            ServerError::Io(msg) => {
                let mut r = String::from_str("Io error: ");
                r.append(msg.as_str());
                r
            },
            ServerError::Ssl(msg) => {
                let mut r = String::from_str("SSL error: ");
                r.append(msg.as_str());
                r
            },
        }
    }

    /// The kind of the error in a few words.
    pub fn description(&self) -> (r: String)
        ensures
            r@ == description_of(*self),
    {
        match self {
            ServerError::ParseAction(_) => String::from_str("Error parsing request action"),
            ServerError::BadRequest => String::from_str("Bad request"),
            ServerError::Io(msg) => msg.clone(),
            ServerError::Ssl(msg) => msg.clone(),
        }
    }
}

} // verus!
