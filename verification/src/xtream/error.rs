//! Errors of the Xtream client.

use vstd::prelude::*;

verus! {

#[derive(Debug)]
pub enum XtreamError {
    Auth(String),
    Network(String),
    UnexpectedResponse(String),
}

/// The text that `Display` gives an error.
pub open spec fn error_message(e: XtreamError) -> Seq<char> {
    match e {
        XtreamError::Auth(s) => "auth: "@ + s@,
        XtreamError::Network(s) => "network: "@ + s@,
        XtreamError::UnexpectedResponse(s) => "unexpected response: "@ + s@,
    }
}

impl XtreamError {
    /// The error's display text.
    pub fn message(&self) -> (s: String)
        ensures
            s@ == error_message(*self),
    {
        match self {
            XtreamError::Auth(d) => {
                let mut s = String::from_str("auth: ");
                s.append(d.as_str());
                s
            },
            XtreamError::Network(d) => {
                let mut s = String::from_str("network: ");
                s.append(d.as_str());
                s
            },
            XtreamError::UnexpectedResponse(d) => {
                let mut s = String::from_str("unexpected response: ");
                s.append(d.as_str());
                s
            },
        }
    }
}

} // verus!
