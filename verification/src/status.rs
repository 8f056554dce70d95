//! HTTP response statuses: the closed set of codes the server can send,
//! with their numeric codes and reason phrases.

use vstd::prelude::*;
use vstd::string::StringSliceAdditionalSpecFns;

verus! {

/// An HTTP response status.
#[derive(Clone, Copy, PartialEq, Eq, Structural, Debug)]
pub enum Status {
    /// The request succeeded.
    Okay,
    /// The URL of the requested resource has been changed permanently.
    MovedPermanently,
    /// The client does not have access rights to the content.
    Forbidden,
    /// The server cannot find the requested resource.
    NotFound,
    /// The server has encountered a situation it does not know how to handle.
    InternalServerError,
}

impl Status {
    /// The numeric code of the status.
    pub open spec fn code_spec(self) -> u16 {
        match self {
            Status::Okay => 200,
            Status::MovedPermanently => 301,
            Status::Forbidden => 403,
            Status::NotFound => 404,
            Status::InternalServerError => 500,
        }
    }

    /// The reason phrase of the status, as characters.
    pub open spec fn reason_spec(self) -> Seq<char> {
        match self {
            Status::Okay => "OK"@,
            Status::MovedPermanently => "Moved Permanently"@,
            Status::Forbidden => "Forbidden"@,
            Status::NotFound => "Not Found"@,
            Status::InternalServerError => "Internal Server Error"@,
        }
    }

    /// The reason phrase of the status, as bytes.
    pub open spec fn reason_bytes(self) -> Seq<u8> {
        match self {
            Status::Okay => ("OK").spec_bytes(),
            Status::MovedPermanently => ("Moved Permanently").spec_bytes(),
            Status::Forbidden => ("Forbidden").spec_bytes(),
            Status::NotFound => ("Not Found").spec_bytes(),
            Status::InternalServerError => ("Internal Server Error").spec_bytes(),
        }
    }

    /// Returns the status' code.
    pub fn code(self) -> (r: u16)
        ensures
            r == self.code_spec(),
    {
        match self {
            Status::Okay => 200,
            Status::MovedPermanently => 301,
            Status::Forbidden => 403,
            Status::NotFound => 404,
            Status::InternalServerError => 500,
        }
    }

    /// Returns the status' reason phrase.
    pub fn reason(self) -> (r: &'static str)
        ensures
            r@ == self.reason_spec(),
            r.spec_bytes() == self.reason_bytes(),
    {
        match self {
            Status::Okay => "OK",
            Status::MovedPermanently => "Moved Permanently",
            Status::Forbidden => "Forbidden",
            Status::NotFound => "Not Found",
            Status::InternalServerError => "Internal Server Error",
        }
    }
}

} // verus!
