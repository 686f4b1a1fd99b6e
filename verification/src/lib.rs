//! A localized response library: a message catalog of parsed templates,
//! an `Accept-Language` negotiator, a placeholder renderer, and a mapper
//! from typed application errors to a numeric code plus localized message.

use vstd::prelude::*;

pub mod strutil;
pub mod template;
pub mod catalog;
pub mod errors;
pub mod negotiate;
pub mod envelope;
pub mod uid;
pub mod logger;
pub mod yamlvars;

verus! {

/// Well-known business codes used by the response envelope.
pub enum Code {
    Success,
    BadRequest,
    Forbidden,
    InternalServerError,
    MissingParam,
    IllegalParam,
}

impl Code {
    /// The numeric wire value of this code.
    pub fn as_i32(&self) -> (r: i32)
        ensures
            r == self.spec_as_i32(),
    {
        match self {
            Code::Success => 200,
            Code::BadRequest => 400,
            Code::Forbidden => 403,
            Code::InternalServerError => 500,
            Code::MissingParam => 901,
            Code::IllegalParam => 902,
        }
    }

    pub open spec fn spec_as_i32(&self) -> i32 {
        match self {
            Code::Success => 200,
            Code::BadRequest => 400,
            Code::Forbidden => 403,
            Code::InternalServerError => 500,
            Code::MissingParam => 901,
            Code::IllegalParam => 902,
        }
    }
}

} // verus!
