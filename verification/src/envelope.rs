//! The response envelope: a numeric code, a localized message and optional
//! payload. Code 200 signals success; every other code is a business or
//! system error. Only the fixed internal-error code maps to HTTP 500 —
//! every other code travels as HTTP 200, the distinguishing information
//! carried in the envelope's own code.

use vstd::prelude::*;
use crate::catalog::Catalog;
use crate::catalog::t;
use crate::catalog::t_spec;
use crate::errors::E;
use crate::errors::map_err;
use crate::errors::map_err_spec;
use crate::strutil::i32_to_dec_string;
use crate::strutil::int_dec_str;
use crate::strutil::pairs_view;

verus! {

/// The response envelope handed back to the transport layer.
#[derive(Debug, Clone, PartialEq)]
pub struct R<T> {
    pub code: i32,
    pub message: String,
    pub data: Option<T>,
}

/// The localized success message: the rendering of key `200` with no
/// arguments.
pub open spec fn ok_message_spec(cat: Catalog, lang: Seq<char>) -> Seq<char> {
    t_spec(cat, lang, int_dec_str(200), Seq::empty())
}

impl<T> R<T> {
    /// A success envelope carrying `data`, its message localized.
    pub fn ok(cat: &Catalog, lang: &str, data: T) -> (r: R<T>)
        ensures
            r.code == 200,
            r.message@ == ok_message_spec(*cat, lang@),
            r.data == Some(data),
    {
        let key = i32_to_dec_string(200);
        let empty_args: Vec<(String, String)> = Vec::new();
        proof {
            assert(pairs_view(empty_args@) =~= Seq::<(Seq<char>, Seq<char>)>::empty());
        }
        R { code: 200, message: t(cat, lang, key.as_str(), &empty_args), data: Some(data) }
    }

    /// An error envelope: the error mapped to its code and localized
    /// message, with no payload.
    pub fn err(cat: &Catalog, lang: &str, e: E) -> (r: R<T>)
        ensures
            r.code == map_err_spec(*cat, lang@, e).0,
            r.message@ == map_err_spec(*cat, lang@, e).1,
            r.data is None,
    {
        let (code, message) = map_err(cat, lang, e);
        R { code, message, data: None }
    }

    /// The envelope for a handler result: success with its payload, or the
    /// mapped error.
    pub fn from(cat: &Catalog, lang: &str, result: Result<T, E>) -> (r: R<T>)
        ensures
            match result {
                Ok(data) => r.code == 200 && r.message@ == ok_message_spec(*cat, lang@) && r.data
                    == Some(data),
                Err(e) => r.code == map_err_spec(*cat, lang@, e).0 && r.message@ == map_err_spec(
                    *cat,
                    lang@,
                    e,
                ).1 && r.data is None,
            },
    {
        match result {
            Ok(data) => Self::ok(cat, lang, data),
            Err(e) => Self::err(cat, lang, e),
        }
    }
}

impl R<()> {
    /// A success envelope with an empty payload.
    pub fn void(cat: &Catalog, lang: &str) -> (r: R<()>)
        ensures
            r.code == 200,
            r.message@ == ok_message_spec(*cat, lang@),
            r.data == Some(()),
    {
        Self::ok(cat, lang, ())
    }

    /// The envelope for a payload-free handler result.
    pub fn from_unit(cat: &Catalog, lang: &str, result: Result<(), E>) -> (r: R<()>)
        ensures
            match result {
                Ok(_) => r.code == 200 && r.message@ == ok_message_spec(*cat, lang@) && r.data
                    == Some(()),
                Err(e) => r.code == map_err_spec(*cat, lang@, e).0 && r.message@ == map_err_spec(
                    *cat,
                    lang@,
                    e,
                ).1 && r.data is None,
            },
    {
        match result {
            Ok(_) => Self::ok(cat, lang, ()),
            Err(e) => Self::err(cat, lang, e),
        }
    }
}

/// The HTTP status an envelope code travels under: 500 for the fixed
/// internal-error code, 200 for every other code.
pub fn http_status_for(code: i32) -> (s: u16)
    ensures
        code == 500 ==> s == 500,
        code != 500 ==> s == 200,
{
    if code == 500 {
        500
    } else {
        200
    }
}

} // verus!
