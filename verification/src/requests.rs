//! What the HTTP surface refuses before doing any work, and how the answer
//! to a store write is given.

use vstd::prelude::*;
use crate::text::{to_chars, to_string, trim, trim_exec};

verus! {

/// The URL an ingest request names, trimmed; a blank one is refused.
pub fn ingest_url(url: &str) -> (r: Result<String, String>)
    ensures
        trim(url@).len() == 0 ==> (r is Err && r->Err_0@ == "url is required"@),
        trim(url@).len() > 0 ==> (r is Ok && r->Ok_0@ == trim(url@)),
{
    let t = trim_exec(&to_chars(url));
    if t.len() == 0 {
        Err(to_string(&to_chars("url is required")))
    } else {
        Ok(to_string(&t))
    }
}

/// Where a press happened: `api` when the caller did not say.
pub fn surface_or_api(surface: Option<&str>) -> (r: String)
    ensures
        r@ == match surface {
            Some(s) => s@,
            None => "api"@,
        },
{
    match surface {
        Some(s) => to_string(&to_chars(s)),
        None => to_string(&to_chars("api")),
    }
}

/// The answer to a write that names a row: done, no such row, or refused
/// with the store's own sentence.
pub struct WriteReply {
    pub status: u16,
    /// The error text, when the write did not happen.
    pub error: Option<String>,
}

pub fn write_reply(outcome: Result<bool, String>) -> (r: WriteReply)
    ensures
        match outcome {
            Ok(true) => r.status == 200 && r.error is None,
            Ok(false) => r.status == 404 && (r.error matches Some(e) && e@ == "not found"@),
            Err(e) => r.status == 400 && r.error == Some(e),
        },
{
    match outcome {
        Ok(true) => WriteReply { status: 200, error: None },
        Ok(false) => WriteReply { status: 404, error: Some(to_string(&to_chars("not found"))) },
        Err(e) => WriteReply { status: 400, error: Some(e) },
    }
}

} // verus!
