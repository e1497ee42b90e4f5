//! Origin gatekeeping: a request must name a host to be served.
use vstd::prelude::*;
use crate::headers::{lookup, HeaderMap};

verus! {

/// Admits a request exactly when it carries a non-empty `Host` header;
/// anything else is turned away with status 401.
pub fn origin_control(headers: &HeaderMap) -> (r: Result<(), u16>)
    ensures
        (r is Ok) <==> (lookup(headers@, "Host"@) matches Some(h) && h.len() > 0),
        r matches Err(e) ==> e == 401,
{
    match headers.get("Host") {
        Some(host) => {
            if !host.as_str().is_empty() {
                Ok(())
            } else {
                Err(401)
            }
        },
        None => Err(401),
    }
}

} // verus!
