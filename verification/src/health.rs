use vstd::prelude::*;

use crate::response::HttpResponse;

verus! {

/// Liveness endpoint: unconditionally succeeds with status 200 and a body of
/// length zero.  It takes no input and touches no shared state, so the result
/// is the same whatever the rest of the system is doing.
pub fn health_check() -> (r: HttpResponse)
    ensures
        r.status == 200,
        r.body@.len() == 0,
{
    HttpResponse::empty(200)
}

} // verus!
