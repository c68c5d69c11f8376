use vstd::prelude::*;

verus! {

/// The part of an HTTP response this service ever produces: a status code and
/// a body.  Every endpoint answers with an empty body; only the status code
/// carries information to the caller.
#[derive(Debug)]
pub struct HttpResponse {
    pub status: u16,
    pub body: Vec<u8>,
}

impl HttpResponse {
    /// An empty-bodied response with the given status code.
    pub fn empty(status: u16) -> (r: HttpResponse)
        ensures
            r.status == status,
            r.body@.len() == 0,
    {
        HttpResponse { status, body: Vec::new() }
    }
}

} // verus!
