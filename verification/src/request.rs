//! The unit of evaluation: one candidate network request.

use vstd::prelude::*;

verus! {

/// A candidate request: the target URL, the originating page (a URL or a
/// bare domain), and the resource-type tag (for example `script`). All three
/// are byte strings.
pub struct Request {
    pub url: Vec<u8>,
    pub origin: Vec<u8>,
    pub resource_type: Vec<u8>,
}

/// Mathematical model of a request.
pub struct RequestV {
    pub url: Seq<u8>,
    pub origin: Seq<u8>,
    pub resource_type: Seq<u8>,
}

impl View for Request {
    type V = RequestV;

    open spec fn view(&self) -> RequestV {
        RequestV { url: self.url@, origin: self.origin@, resource_type: self.resource_type@ }
    }
}

impl Request {
    /// Builds a request from its three components.
    pub fn new(url: Vec<u8>, origin: Vec<u8>, resource_type: Vec<u8>) -> (r: Request)
        ensures
            r@.url == url@,
            r@.origin == origin@,
            r@.resource_type == resource_type@,
    {
        Request { url, origin, resource_type }
    }
}

} // verus!
