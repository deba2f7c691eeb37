//! The connection settings of an XML-RPC client.

use vstd::prelude::*;

verus! {

/// The credentials and endpoint an XML-RPC client calls with. The
/// transport that performs the call lives outside the library, behind
/// [`crate::rpc::RPCCaller`].
#[derive(Debug)]
pub struct ClientXMLRPC {
    auth: String,
    endpoint: String,
}

impl ClientXMLRPC {
    /// The credential string, `user:password`.
    pub closed spec fn spec_auth(&self) -> Seq<char> {
        self.auth@
    }

    /// The URL the client posts requests to.
    pub closed spec fn spec_endpoint(&self) -> Seq<char> {
        self.endpoint@
    }

    /// A client for the given credentials and endpoint.
    pub fn new(auth: String, endpoint: String) -> (r: ClientXMLRPC)
        ensures
            r.spec_auth() == auth@,
            r.spec_endpoint() == endpoint@,
    {
        ClientXMLRPC { auth, endpoint }
    }

    /// The credential string.
    pub fn auth(&self) -> (r: &str)
        ensures
            r@ == self.spec_auth(),
    {
        self.auth.as_str()
    }

    /// The endpoint URL.
    pub fn endpoint(&self) -> (r: &str)
        ensures
            r@ == self.spec_endpoint(),
    {
        self.endpoint.as_str()
    }
}

} // verus!
