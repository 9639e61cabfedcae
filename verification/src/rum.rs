use vstd::prelude::*;

use crate::method::MethodType;
use crate::server::RumServer;

verus! {

/// A server for `host` and `port` with no routes yet.
pub fn new<H>(host: &str, port: i32) -> (s: RumServer<H>)
    ensures
        s.wf(),
        s.host_view() == host@,
        s.port_view() == port,
        s.routes() == Map::<(Seq<Seq<char>>, MethodType), H>::empty(),
        s.static_asset_path_view() is None,
        !s.has_template_engine(),
{
    RumServer::new(host, port)
}

} // verus!
