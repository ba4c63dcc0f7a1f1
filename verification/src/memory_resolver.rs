//! The fixed table of backends that the proxies can be configured with: for
//! each host name, where its backend listens and whether the connection is
//! preceded by a PROXY header.

use vstd::prelude::*;

use crate::names::NameMap;
use crate::proxy_model::SocketAddr;
use crate::tls_sni::{alert_unrecognized_name, AlertError};

verus! {

/// Where a configured backend listens.
#[derive(Debug, Clone)]
pub enum NetworkLocation {
    Unix(String),
    Tcp(SocketAddr),
}

/// A configured backend.
#[derive(Debug, Clone)]
pub struct Backend {
    pub use_haproxy_header: bool,
    pub location: NetworkLocation,
}

/// The backends by host name.
pub struct MemoryResolver {
    pub hostnames: NameMap<Backend>,
}

impl MemoryResolver {
    /// A resolver that knows no host.
    pub fn new() -> (r: MemoryResolver)
        ensures
            r.hostnames.wf(),
            r.hostnames.map() == Map::<Seq<char>, Backend>::empty(),
    {
        MemoryResolver { hostnames: NameMap::new() }
    }

    /// Whether the connection to the backend of `hostname` starts with a
    /// PROXY header; never for an unknown host.
    pub fn use_haproxy_header(&self, hostname: &str) -> (r: bool)
        requires
            self.hostnames.wf(),
        ensures
            r == (self.hostnames.map().contains_key(hostname@)
                && self.hostnames.map()[hostname@].use_haproxy_header),
    {
        match self.hostnames.get(hostname) {
            Some(b) => b.use_haproxy_header,
            None => false,
        }
    }

    /// Where the backend of `hostname` listens; an unknown host is answered
    /// with the `unrecognized_name` alert.
    pub fn resolve(&self, hostname: &str) -> (r: Result<&NetworkLocation, AlertError>)
        requires
            self.hostnames.wf(),
        ensures
            self.hostnames.map().contains_key(hostname@) ==> (r matches Ok(l) && *l
                == self.hostnames.map()[hostname@].location),
            !self.hostnames.map().contains_key(hostname@) ==> (r matches Err(e)
                && e.alert_description == 112),
    {
        match self.hostnames.get(hostname) {
            Some(b) => Ok(&b.location),
            None => Err(alert_unrecognized_name()),
        }
    }
}

} // verus!
