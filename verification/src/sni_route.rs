//! Where a client connection goes once its TLS handshake has named a server:
//! the host's backends are looked up, one location is picked, and the bytes
//! the backend is sent first are made, a PROXY header where it asks for one
//! followed by the client's handshake.

use vstd::prelude::*;

use crate::backends::{locations_map, set_view, BackendManager, SetView};
use crate::haproxy::{backend_prefix, backend_stream_prefix, passes_through, ports_given};
use crate::proxy_model::{location_view, NetworkLocationAddress, ProxyAddresses};
use crate::session::SocketAddrPair;
use crate::session_id::SessionId;
use crate::tls_sni::AlertError;

verus! {

/// Whether a client whose own PROXY header gave `client_header` can be sent
/// on to the backends `set`: where the header is passed through, it must
/// carry network addresses and both ports.
pub open spec fn header_passable(set: SetView, client_header: Option<ProxyAddresses>) -> bool {
    passes_through(set.haproxy_header_version, set.haproxy_header_allow_passthrough, client_header)
        ==> !(client_header->0 is Unix) && ports_given(client_header->0)
}

/// The backend for the server name `hostname` that a client asked for: the
/// id and location of one of the host's backends, and the bytes to send it
/// first, the handshake `handshake` behind the PROXY header the host's
/// backends ask for. An unknown name is answered with the alert
/// `unrecognized_name`.
pub fn plan_backend_connection(
    manager: &BackendManager,
    hostname: &str,
    client_header: Option<ProxyAddresses>,
    client_addr: SocketAddrPair,
    handshake: &[u8],
) -> (r: Result<(SessionId, NetworkLocationAddress, Vec<u8>), AlertError>)
    requires
        manager.wf(),
        manager.view().contains_key(hostname@) ==> manager.view()[hostname@].locations.len() > 0,
        manager.view().contains_key(hostname@) ==> header_passable(
            manager.view()[hostname@],
            client_header,
        ),
    ensures
        !manager.view().contains_key(hostname@) ==> r == Err::<
            (SessionId, NetworkLocationAddress, Vec<u8>),
            AlertError,
        >(AlertError { alert_description: 112 }),
        manager.view().contains_key(hostname@) ==> (r matches Ok((id, loc, prefix)) && {
            let set = manager.view()[hostname@];
            &&& set.locations.contains_key(id)
            &&& set.locations[id] == location_view(loc)
            &&& prefix@ == backend_prefix(
                set.haproxy_header_version,
                set.haproxy_header_allow_passthrough,
                client_header,
                client_addr,
                handshake@,
            )
        }),
{
    let b = match manager.sync_resolve(hostname) {
        Ok(b) => b,
        Err(e) => return Err(e),
    };
    proof {
        if b.locations@.len() == 0 {
            assert(locations_map(b.locations@) =~= Map::<SessionId, (Seq<char>, int, Option<crate::proxy_model::SocketAddr>)>::empty());
        }
    }
    let id = b.locations[0].0;
    let loc = crate::backends::copy_location(&b.locations[0].1);
    proof {
        let v = b.locations@;
        assert(v.len() == 1);
        assert(locations_map(v).contains_key(id));
        let k = choose|i: int| 0 <= i < v.len() && v[i].0 == id;
        assert(k == 0);
        assert(set_view(b).locations[id] == location_view(v[0].1));
        let set = manager.view()[hostname@];
        assert(set_view(b).locations.dom().contains(id));
        assert(set.locations.dom().contains(id));
        assert(set.locations[id] == set_view(b).locations[id]);
    }
    let prefix = backend_stream_prefix(
        b.haproxy_header_version,
        b.haproxy_header_allow_passthrough,
        client_header,
        client_addr,
        handshake,
    );
    Ok((id, loc, prefix))
}

} // verus!
