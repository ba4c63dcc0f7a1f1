//! The proxy's table of client sessions: each session's state through the
//! TLS handshake, backend lookup, connection and the two half-closes, its
//! byte counters and timings, and the queue that forgets closed sessions
//! thirty seconds after they close. Times are milliseconds of a monotonic
//! clock that the caller reads.

use vstd::prelude::*;

use crate::session_id::{same_id, SessionId};
use crate::tls_sni::SniDetectRecord;

verus! {

/// Where a session is in its life.
#[derive(Debug, Clone, Copy, PartialEq, Eq, Structural)]
pub enum SessionState {
    Handshaking,
    BackendResolving,
    BackendConnecting,
    Connected,
    ShutdownRead,
    ShutdownWrite,
    Shutdown,
}

/// The name of each state.
pub open spec fn spec_state_name(s: SessionState) -> Seq<char> {
    match s {
        SessionState::Handshaking => "handshaking"@,
        SessionState::BackendResolving => "backend-resolving"@,
        SessionState::BackendConnecting => "backend-connecting"@,
        SessionState::Connected => "connected"@,
        SessionState::ShutdownRead => "shutdown-read"@,
        SessionState::ShutdownWrite => "shutdown-write"@,
        SessionState::Shutdown => "shutdown"@,
    }
}

impl SessionState {
    /// The name of the state.
    pub fn as_str(&self) -> (r: &'static str)
        ensures
            r@ == spec_state_name(*self),
    {
        match *self {
            SessionState::Handshaking => "handshaking",
            SessionState::BackendResolving => "backend-resolving",
            SessionState::BackendConnecting => "backend-connecting",
            SessionState::Connected => "connected",
            SessionState::ShutdownRead => "shutdown-read",
            SessionState::ShutdownWrite => "shutdown-write",
            SessionState::Shutdown => "shutdown",
        }
    }
}

/// An IPv4 socket address.
#[derive(Debug, Clone, Copy, PartialEq, Eq)]
pub struct SocketAddrV4 {
    pub ip: [u8; 4],
    pub port: u16,
}

/// An IPv6 socket address.
#[derive(Debug, Clone, Copy, PartialEq, Eq)]
pub struct SocketAddrV6 {
    pub ip: [u16; 8],
    pub port: u16,
    pub flowinfo: u32,
    pub scope_id: u32,
}

/// The two ends of a client connection: this side's address and the peer's.
#[derive(Debug, Clone, Copy)]
#[allow(inconsistent_fields)]
pub enum SocketAddrPair {
    V4 { local_addr: SocketAddrV4, peer_addr: SocketAddrV4 },
    V6 { local_addr: SocketAddrV6, peer_addr: SocketAddrV6 },
    Unix,
    Unknown,
}

/// What is known of a session, as reported to the management socket.
#[derive(Debug, Clone)]
pub struct SessionExport {
    pub session_id: SessionId,
    pub start_time: u64,
    pub client_conn: SocketAddrPair,
    pub backend_name: Option<String>,
    pub backend_resolve_start: Option<u64>,
    pub backend_resolve_latency: Option<u64>,
    pub backend_connect_start: Option<u64>,
    pub backend_connect_latency: Option<u64>,
    pub state: SessionState,
    pub last_xmit: u64,
    pub bytes_client_to_backend: u64,
    pub bytes_backend_to_client: u64,
}

/// A session and whether its cancellation handle is still held.
#[derive(Debug)]
pub struct Session {
    pub holds_handle: bool,
    pub exportable: SessionExport,
}

/// A session as plain values.
pub struct SessionView {
    pub holds_handle: bool,
    pub start_time: u64,
    pub client_conn: SocketAddrPair,
    pub backend_name: Option<Seq<char>>,
    pub backend_resolve_start: Option<u64>,
    pub backend_resolve_latency: Option<u64>,
    pub backend_connect_start: Option<u64>,
    pub backend_connect_latency: Option<u64>,
    pub state: SessionState,
    pub last_xmit: u64,
    pub bytes_client_to_backend: u64,
    pub bytes_backend_to_client: u64,
}

/// `s` as plain values.
pub open spec fn session_view(s: Session) -> SessionView {
    SessionView {
        holds_handle: s.holds_handle,
        start_time: s.exportable.start_time,
        client_conn: s.exportable.client_conn,
        backend_name: match s.exportable.backend_name {
            Some(n) => Some(n@),
            None => None,
        },
        backend_resolve_start: s.exportable.backend_resolve_start,
        backend_resolve_latency: s.exportable.backend_resolve_latency,
        backend_connect_start: s.exportable.backend_connect_start,
        backend_connect_latency: s.exportable.backend_connect_latency,
        state: s.exportable.state,
        last_xmit: s.exportable.last_xmit,
        bytes_client_to_backend: s.exportable.bytes_client_to_backend,
        bytes_backend_to_client: s.exportable.bytes_backend_to_client,
    }
}

impl Session {
    /// A session that starts handshaking at `start_time`, seen last at `now`.
    pub fn new(session_id: SessionId, start_time: u64, client_addr: SocketAddrPair, now: u64) -> (r:
        Session)
        ensures
            r.exportable.session_id == session_id,
            session_view(r) == new_session_view(start_time, client_addr, now),
    {
        Session {
            holds_handle: true,
            exportable: SessionExport {
                session_id,
                start_time,
                client_conn: client_addr,
                backend_name: None,
                backend_resolve_latency: None,
                backend_resolve_start: None,
                backend_connect_latency: None,
                backend_connect_start: None,
                state: SessionState::Handshaking,
                last_xmit: now,
                bytes_client_to_backend: 0,
                bytes_backend_to_client: 0,
            },
        }
    }
}

/// A new session.
pub open spec fn new_session_view(start_time: u64, client: SocketAddrPair, now: u64) -> SessionView {
    SessionView {
        holds_handle: true,
        start_time,
        client_conn: client,
        backend_name: None,
        backend_resolve_start: None,
        backend_resolve_latency: None,
        backend_connect_start: None,
        backend_connect_latency: None,
        state: SessionState::Handshaking,
        last_xmit: now,
        bytes_client_to_backend: 0,
        bytes_backend_to_client: 0,
    }
}

/// The table as plain values: the sessions by id, the removal queue from
/// (deadline, tie-break) to id, and the next tie-break number.
pub struct ManagerView {
    pub sessions: Map<SessionId, SessionView>,
    pub removal_queue: Map<(u64, u32), SessionId>,
    pub tie_break_ctr: u32,
}

/// The table of sessions.
pub struct SessionManager {
    sessions: Vec<Session>,
    removal_queue: Vec<((u64, u32), SessionId)>,
    tie_break_ctr: u32,
}

/// The map from id to session that `s` holds.
pub open spec fn sessions_map(s: Seq<Session>) -> Map<SessionId, SessionView> {
    Map::new(
        |id: SessionId| exists|i: int| 0 <= i < s.len() && s[i].exportable.session_id == id,
        |id: SessionId|
            session_view(
                s[choose|i: int| 0 <= i < s.len() && s[i].exportable.session_id == id],
            ),
    )
}

/// The map from key to id that `q` holds.
pub open spec fn queue_map(q: Seq<((u64, u32), SessionId)>) -> Map<(u64, u32), SessionId> {
    Map::new(
        |k: (u64, u32)| exists|i: int| 0 <= i < q.len() && q[i].0 == k,
        |k: (u64, u32)| q[choose|i: int| 0 <= i < q.len() && q[i].0 == k].1,
    )
}

/// Whether the removal key `k` sorts before `(now, u32::MAX)`: its deadline
/// has passed, or is now.
pub open spec fn due(k: (u64, u32), now: u64) -> bool {
    k.0 < now || (k.0 == now && k.1 < 0xFFFF_FFFF)
}

/// The table once every session whose removal is due by `now` is forgotten.
pub open spec fn spec_cleanup(v: ManagerView, now: u64) -> ManagerView {
    let gone = |id: SessionId|
        exists|k: (u64, u32)| v.removal_queue.contains_key(k) && due(k, now) && v.removal_queue[k]
            == id;
    ManagerView {
        sessions: v.sessions.restrict(v.sessions.dom().filter(|id: SessionId| !gone(id))),
        removal_queue: v.removal_queue.restrict(
            v.removal_queue.dom().filter(|k: (u64, u32)| !due(k, now)),
        ),
        tie_break_ctr: v.tie_break_ctr,
    }
}

/// The table with `id`'s removal queued thirty seconds after `now`.
pub open spec fn spec_enqueue(v: ManagerView, id: SessionId, now: u64) -> ManagerView {
    ManagerView {
        sessions: v.sessions,
        removal_queue: v.removal_queue.insert(((now + 30000) as u64, v.tie_break_ctr), id),
        tie_break_ctr: ((v.tie_break_ctr + 1) % 0x8000_0000) as u32,
    }
}

/// The table with the session `id` changed to `s`.
pub open spec fn with_session(v: ManagerView, id: SessionId, s: SessionView) -> ManagerView {
    ManagerView { sessions: v.sessions.insert(id, s), ..v }
}

/// Marking that `id` resolves the backend `name`.
pub open spec fn spec_mark_backend_resolving(
    v: ManagerView,
    id: SessionId,
    name: Seq<char>,
    now: u64,
) -> ManagerView {
    let s = v.sessions[id];
    spec_cleanup(
        with_session(
            v,
            id,
            SessionView {
                state: SessionState::BackendResolving,
                backend_name: Some(name),
                backend_resolve_start: Some(now),
                ..s
            },
        ),
        now,
    )
}

/// The time from `start` to `now`, zero where `now` comes first.
pub open spec fn elapsed(start: u64, now: u64) -> u64 {
    if now >= start {
        (now - start) as u64
    } else {
        0
    }
}

/// Marking that `id` connects to its backend.
pub open spec fn spec_mark_backend_connecting(v: ManagerView, id: SessionId, now: u64) -> ManagerView {
    let s = v.sessions[id];
    spec_cleanup(
        with_session(
            v,
            id,
            SessionView {
                state: SessionState::BackendConnecting,
                backend_connect_start: Some(now),
                backend_resolve_latency: match s.backend_resolve_start {
                    Some(st) => Some(elapsed(st, now)),
                    None => s.backend_resolve_latency,
                },
                ..s
            },
        ),
        now,
    )
}

/// Marking that `id` is connected.
pub open spec fn spec_mark_connected(v: ManagerView, id: SessionId, now: u64) -> ManagerView {
    let s = v.sessions[id];
    spec_cleanup(
        with_session(
            v,
            id,
            SessionView {
                state: SessionState::Connected,
                backend_connect_latency: match s.backend_connect_start {
                    Some(st) => Some(elapsed(st, now)),
                    None => s.backend_connect_latency,
                },
                ..s
            },
        ),
        now,
    )
}

/// Marking that the backend of `id` closed its side: a session whose client
/// side was closed is shut down and queued for removal.
pub open spec fn spec_mark_shutdown_read(v: ManagerView, id: SessionId, now: u64) -> ManagerView {
    let s = v.sessions[id];
    if s.state == SessionState::ShutdownWrite {
        spec_cleanup(
            spec_enqueue(with_session(v, id, SessionView { state: SessionState::Shutdown, ..s }), id, now),
            now,
        )
    } else {
        spec_cleanup(with_session(v, id, SessionView { state: SessionState::ShutdownRead, ..s }), now)
    }
}

/// Marking that the client of `id` closed its side: a session whose backend
/// side was closed is shut down and queued for removal.
pub open spec fn spec_mark_shutdown_write(v: ManagerView, id: SessionId, now: u64) -> ManagerView {
    let s = v.sessions[id];
    if s.state == SessionState::ShutdownRead {
        spec_cleanup(
            spec_enqueue(with_session(v, id, SessionView { state: SessionState::Shutdown, ..s }), id, now),
            now,
        )
    } else {
        spec_cleanup(with_session(v, id, SessionView { state: SessionState::ShutdownWrite, ..s }), now)
    }
}

/// Marking that `id` is shut down, and queueing its removal.
pub open spec fn spec_mark_shutdown(v: ManagerView, id: SessionId, now: u64) -> ManagerView {
    let s = v.sessions[id];
    spec_cleanup(
        spec_enqueue(with_session(v, id, SessionView { state: SessionState::Shutdown, ..s }), id, now),
        now,
    )
}

/// The way bytes go through a session.
#[derive(Debug, Clone, Copy, PartialEq, Eq, Structural)]
pub enum Direction {
    BackendToClient,
    ClientToBackend,
}

/// The end of a proxied connection that was read from.
#[derive(Debug, Clone, Copy, PartialEq, Eq, Structural)]
pub enum ReadSide {
    Backend,
    Client,
}

/// What a read of `length` bytes from `side` does to session `id`: an empty
/// read from the backend marks the read half shut and one from the client
/// the write half; bytes read from the backend count as sent from client to
/// backend, and bytes read from the client as sent from backend to client.
pub open spec fn spec_after_read(v: ManagerView, side: ReadSide, id: SessionId, length: u64, now: u64)
    -> ManagerView {
    match side {
        ReadSide::Backend => if length == 0 {
            spec_mark_shutdown_read(v, id, now)
        } else {
            spec_xmit_client_to_backend(v, id, length, now)
        },
        ReadSide::Client => if length == 0 {
            spec_mark_shutdown_write(v, id, now)
        } else {
            spec_xmit_backend_to_client(v, id, length, now)
        },
    }
}

/// The counter that a non-empty read from `side` adds to, as it stands in `v`.
pub open spec fn read_counter(v: ManagerView, side: ReadSide, id: SessionId) -> int {
    match side {
        ReadSide::Backend => v.sessions[id].bytes_client_to_backend as int,
        ReadSide::Client => v.sessions[id].bytes_backend_to_client as int,
    }
}

/// The counter of session `id` that bytes going `direction` add to:
/// bytes from the backend count towards the client, and the other way round.
pub open spec fn spec_xmit(v: ManagerView, direction: Direction, id: SessionId, bytes: u64, now: u64)
    -> ManagerView {
    match direction {
        Direction::BackendToClient => spec_xmit_backend_to_client(v, id, bytes, now),
        Direction::ClientToBackend => spec_xmit_client_to_backend(v, id, bytes, now),
    }
}

/// The counter that bytes going `direction` add to, as it stands in `v`.
pub open spec fn xmit_counter(v: ManagerView, direction: Direction, id: SessionId) -> int {
    match direction {
        Direction::BackendToClient => v.sessions[id].bytes_backend_to_client as int,
        Direction::ClientToBackend => v.sessions[id].bytes_client_to_backend as int,
    }
}

/// Counting `bytes` sent from the backend to the client of `id`.
pub open spec fn spec_xmit_backend_to_client(
    v: ManagerView,
    id: SessionId,
    bytes: u64,
    now: u64,
) -> ManagerView {
    let s = v.sessions[id];
    spec_cleanup(
        with_session(
            v,
            id,
            SessionView {
                bytes_backend_to_client: (s.bytes_backend_to_client + bytes) as u64,
                last_xmit: now,
                ..s
            },
        ),
        now,
    )
}

/// Counting `bytes` sent from the client of `id` to its backend.
pub open spec fn spec_xmit_client_to_backend(
    v: ManagerView,
    id: SessionId,
    bytes: u64,
    now: u64,
) -> ManagerView {
    let s = v.sessions[id];
    spec_cleanup(
        with_session(
            v,
            id,
            SessionView {
                bytes_client_to_backend: (s.bytes_client_to_backend + bytes) as u64,
                last_xmit: now,
                ..s
            },
        ),
        now,
    )
}

/// The index of the session `id` in `s`, if it is there.
pub open spec fn index_of(s: Seq<Session>, id: SessionId) -> Option<int> {
    if exists|i: int| 0 <= i < s.len() && s[i].exportable.session_id == id {
        Some(choose|i: int| 0 <= i < s.len() && s[i].exportable.session_id == id)
    } else {
        None
    }
}

impl SessionManager {
    /// The table as plain values.
    pub closed spec fn view(&self) -> ManagerView {
        ManagerView {
            sessions: sessions_map(self.sessions@),
            removal_queue: queue_map(self.removal_queue@),
            tie_break_ctr: self.tie_break_ctr,
        }
    }

    /// Whether no id and no removal key occurs twice, and the tie-break number
    /// stays below `2^31`.
    pub closed spec fn wf(&self) -> bool {
        &&& forall|i: int, j: int|
            0 <= i < j < self.sessions@.len() ==> (#[trigger] self.sessions@[i]).exportable.session_id
                != (#[trigger] self.sessions@[j]).exportable.session_id
        &&& forall|i: int, j: int|
            0 <= i < j < self.removal_queue@.len() ==> (#[trigger] self.removal_queue@[i]).0 != (
            #[trigger] self.removal_queue@[j]).0
        &&& self.tie_break_ctr < 0x8000_0000
    }

    /// An empty table.
    pub fn new() -> (r: SessionManager)
        ensures
            r.wf(),
            r.view().sessions == Map::<SessionId, SessionView>::empty(),
            r.view().removal_queue == Map::<(u64, u32), SessionId>::empty(),
            r.view().tie_break_ctr == 0,
    {
        let r = SessionManager { sessions: Vec::new(), removal_queue: Vec::new(), tie_break_ctr: 0 };
        assert(r.view().sessions =~= Map::<SessionId, SessionView>::empty());
        assert(r.view().removal_queue =~= Map::<(u64, u32), SessionId>::empty());
        r
    }

    /// The index of the session `id`.
    fn find(&self, id: &SessionId) -> (r: Option<usize>)
        requires
            self.wf(),
        ensures
            match r {
                Some(i) => i < self.sessions@.len() && self.sessions@[i as int].exportable.session_id
                    == *id,
                None => !self.view().sessions.contains_key(*id),
            },
    {
        let mut i: usize = 0;
        while i < self.sessions.len()
            invariant
                0 <= i <= self.sessions@.len(),
                forall|j: int| 0 <= j < i ==> self.sessions@[j].exportable.session_id != *id,
            decreases self.sessions@.len() - i,
        {
            if same_id(&self.sessions[i].exportable.session_id, id) {
                return Some(i);
            }
            i = i + 1;
        }
        None
    }

    /// The session at index `i` is the one the view gives for its id.
    proof fn lemma_at(&self, i: int)
        requires
            self.wf(),
            0 <= i < self.sessions@.len(),
        ensures
            self.view().sessions.contains_key(self.sessions@[i].exportable.session_id),
            self.view().sessions[self.sessions@[i].exportable.session_id] == session_view(
                self.sessions@[i],
            ),
    {
        let id = self.sessions@[i].exportable.session_id;
        let s = self.sessions@;
        assert(exists|j: int| 0 <= j < s.len() && s[j].exportable.session_id == id);
        let c = choose|j: int| 0 <= j < s.len() && s[j].exportable.session_id == id;
        if c != i {
            if c < i {
                assert(s[c].exportable.session_id != s[i].exportable.session_id);
            } else {
                assert(s[i].exportable.session_id != s[c].exportable.session_id);
            }
        }
    }

    /// Adds `session`, replacing any session with the same id.
    pub fn add_session(&mut self, session: Session)
        requires
            old(self).wf(),
        ensures
            final(self).wf(),
            final(self).view() == with_session(
                old(self).view(),
                session.exportable.session_id,
                session_view(session),
            ),
    {
        let id = session.exportable.session_id;
        let ghost sv = session_view(session);
        match self.find(&id) {
            Some(i) => {
                self.sessions.set(i, session);
                proof {
                    self.lemma_after_set(old(self), i as int, id, sv);
                }
            },
            None => {
                self.sessions.push(session);
                proof {
                    self.lemma_after_push(old(self), id, sv);
                }
            },
        }
    }

    /// After replacing the session at `i`, the view changes at its id alone.
    proof fn lemma_after_set(&self, pre: &SessionManager, i: int, id: SessionId, sv: SessionView)
        requires
            pre.wf(),
            0 <= i < pre.sessions@.len(),
            pre.sessions@[i].exportable.session_id == id,
            self.sessions@.len() == pre.sessions@.len(),
            self.sessions@[i].exportable.session_id == id,
            session_view(self.sessions@[i]) == sv,
            forall|j: int| 0 <= j < pre.sessions@.len() && j != i ==> self.sessions@[j] == pre.sessions@[j],
            self.removal_queue@ == pre.removal_queue@,
            self.tie_break_ctr == pre.tie_break_ctr,
        ensures
            self.wf(),
            self.view() == with_session(pre.view(), id, sv),
    {
        let s = self.sessions@;
        let p = pre.sessions@;
        assert forall|a: int, b: int| 0 <= a < b < s.len() implies (#[trigger] s[a]).exportable.session_id
            != (#[trigger] s[b]).exportable.session_id by {
            let pa = p[a];
            let pb = p[b];
            assert(pa.exportable.session_id != pb.exportable.session_id);
        }
        assert forall|k: SessionId| #[trigger] self.view().sessions.contains_key(k) <==> with_session(
            pre.view(),
            id,
            sv,
        ).sessions.contains_key(k) by {
            if exists|j: int| 0 <= j < s.len() && s[j].exportable.session_id == k {
                let j = choose|j: int| 0 <= j < s.len() && s[j].exportable.session_id == k;
                if j != i {
                    assert(p[j].exportable.session_id == k);
                }
            }
            if exists|j: int| 0 <= j < p.len() && p[j].exportable.session_id == k {
                let j = choose|j: int| 0 <= j < p.len() && p[j].exportable.session_id == k;
                assert(s[j].exportable.session_id == k);
            }
            if k == id {
                assert(s[i].exportable.session_id == k);
            }
        }
        assert forall|k: SessionId| #[trigger] self.view().sessions.contains_key(k) implies self.view().sessions[k]
            == with_session(pre.view(), id, sv).sessions[k] by {
            let j = choose|j: int| 0 <= j < s.len() && s[j].exportable.session_id == k;
            self.lemma_at(j);
            if j != i {
                pre.lemma_at(j);
            }
        }
        assert(self.view().sessions =~= with_session(pre.view(), id, sv).sessions);
    }

    /// After appending a session with a new id, the view gains it.
    proof fn lemma_after_push(&self, pre: &SessionManager, id: SessionId, sv: SessionView)
        requires
            pre.wf(),
            !pre.view().sessions.contains_key(id),
            self.sessions@ == pre.sessions@.push(self.sessions@.last()),
            self.sessions@.last().exportable.session_id == id,
            session_view(self.sessions@.last()) == sv,
            self.removal_queue@ == pre.removal_queue@,
            self.tie_break_ctr == pre.tie_break_ctr,
        ensures
            self.wf(),
            self.view() == with_session(pre.view(), id, sv),
    {
        let s = self.sessions@;
        let p = pre.sessions@;
        let n = p.len() as int;
        assert forall|a: int, b: int| 0 <= a < b < s.len() implies (#[trigger] s[a]).exportable.session_id
            != (#[trigger] s[b]).exportable.session_id by {
            if b < n {
                assert(s[a] == p[a] && s[b] == p[b]);
            } else {
                assert(s[a] == p[a]);
                if p[a].exportable.session_id == id {
                    assert(pre.view().sessions.contains_key(id));
                }
            }
        }
        assert forall|k: SessionId| #[trigger] self.view().sessions.contains_key(k) <==> with_session(
            pre.view(),
            id,
            sv,
        ).sessions.contains_key(k) by {
            if exists|j: int| 0 <= j < s.len() && s[j].exportable.session_id == k {
                let j = choose|j: int| 0 <= j < s.len() && s[j].exportable.session_id == k;
                if j < n {
                    assert(p[j].exportable.session_id == k);
                }
            }
            if exists|j: int| 0 <= j < p.len() && p[j].exportable.session_id == k {
                let j = choose|j: int| 0 <= j < p.len() && p[j].exportable.session_id == k;
                assert(s[j].exportable.session_id == k);
            }
            if k == id {
                assert(s[n].exportable.session_id == k);
            }
        }
        assert forall|k: SessionId| #[trigger] self.view().sessions.contains_key(k) implies self.view().sessions[k]
            == with_session(pre.view(), id, sv).sessions[k] by {
            let j = choose|j: int| 0 <= j < s.len() && s[j].exportable.session_id == k;
            self.lemma_at(j);
            if j < n {
                assert(s[j] == p[j]);
                pre.lemma_at(j);
            }
        }
        assert(self.view().sessions =~= with_session(pre.view(), id, sv).sessions);
    }

    /// Lets go of the cancellation handle of `id`, which ends its connection:
    /// `Ok` where the session exists and the handle was still held.
    pub fn destroy(&mut self, id: &SessionId) -> (r: Result<(), ()>)
        requires
            old(self).wf(),
        ensures
            final(self).wf(),
            r is Ok <==> old(self).view().sessions.contains_key(*id) && old(self).view().sessions[*id].holds_handle,
            r is Ok ==> final(self).view() == with_session(
                old(self).view(),
                *id,
                SessionView { holds_handle: false, ..old(self).view().sessions[*id] },
            ),
            r is Err ==> final(self).view() == old(self).view(),
    {
        match self.find(id) {
            Some(i) => {
                proof {
                    self.lemma_at(i as int);
                }
                if self.sessions[i].holds_handle {
                    let ghost sv = SessionView {
                        holds_handle: false,
                        ..session_view(self.sessions@[i as int])
                    };
                    let mut s = self.sessions.remove(i);
                    s.holds_handle = false;
                    self.sessions.insert(i, s);
                    proof {
                        self.lemma_after_set(old(self), i as int, *id, sv);
                    }
                    Ok(())
                } else {
                    Err(())
                }
            },
            None => Err(()),
        }
    }

    /// Forgets every session whose removal is due by `now`.
    fn cleanup(&mut self, now: u64)
        requires
            old(self).wf(),
        ensures
            final(self).wf(),
            final(self).view() == spec_cleanup(old(self).view(), now),
    {
        let ghost pre = self.view();
        let mut kept: Vec<((u64, u32), SessionId)> = Vec::new();
        let mut gone: Vec<SessionId> = Vec::new();
        let mut q = Vec::new();
        std::mem::swap(&mut q, &mut self.removal_queue);
        let ghost all_q = q@;
        assert(pre.removal_queue == queue_map(all_q));
        let mut i: usize = 0;
        while i < q.len()
            invariant
                q@ == all_q,
                0 <= i <= all_q.len(),
                forall|a: int, b: int|
                    0 <= a < b < all_q.len() ==> (#[trigger] all_q[a]).0 != (#[trigger] all_q[b]).0,
                forall|a: int| 0 <= a < kept@.len() ==> !due(#[trigger] kept@[a].0, now),
                forall|a: int, b: int|
                    0 <= a < b < kept@.len() ==> (#[trigger] kept@[a]).0 != (#[trigger] kept@[b]).0,
                forall|a: int|
                    0 <= a < kept@.len() ==> exists|c: int|
                        0 <= c < i && all_q[c] == #[trigger] kept@[a],
                forall|c: int|
                    0 <= c < i && !due(all_q[c].0, now) ==> #[trigger] kept@.contains(all_q[c]),
                forall|id: SessionId|
                    #[trigger] gone@.contains(id) <==> (exists|a: int|
                        0 <= a < i && all_q[a].1 == id && due(all_q[a].0, now)),
            decreases all_q.len() - i,
        {
            let e = q[i];
            if e.0.0 < now || (e.0.0 == now && e.0.1 < 0xFFFF_FFFF) {
                let ghost g0 = gone@;
                gone.push(e.1);
                proof {
                    assert(gone@ == g0.push(e.1));
                    assert forall|id: SessionId|
                        #[trigger] gone@.contains(id) <==> (exists|a: int|
                            0 <= a < i + 1 && all_q[a].1 == id && due(all_q[a].0, now)) by {
                        if id == e.1 {
                            assert(gone@[gone@.len() - 1] == id);
                            assert(all_q[i as int].1 == id && due(all_q[i as int].0, now));
                        } else {
                            if gone@.contains(id) {
                                let k = choose|k: int| 0 <= k < gone@.len() && gone@[k] == id;
                                assert(g0[k] == id);
                                assert(g0.contains(id));
                            }
                            if exists|a: int|
                                0 <= a < i + 1 && all_q[a].1 == id && due(all_q[a].0, now) {
                                let a = choose|a: int|
                                    0 <= a < i + 1 && all_q[a].1 == id && due(all_q[a].0, now);
                                assert(a < i);
                                assert(g0.contains(id));
                                let k = choose|k: int| 0 <= k < g0.len() && g0[k] == id;
                                assert(gone@[k] == id);
                            }
                        }
                    }
                }
            } else {
                proof {
                    assert forall|a: int| 0 <= a < kept@.len() implies kept@[a].0 != e.0 by {
                        let c = choose|c: int| 0 <= c < i && all_q[c] == kept@[a];
                        assert(all_q[c].0 != all_q[i as int].0);
                    }
                }
                let ghost before = kept@;
                kept.push(e);
                proof {
                    assert forall|c: int|
                        0 <= c < i + 1 && !due(all_q[c].0, now) implies #[trigger] kept@.contains(
                        all_q[c],
                    ) by {
                        if c < i {
                            assert(before.contains(all_q[c]));
                            let k = choose|k: int| 0 <= k < before.len() && before[k] == all_q[c];
                            assert(kept@[k] == all_q[c]);
                        } else {
                            assert(kept@[kept@.len() - 1] == all_q[c]);
                        }
                    }
                    assert forall|a: int|
                        0 <= a < kept@.len() implies exists|c: int|
                        0 <= c < i + 1 && all_q[c] == #[trigger] kept@[a] by {
                        if a < before.len() {
                            assert(kept@[a] == before[a]);
                        } else {
                            assert(all_q[i as int] == kept@[a]);
                        }
                    }
                }
            }
            i = i + 1;
        }
        self.removal_queue = kept;
        proof {
            let kq = self.removal_queue@;
            let target = spec_cleanup(pre, now).removal_queue;
            assert forall|k: (u64, u32)| #[trigger] queue_map(kq).contains_key(k) <==> target.contains_key(
                k,
            ) by {
                if queue_map(kq).contains_key(k) {
                    let a = choose|a: int| 0 <= a < kq.len() && kq[a].0 == k;
                    let c = choose|c: int| 0 <= c < all_q.len() && all_q[c] == kq[a];
                    assert(queue_map(all_q).contains_key(k));
                }
                if target.contains_key(k) {
                    let c = choose|c: int| 0 <= c < all_q.len() && all_q[c].0 == k;
                    assert(kq.contains(all_q[c]));
                    let a = choose|a: int| 0 <= a < kq.len() && kq[a] == all_q[c];
                    assert(kq[a].0 == k);
                }
            }
            assert forall|k: (u64, u32)| #[trigger] queue_map(kq).contains_key(k) implies queue_map(kq)[k]
                == target[k] by {
                let a = choose|a: int| 0 <= a < kq.len() && kq[a].0 == k;
                let c = choose|c: int| 0 <= c < all_q.len() && all_q[c] == kq[a];
                let c2 = choose|c2: int| 0 <= c2 < all_q.len() && all_q[c2].0 == k;
                if c != c2 {
                    if c < c2 {
                        assert(all_q[c].0 != all_q[c2].0);
                    } else {
                        assert(all_q[c2].0 != all_q[c].0);
                    }
                }
            }
            assert(queue_map(kq) =~= target);
        }
        let mut sessions = Vec::new();
        std::mem::swap(&mut sessions, &mut self.sessions);
        let ghost all_s = sessions@;
        assert(pre.sessions == sessions_map(all_s));
        let mut rest: Vec<Session> = Vec::new();
        while sessions.len() > 0
            invariant
                sessions@.len() <= all_s.len(),
                sessions@ == all_s.take(sessions@.len() as int),
                forall|a: int, b: int|
                    0 <= a < b < all_s.len() ==> (#[trigger] all_s[a]).exportable.session_id != (
                    #[trigger] all_s[b]).exportable.session_id,
                forall|a: int, b: int|
                    0 <= a < b < rest@.len() ==> (#[trigger] rest@[a]).exportable.session_id != (
                    #[trigger] rest@[b]).exportable.session_id,
                forall|a: int|
                    0 <= a < rest@.len() ==> exists|c: int|
                        sessions@.len() <= c < all_s.len() && all_s[c] == #[trigger] rest@[a],
                forall|a: int|
                    0 <= a < rest@.len() ==> !gone@.contains(#[trigger] rest@[a].exportable.session_id),
                forall|c: int|
                    sessions@.len() <= c < all_s.len() && !gone@.contains(
                        all_s[c].exportable.session_id,
                    ) ==> #[trigger] rest@.contains(all_s[c]),
            decreases sessions@.len(),
        {
            let ghost n = sessions@.len() as int;
            let s = sessions.pop().unwrap();
            assert(s == all_s[n - 1]);
            assert(sessions@ =~= all_s.take(n - 1));
            if !contains_id(&gone, &s.exportable.session_id) {
                let ghost before = rest@;
                proof {
                    assert forall|a: int| 0 <= a < before.len() implies before[a].exportable.session_id
                        != s.exportable.session_id by {
                        let c = choose|c: int| n <= c < all_s.len() && all_s[c] == before[a];
                        assert(all_s[n - 1].exportable.session_id != all_s[c].exportable.session_id);
                    }
                }
                rest.push(s);
                proof {
                    assert forall|c: int|
                        n - 1 <= c < all_s.len() && !gone@.contains(
                            all_s[c].exportable.session_id,
                        ) implies #[trigger] rest@.contains(all_s[c]) by {
                        if c == n - 1 {
                            assert(rest@[rest@.len() - 1] == all_s[c]);
                        } else {
                            assert(before.contains(all_s[c]));
                            let k = choose|k: int| 0 <= k < before.len() && before[k] == all_s[c];
                            assert(rest@[k] == all_s[c]);
                        }
                    }
                    assert forall|a: int|
                        0 <= a < rest@.len() implies exists|c: int|
                        n - 1 <= c < all_s.len() && all_s[c] == #[trigger] rest@[a] by {
                        if a < before.len() {
                            assert(rest@[a] == before[a]);
                        } else {
                            assert(all_s[n - 1] == rest@[a]);
                        }
                    }
                }
            }
        }
        self.sessions = rest;
        proof {
            let r = self.sessions@;
            assert(all_s.take(0) =~= Seq::<Session>::empty());
            let target = spec_cleanup(pre, now).sessions;
            assert forall|id: SessionId|
                #[trigger] gone@.contains(id) <==> (exists|k: (u64, u32)|
                    pre.removal_queue.contains_key(k) && due(k, now) && pre.removal_queue[k]
                        == id) by {
                if gone@.contains(id) {
                    let a = choose|a: int|
                        0 <= a < all_q.len() && all_q[a].1 == id && due(all_q[a].0, now);
                    let k = all_q[a].0;
                    assert(queue_map(all_q).contains_key(k));
                    let c = choose|c: int| 0 <= c < all_q.len() && all_q[c].0 == k;
                    if c != a {
                        if c < a {
                            assert(all_q[c].0 != all_q[a].0);
                        } else {
                            assert(all_q[a].0 != all_q[c].0);
                        }
                    }
                }
                if exists|k: (u64, u32)|
                    pre.removal_queue.contains_key(k) && due(k, now) && pre.removal_queue[k] == id {
                    let k = choose|k: (u64, u32)|
                        pre.removal_queue.contains_key(k) && due(k, now) && pre.removal_queue[k] == id;
                    let c = choose|c: int| 0 <= c < all_q.len() && all_q[c].0 == k;
                    assert(all_q[c].1 == id);
                }
            }
            assert forall|id: SessionId| #[trigger] sessions_map(r).contains_key(id) <==> target.contains_key(
                id,
            ) by {
                if sessions_map(r).contains_key(id) {
                    let a = choose|a: int| 0 <= a < r.len() && r[a].exportable.session_id == id;
                    let c = choose|c: int| 0 <= c < all_s.len() && all_s[c] == r[a];
                    assert(sessions_map(all_s).contains_key(id));
                    assert(!gone@.contains(r[a].exportable.session_id));
                }
                if target.contains_key(id) {
                    let c = choose|c: int| 0 <= c < all_s.len() && all_s[c].exportable.session_id == id;
                    assert(r.contains(all_s[c]));
                    let a = choose|a: int| 0 <= a < r.len() && r[a] == all_s[c];
                    assert(r[a].exportable.session_id == id);
                }
            }
            assert forall|id: SessionId| #[trigger] sessions_map(r).contains_key(id) implies sessions_map(
                r,
            )[id] == target[id] by {
                let a = choose|a: int| 0 <= a < r.len() && r[a].exportable.session_id == id;
                let c = choose|c: int| 0 <= c < all_s.len() && all_s[c] == r[a];
                let c2 = choose|c2: int| 0 <= c2 < all_s.len() && all_s[c2].exportable.session_id == id;
                if c != c2 {
                    if c < c2 {
                        assert(all_s[c].exportable.session_id != all_s[c2].exportable.session_id);
                    } else {
                        assert(all_s[c2].exportable.session_id != all_s[c].exportable.session_id);
                    }
                }
                let a2 = choose|a2: int| 0 <= a2 < r.len() && r[a2].exportable.session_id == id;
                if a != a2 {
                    if a < a2 {
                        assert(r[a].exportable.session_id != r[a2].exportable.session_id);
                    } else {
                        assert(r[a2].exportable.session_id != r[a].exportable.session_id);
                    }
                }
            }
            assert(sessions_map(r) =~= target);
            assert(self.view().sessions == spec_cleanup(pre, now).sessions);
            assert(self.view().removal_queue == spec_cleanup(pre, now).removal_queue);
            assert(self.view().tie_break_ctr == spec_cleanup(pre, now).tie_break_ctr);
        }
    }
}

impl SessionManager {
    /// Whether the table holds the session `id`.
    pub open spec fn has(&self, id: SessionId) -> bool {
        self.view().sessions.contains_key(id)
    }

    /// Queues the removal of `id` thirty seconds after `now`.
    fn enqueue(&mut self, id: SessionId, now: u64)
        requires
            old(self).wf(),
            now + 30000 <= u64::MAX,
        ensures
            final(self).wf(),
            final(self).view() == spec_enqueue(old(self).view(), id, now),
    {
        let key: (u64, u32) = (now + 30000, self.tie_break_ctr);
        let c = self.tie_break_ctr + 1;
        let masked = c & 0x7FFF_FFFF;
        assert(masked == c % 0x8000_0000 && masked < 0x8000_0000) by (bit_vector)
            requires
                masked == c & 0x7FFF_FFFF,
        ;
        self.tie_break_ctr = masked;
        let ghost q = self.removal_queue@;
        let mut i: usize = 0;
        while i < self.removal_queue.len()
            invariant
                self.removal_queue@ == q,
                0 <= i <= q.len(),
                forall|j: int| 0 <= j < i ==> q[j].0 != key,
            ensures
                self.removal_queue@ == q,
                0 <= i <= q.len(),
                forall|j: int| 0 <= j < i ==> q[j].0 != key,
                i < q.len() ==> q[i as int].0 == key,
            decreases q.len() - i,
        {
            let k = self.removal_queue[i].0;
            if k.0 == key.0 && k.1 == key.1 {
                break;
            }
            i = i + 1;
        }
        if i < self.removal_queue.len() {
            self.removal_queue.set(i, (key, id));
        } else {
            self.removal_queue.push((key, id));
        }
        proof {
            let nq = self.removal_queue@;
            let target = old(self).view().removal_queue.insert(key, id);
            assert(old(self).view().removal_queue == queue_map(q));
            assert forall|a: int, b: int| 0 <= a < b < nq.len() implies (#[trigger] nq[a]).0 != (
            #[trigger] nq[b]).0 by {
                if b < q.len() {
                    if a != i && b != i {
                        assert(nq[a] == q[a] && nq[b] == q[b]);
                    } else if a == i {
                        assert(nq[b] == q[b]);
                        assert(q[a].0 != q[b].0);
                    } else {
                        assert(nq[a] == q[a]);
                        assert(q[a].0 != q[b].0);
                    }
                } else {
                    assert(nq[a] == q[a]);
                }
            }
            assert forall|k: (u64, u32)| #[trigger] queue_map(nq).contains_key(k) <==> target.contains_key(k) by {
                if queue_map(nq).contains_key(k) {
                    let a = choose|a: int| 0 <= a < nq.len() && nq[a].0 == k;
                    if k != key {
                        assert(q[a].0 == k);
                    }
                }
                if queue_map(q).contains_key(k) {
                    let a = choose|a: int| 0 <= a < q.len() && q[a].0 == k;
                    if a != i {
                        assert(nq[a].0 == k);
                    } else {
                        assert(nq[a].0 == key);
                    }
                }
                if k == key {
                    if i < q.len() {
                        assert(nq[i as int].0 == k);
                    } else {
                        assert(nq[q.len() as int].0 == k);
                    }
                }
            }
            assert forall|k: (u64, u32)| #[trigger] queue_map(nq).contains_key(k) implies queue_map(nq)[k]
                == target[k] by {
                let a = choose|a: int| 0 <= a < nq.len() && nq[a].0 == k;
                if k == key {
                    if a != i && a < q.len() {
                        assert(q[a].0 == key);
                        assert(false);
                    }
                } else {
                    assert(nq[a] == q[a]);
                    let b = choose|b: int| 0 <= b < q.len() && q[b].0 == k;
                    if a != b {
                        if a < b {
                            assert(q[a].0 != q[b].0);
                        } else {
                            assert(q[b].0 != q[a].0);
                        }
                    }
                }
            }
            assert(queue_map(nq) =~= target);
            assert(self.view().sessions == old(self).view().sessions);
        }
    }

    /// Replaces the session at `i` by `s`.
    fn replace_at(&mut self, i: usize, s: Session)
        requires
            old(self).wf(),
            i < old(self).sessions@.len(),
            s.exportable.session_id == old(self).sessions@[i as int].exportable.session_id,
        ensures
            final(self).wf(),
            final(self).view() == with_session(
                old(self).view(),
                s.exportable.session_id,
                session_view(s),
            ),
    {
        let ghost id = s.exportable.session_id;
        let ghost sv = session_view(s);
        self.sessions.set(i, s);
        proof {
            self.lemma_after_set(old(self), i as int, id, sv);
        }
    }

    /// The index of the session `id`, which the table holds.
    fn index_of_present(&self, id: &SessionId) -> (r: usize)
        requires
            self.wf(),
            self.has(*id),
        ensures
            r < self.sessions@.len(),
            self.sessions@[r as int].exportable.session_id == *id,
            session_view(self.sessions@[r as int]) == self.view().sessions[*id],
    {
        match self.find(id) {
            Some(i) => {
                proof {
                    self.lemma_at(i as int);
                }
                i
            },
            None => {
                assert(false);
                0
            },
        }
    }

    /// Marks that the session `id` resolves the backend `backend_name`.
    pub fn mark_backend_resolving(&mut self, id: &SessionId, backend_name: &str, now: u64)
        requires
            old(self).wf(),
            old(self).has(*id),
        ensures
            final(self).wf(),
            final(self).view() == spec_mark_backend_resolving(
                old(self).view(),
                *id,
                backend_name@,
                now,
            ),
    {
        let i = self.index_of_present(id);
        let mut s = self.sessions.remove(i);
        s.exportable.state = SessionState::BackendResolving;
        s.exportable.backend_name = Some(backend_name.to_owned());
        s.exportable.backend_resolve_start = Some(now);
        self.sessions.insert(i, s);
        proof {
            let sv = session_view(self.sessions@[i as int]);
            assert(sv == SessionView {
                state: SessionState::BackendResolving,
                backend_name: Some(backend_name@),
                backend_resolve_start: Some(now),
                ..old(self).view().sessions[*id]
            });
            self.lemma_after_set(old(self), i as int, *id, sv);
        }
        self.cleanup(now);
    }

    /// Marks that the session `id` connects to its backend, and records how
    /// long the backend lookup took.
    pub fn mark_backend_connecting(&mut self, id: &SessionId, now: u64)
        requires
            old(self).wf(),
            old(self).has(*id),
        ensures
            final(self).wf(),
            final(self).view() == spec_mark_backend_connecting(old(self).view(), *id, now),
    {
        let i = self.index_of_present(id);
        let mut s = self.sessions.remove(i);
        s.exportable.state = SessionState::BackendConnecting;
        s.exportable.backend_connect_start = Some(now);
        if let Some(start) = s.exportable.backend_resolve_start {
            s.exportable.backend_resolve_latency = Some(now.saturating_sub(start));
        }
        self.sessions.insert(i, s);
        proof {
            let sv = session_view(self.sessions@[i as int]);
            self.lemma_after_set(old(self), i as int, *id, sv);
        }
        self.cleanup(now);
    }

    /// Marks that the session `id` is connected, and records how long the
    /// connection took.
    pub fn mark_connected(&mut self, id: &SessionId, now: u64)
        requires
            old(self).wf(),
            old(self).has(*id),
        ensures
            final(self).wf(),
            final(self).view() == spec_mark_connected(old(self).view(), *id, now),
    {
        let i = self.index_of_present(id);
        let mut s = self.sessions.remove(i);
        s.exportable.state = SessionState::Connected;
        if let Some(start) = s.exportable.backend_connect_start {
            s.exportable.backend_connect_latency = Some(now.saturating_sub(start));
        }
        self.sessions.insert(i, s);
        proof {
            let sv = session_view(self.sessions@[i as int]);
            self.lemma_after_set(old(self), i as int, *id, sv);
        }
        self.cleanup(now);
    }

    /// Marks that the backend of `id` closed its side; a session whose client
    /// had closed is shut down and its removal queued.
    pub fn mark_shutdown_read(&mut self, id: &SessionId, now: u64)
        requires
            old(self).wf(),
            old(self).has(*id),
            now + 30000 <= u64::MAX,
        ensures
            final(self).wf(),
            final(self).view() == spec_mark_shutdown_read(old(self).view(), *id, now),
    {
        let i = self.index_of_present(id);
        let mut s = self.sessions.remove(i);
        let both = s.exportable.state == SessionState::ShutdownWrite;
        s.exportable.state = if both {
            SessionState::Shutdown
        } else {
            SessionState::ShutdownRead
        };
        self.sessions.insert(i, s);
        proof {
            let sv = session_view(self.sessions@[i as int]);
            self.lemma_after_set(old(self), i as int, *id, sv);
        }
        if both {
            self.enqueue(*id, now);
        }
        self.cleanup(now);
    }

    /// Marks that the client of `id` closed its side; a session whose backend
    /// had closed is shut down and its removal queued.
    pub fn mark_shutdown_write(&mut self, id: &SessionId, now: u64)
        requires
            old(self).wf(),
            old(self).has(*id),
            now + 30000 <= u64::MAX,
        ensures
            final(self).wf(),
            final(self).view() == spec_mark_shutdown_write(old(self).view(), *id, now),
    {
        let i = self.index_of_present(id);
        let mut s = self.sessions.remove(i);
        let both = s.exportable.state == SessionState::ShutdownRead;
        s.exportable.state = if both {
            SessionState::Shutdown
        } else {
            SessionState::ShutdownWrite
        };
        self.sessions.insert(i, s);
        proof {
            let sv = session_view(self.sessions@[i as int]);
            self.lemma_after_set(old(self), i as int, *id, sv);
        }
        if both {
            self.enqueue(*id, now);
        }
        self.cleanup(now);
    }

    /// Marks that the session `id` is shut down, and queues its removal.
    pub fn mark_shutdown(&mut self, id: &SessionId, now: u64)
        requires
            old(self).wf(),
            old(self).has(*id),
            now + 30000 <= u64::MAX,
        ensures
            final(self).wf(),
            final(self).view() == spec_mark_shutdown(old(self).view(), *id, now),
    {
        let i = self.index_of_present(id);
        let mut s = self.sessions.remove(i);
        s.exportable.state = SessionState::Shutdown;
        self.sessions.insert(i, s);
        proof {
            let sv = session_view(self.sessions@[i as int]);
            self.lemma_after_set(old(self), i as int, *id, sv);
        }
        self.enqueue(*id, now);
        self.cleanup(now);
    }

    /// Counts `bytes` sent from the backend to the client of `id`.
    pub fn handle_xmit_backend_to_client(&mut self, id: &SessionId, bytes: u64, now: u64)
        requires
            old(self).wf(),
            old(self).has(*id),
            old(self).view().sessions[*id].bytes_backend_to_client + bytes <= u64::MAX,
        ensures
            final(self).wf(),
            final(self).view() == spec_xmit_backend_to_client(old(self).view(), *id, bytes, now),
    {
        let i = self.index_of_present(id);
        let mut s = self.sessions.remove(i);
        s.exportable.bytes_backend_to_client = s.exportable.bytes_backend_to_client + bytes;
        s.exportable.last_xmit = now;
        self.sessions.insert(i, s);
        proof {
            let sv = session_view(self.sessions@[i as int]);
            self.lemma_after_set(old(self), i as int, *id, sv);
        }
        self.cleanup(now);
    }

    /// Counts `bytes` sent from the client of `id` to its backend.
    pub fn handle_xmit_client_to_backend(&mut self, id: &SessionId, bytes: u64, now: u64)
        requires
            old(self).wf(),
            old(self).has(*id),
            old(self).view().sessions[*id].bytes_client_to_backend + bytes <= u64::MAX,
        ensures
            final(self).wf(),
            final(self).view() == spec_xmit_client_to_backend(old(self).view(), *id, bytes, now),
    {
        let i = self.index_of_present(id);
        let mut s = self.sessions.remove(i);
        s.exportable.bytes_client_to_backend = s.exportable.bytes_client_to_backend + bytes;
        s.exportable.last_xmit = now;
        self.sessions.insert(i, s);
        proof {
            let sv = session_view(self.sessions@[i as int]);
            self.lemma_after_set(old(self), i as int, *id, sv);
        }
        self.cleanup(now);
    }

    /// Counts the record `rec` going `direction` through session `id` at
    /// `now`: its carried bytes are added to the counter of that direction.
    pub fn record_transfer(&mut self, direction: Direction, id: &SessionId, rec: &SniDetectRecord, now: u64)
        requires
            old(self).wf(),
            old(self).has(*id),
            xmit_counter(old(self).view(), direction, *id) + match *rec {
                SniDetectRecord::SniHostname(_) => 0,
                SniDetectRecord::PassThrough(b) => b@.len(),
            } <= u64::MAX,
        ensures
            final(self).wf(),
            final(self).view() == spec_xmit(
                old(self).view(),
                direction,
                *id,
                match *rec {
                    SniDetectRecord::SniHostname(_) => 0,
                    SniDetectRecord::PassThrough(b) => b@.len() as u64,
                },
                now,
            ),
    {
        let bytes = rec.rec_byte_size();
        match direction {
            Direction::BackendToClient => self.handle_xmit_backend_to_client(id, bytes, now),
            Direction::ClientToBackend => self.handle_xmit_client_to_backend(id, bytes, now),
        }
    }

    /// Records a read of `length` bytes from `side` of session `id`'s
    /// connection at `now`, as `spec_after_read` says, and answers whether
    /// that side is now closed for reading.
    pub fn after_read(&mut self, side: ReadSide, id: &SessionId, length: u64, now: u64) -> (r: bool)
        requires
            old(self).wf(),
            old(self).has(*id),
            now + 30000 <= u64::MAX,
            read_counter(old(self).view(), side, *id) + length <= u64::MAX,
        ensures
            r == (length == 0),
            final(self).wf(),
            final(self).view() == spec_after_read(old(self).view(), side, *id, length, now),
    {
        match side {
            ReadSide::Backend => {
                if length == 0 {
                    self.mark_shutdown_read(id, now);
                } else {
                    self.handle_xmit_client_to_backend(id, length, now);
                }
            },
            ReadSide::Client => {
                if length == 0 {
                    self.mark_shutdown_write(id, now);
                } else {
                    self.handle_xmit_backend_to_client(id, length, now);
                }
            },
        }
        length == 0
    }

    /// What is known of every session.
    pub fn get_sessions(&self) -> (r: Vec<SessionExport>)
        requires
            self.wf(),
        ensures
            r@.len() == self.view().sessions.len(),
            forall|id: SessionId|
                #[trigger] self.view().sessions.contains_key(id) <==> exists|i: int|
                    0 <= i < r@.len() && r@[i].session_id == id,
            forall|i: int|
                0 <= i < r@.len() ==> {
                    let v = self.view().sessions[#[trigger] r@[i].session_id];
                    &&& self.view().sessions.contains_key(r@[i].session_id)
                    &&& session_view(Session { holds_handle: v.holds_handle, exportable: r@[i] })
                        == v
                },
    {
        let mut out: Vec<SessionExport> = Vec::new();
        let mut i: usize = 0;
        while i < self.sessions.len()
            invariant
                self.wf(),
                0 <= i <= self.sessions@.len(),
                out@.len() == i,
                forall|j: int|
                    0 <= j < i ==> (#[trigger] out@[j]).session_id
                        == self.sessions@[j].exportable.session_id && session_view(
                        Session { holds_handle: self.sessions@[j].holds_handle, exportable: out@[j] },
                    ) == session_view(self.sessions@[j]),
            decreases self.sessions@.len() - i,
        {
            let e = SessionExport::from_session(&self.sessions[i]);
            out.push(e);
            i = i + 1;
        }
        proof {
            self.lemma_len();
            let s = self.sessions@;
            assert forall|id: SessionId|
                #[trigger] self.view().sessions.contains_key(id) <==> exists|i: int|
                    0 <= i < out@.len() && out@[i].session_id == id by {
                if self.view().sessions.contains_key(id) {
                    let j = choose|j: int| 0 <= j < s.len() && s[j].exportable.session_id == id;
                    assert(out@[j].session_id == id);
                }
                if exists|i: int| 0 <= i < out@.len() && out@[i].session_id == id {
                    let j = choose|j: int| 0 <= j < out@.len() && out@[j].session_id == id;
                    assert(s[j].exportable.session_id == id);
                }
            }
            assert forall|i: int| 0 <= i < out@.len() implies {
                let v = self.view().sessions[#[trigger] out@[i].session_id];
                &&& self.view().sessions.contains_key(out@[i].session_id)
                &&& session_view(Session { holds_handle: v.holds_handle, exportable: out@[i] }) == v
            } by {
                self.lemma_at(i);
            }
        }
        out
    }

    /// The table holds as many sessions as its list.
    proof fn lemma_len(&self)
        requires
            self.wf(),
        ensures
            self.view().sessions.len() == self.sessions@.len(),
    {
        let s = self.sessions@;
        let m = self.view().sessions;
        let ids = s.map_values(|x: Session| x.exportable.session_id);
        assert(ids.no_duplicates()) by {
            assert forall|a: int, b: int| 0 <= a < ids.len() && 0 <= b < ids.len() && a != b implies ids[a]
                != ids[b] by {
                if a < b {
                    assert(s[a].exportable.session_id != s[b].exportable.session_id);
                } else {
                    assert(s[b].exportable.session_id != s[a].exportable.session_id);
                }
            }
        }
        assert(m.dom() =~= ids.to_set()) by {
            assert forall|id: SessionId| m.dom().contains(id) <==> ids.to_set().contains(id) by {
                if m.dom().contains(id) {
                    let j = choose|j: int| 0 <= j < s.len() && s[j].exportable.session_id == id;
                    assert(ids[j] == id);
                }
                if ids.to_set().contains(id) {
                    let j = choose|j: int| 0 <= j < ids.len() && ids[j] == id;
                    assert(s[j].exportable.session_id == id);
                }
            }
        }
        ids.unique_seq_to_set();
    }
}

impl SessionExport {
    /// What is known of `session`: a copy of its exported record.
    pub fn from_session(session: &Session) -> (r: SessionExport)
        ensures
            r.session_id == session.exportable.session_id,
            forall|h: bool|
                session_view(Session { holds_handle: h, exportable: r }) == session_view(
                    Session { holds_handle: h, exportable: session.exportable },
                ),
    {
        copy_export(&session.exportable)
    }
}

/// A copy of `e`.
fn copy_export(e: &SessionExport) -> (r: SessionExport)
    ensures
        r.session_id == e.session_id,
        forall|h: bool|
            session_view(Session { holds_handle: h, exportable: r }) == session_view(
                Session { holds_handle: h, exportable: *e },
            ),
{
    let backend_name = match &e.backend_name {
        Some(n) => Some(n.clone()),
        None => None,
    };
    SessionExport {
        session_id: e.session_id,
        start_time: e.start_time,
        client_conn: e.client_conn,
        backend_name,
        backend_resolve_start: e.backend_resolve_start,
        backend_resolve_latency: e.backend_resolve_latency,
        backend_connect_start: e.backend_connect_start,
        backend_connect_latency: e.backend_connect_latency,
        state: e.state,
        last_xmit: e.last_xmit,
        bytes_client_to_backend: e.bytes_client_to_backend,
        bytes_backend_to_client: e.bytes_backend_to_client,
    }
}

/// Whether `id` is in `v`.
fn contains_id(v: &Vec<SessionId>, id: &SessionId) -> (r: bool)
    ensures
        r == v@.contains(*id),
{
    let mut i: usize = 0;
    while i < v.len()
        invariant
            0 <= i <= v@.len(),
            forall|j: int| 0 <= j < i ==> v@[j] != *id,
        decreases v@.len() - i,
    {
        if same_id(&v[i], id) {
            assert(v@[i as int] == *id);
            return true;
        }
        i = i + 1;
    }
    false
}


/// A session closed on its backend side and then on its client side is shut
/// down (while the table still holds it), and its removal is queued thirty
/// seconds after the second close.
pub proof fn lemma_shutdown_read_then_write(v: ManagerView, id: SessionId, t1: u64, t2: u64)
    requires
        v.sessions.contains_key(id),
        v.sessions[id].state != SessionState::ShutdownRead,
        v.sessions[id].state != SessionState::ShutdownWrite,
        spec_mark_shutdown_read(v, id, t1).sessions.contains_key(id),
        t2 + 30000 <= u64::MAX,
    ensures
        ({
            let r = spec_mark_shutdown_write(spec_mark_shutdown_read(v, id, t1), id, t2);
            &&& r.sessions.contains_key(id) ==> r.sessions[id].state == SessionState::Shutdown
            &&& r.removal_queue.contains_key(
                ((t2 + 30000) as u64, spec_mark_shutdown_read(v, id, t1).tie_break_ctr),
            )
            &&& r.removal_queue[(
                (t2 + 30000) as u64,
                spec_mark_shutdown_read(v, id, t1).tie_break_ctr,
            )] == id
        }),
{
    let v1 = spec_mark_shutdown_read(v, id, t1);
    assert(v1.sessions[id].state == SessionState::ShutdownRead);
    let key = ((t2 + 30000) as u64, v1.tie_break_ctr);
    assert(!due(key, t2));
}

/// A session closed on its client side and then on its backend side is shut
/// down, and its removal is queued thirty seconds after the second close.
pub proof fn lemma_shutdown_write_then_read(v: ManagerView, id: SessionId, t1: u64, t2: u64)
    requires
        v.sessions.contains_key(id),
        v.sessions[id].state != SessionState::ShutdownRead,
        v.sessions[id].state != SessionState::ShutdownWrite,
        spec_mark_shutdown_write(v, id, t1).sessions.contains_key(id),
        t2 + 30000 <= u64::MAX,
    ensures
        ({
            let r = spec_mark_shutdown_read(spec_mark_shutdown_write(v, id, t1), id, t2);
            &&& r.sessions.contains_key(id) ==> r.sessions[id].state == SessionState::Shutdown
            &&& r.removal_queue.contains_key(
                ((t2 + 30000) as u64, spec_mark_shutdown_write(v, id, t1).tie_break_ctr),
            )
        }),
{
    let v1 = spec_mark_shutdown_write(v, id, t1);
    assert(v1.sessions[id].state == SessionState::ShutdownWrite);
    let key = ((t2 + 30000) as u64, v1.tie_break_ctr);
    assert(!due(key, t2));
}

/// Cleaning up keeps every session with no removal due, unchanged.
pub proof fn lemma_cleanup_keeps_undue(v: ManagerView, id: SessionId, now: u64)
    requires
        v.sessions.contains_key(id),
        forall|k: (u64, u32)|
            #[trigger] v.removal_queue.contains_key(k) && v.removal_queue[k] == id ==> !due(k, now),
    ensures
        spec_cleanup(v, now).sessions.contains_key(id),
        spec_cleanup(v, now).sessions[id] == v.sessions[id],
{
}

/// Counting bytes sent adds them to the session's counter and changes no
/// other session.
pub proof fn lemma_xmit_adds(v: ManagerView, id: SessionId, other: SessionId, bytes: u64, now: u64)
    requires
        v.sessions.contains_key(id),
        v.sessions[id].bytes_backend_to_client + bytes <= u64::MAX,
        v.sessions[id].bytes_client_to_backend + bytes <= u64::MAX,
        forall|k: (u64, u32)| #[trigger] v.removal_queue.contains_key(k) ==> !due(k, now),
    ensures
        spec_xmit_backend_to_client(v, id, bytes, now).sessions[id].bytes_backend_to_client
            == v.sessions[id].bytes_backend_to_client + bytes,
        spec_xmit_client_to_backend(v, id, bytes, now).sessions[id].bytes_client_to_backend
            == v.sessions[id].bytes_client_to_backend + bytes,
        other != id && v.sessions.contains_key(other) ==> spec_xmit_backend_to_client(
            v,
            id,
            bytes,
            now,
        ).sessions[other] == v.sessions[other],
{
}

} // verus!
