//! The session table of the SNI director: sessions created, updated and
//! destroyed by commands that the connection tasks send. Times are
//! milliseconds of a monotonic clock that the caller reads.

use vstd::prelude::*;

use crate::session::SocketAddrPair;
use crate::session_id::{same_id, SessionId};

verus! {

/// Where a director session is in its life.
#[derive(Debug, Clone, Copy, PartialEq, Eq)]
pub enum SessionState {
    Handshaking,
    BackendConnecting,
    Connected,
    ShutdownRead,
    ShutdownWrite,
    Shutdown,
}

/// The name of each state.
pub open spec fn spec_state_name(s: SessionState) -> Seq<char> {
    match s {
        SessionState::Handshaking => "handshaking"@,
        SessionState::BackendConnecting => "backend-connecting"@,
        SessionState::Connected => "connected"@,
        SessionState::ShutdownRead => "shutdown-read"@,
        SessionState::ShutdownWrite => "shutdown-write"@,
        SessionState::Shutdown => "shutdown"@,
    }
}

impl SessionState {
    /// The name of the state.
    pub fn as_str(&self) -> (r: &'static str)
        ensures
            r@ == spec_state_name(*self),
    {
        match *self {
            SessionState::Handshaking => "handshaking",
            SessionState::BackendConnecting => "backend-connecting",
            SessionState::Connected => "connected",
            SessionState::ShutdownRead => "shutdown-read",
            SessionState::ShutdownWrite => "shutdown-write",
            SessionState::Shutdown => "shutdown",
        }
    }
}

/// A session: when it started, its client, its backend once connected and
/// how long that took, its state, when bytes last passed, and how many.
#[derive(Debug, Clone, Copy)]
pub struct Session {
    pub session_id: SessionId,
    pub start_time: u64,
    pub client_conn: SocketAddrPair,
    pub backend_conn: Option<SocketAddrPair>,
    pub backend_connect_latency: Option<u64>,
    pub state: SessionState,
    pub last_xmit: u64,
    pub bytes_client_to_backend: u64,
    pub bytes_backend_to_client: u64,
}

/// What creating a session records.
#[derive(Debug, Clone, Copy)]
pub struct SessionCreateCommand {
    pub start_time: u64,
    pub client_conn: SocketAddrPair,
}

/// What a command does to its session.
#[derive(Debug, Clone, Copy)]
pub enum SessionCommandData {
    Destroy,
    Create(SessionCreateCommand),
    StartConnecting,
    Connected(SocketAddrPair, u64),
    XmitClientToBackend(u64),
    XmitBackendToClient(u64),
    ShutdownRead,
    ShutdownWrite,
    Shutdown,
}

/// A command for the session `session_id`.
#[derive(Debug, Clone, Copy)]
pub struct SessionCommand {
    pub session_id: SessionId,
    pub data: SessionCommandData,
}

impl Session {
    /// A session that starts handshaking, seen last at `now`.
    pub fn new(session_id: SessionId, creat: &SessionCreateCommand, now: u64) -> (r: Session)
        ensures
            r == spec_new_session(session_id, *creat, now),
    {
        Session {
            session_id,
            start_time: creat.start_time,
            client_conn: creat.client_conn,
            backend_conn: None,
            backend_connect_latency: None,
            state: SessionState::Handshaking,
            last_xmit: now,
            bytes_client_to_backend: 0,
            bytes_backend_to_client: 0,
        }
    }
}

/// A new session.
pub open spec fn spec_new_session(id: SessionId, c: SessionCreateCommand, now: u64) -> Session {
    Session {
        session_id: id,
        start_time: c.start_time,
        client_conn: c.client_conn,
        backend_conn: None,
        backend_connect_latency: None,
        state: SessionState::Handshaking,
        last_xmit: now,
        bytes_client_to_backend: 0,
        bytes_backend_to_client: 0,
    }
}

/// Whether `cmd` can be applied to the table `m`: a command other than
/// create and destroy needs its session, and counters must not overflow.
pub open spec fn command_applies(m: Map<SessionId, Session>, cmd: SessionCommand) -> bool {
    match cmd.data {
        SessionCommandData::Destroy => true,
        SessionCommandData::Create(_) => true,
        SessionCommandData::XmitClientToBackend(b) => m.contains_key(cmd.session_id)
            && m[cmd.session_id].bytes_client_to_backend + b <= u64::MAX,
        SessionCommandData::XmitBackendToClient(b) => m.contains_key(cmd.session_id)
            && m[cmd.session_id].bytes_backend_to_client + b <= u64::MAX,
        _ => m.contains_key(cmd.session_id),
    }
}

/// The table after `cmd`: destroy forgets the session, create starts a new
/// one in its place, starting to connect changes nothing, and the others set
/// the state, record the backend, or add to a counter.
pub open spec fn spec_apply(m: Map<SessionId, Session>, cmd: SessionCommand, now: u64) -> Map<
    SessionId,
    Session,
> {
    let id = cmd.session_id;
    let s = m[id];
    match cmd.data {
        SessionCommandData::Destroy => m.remove(id),
        SessionCommandData::Create(c) => m.insert(id, spec_new_session(id, c, now)),
        SessionCommandData::StartConnecting => m,
        SessionCommandData::Connected(sap, lat) => m.insert(
            id,
            Session {
                state: SessionState::Connected,
                backend_conn: Some(sap),
                backend_connect_latency: Some(lat),
                ..s
            },
        ),
        SessionCommandData::XmitClientToBackend(b) => m.insert(
            id,
            Session {
                bytes_client_to_backend: (s.bytes_client_to_backend + b) as u64,
                last_xmit: now,
                ..s
            },
        ),
        SessionCommandData::XmitBackendToClient(b) => m.insert(
            id,
            Session {
                bytes_backend_to_client: (s.bytes_backend_to_client + b) as u64,
                last_xmit: now,
                ..s
            },
        ),
        SessionCommandData::ShutdownRead => m.insert(
            id,
            Session { state: SessionState::ShutdownRead, ..s },
        ),
        SessionCommandData::ShutdownWrite => m.insert(
            id,
            Session { state: SessionState::ShutdownWrite, ..s },
        ),
        SessionCommandData::Shutdown => m.insert(id, Session { state: SessionState::Shutdown, ..s }),
    }
}

/// The director's table of sessions by id.
pub struct SessionManager {
    sessions: Vec<Session>,
}

/// The map from id to session that `s` holds.
pub open spec fn table_map(s: Seq<Session>) -> Map<SessionId, Session> {
    Map::new(
        |id: SessionId| exists|i: int| 0 <= i < s.len() && s[i].session_id == id,
        |id: SessionId| s[choose|i: int| 0 <= i < s.len() && s[i].session_id == id],
    )
}

/// Whether no id occurs twice in `s`, and each session is filed under its own id.
pub open spec fn ids_distinct(s: Seq<Session>) -> bool {
    forall|i: int, j: int|
        0 <= i < j < s.len() ==> (#[trigger] s[i]).session_id != (#[trigger] s[j]).session_id
}

/// In a table without repeated ids, each session is found under its id.
proof fn lemma_table_at(s: Seq<Session>, i: int)
    requires
        ids_distinct(s),
        0 <= i < s.len(),
    ensures
        table_map(s).contains_key(s[i].session_id),
        table_map(s)[s[i].session_id] == s[i],
{
    let id = s[i].session_id;
    assert(exists|j: int| 0 <= j < s.len() && s[j].session_id == id);
    let c = choose|j: int| 0 <= j < s.len() && s[j].session_id == id;
    if c != i {
        if c < i {
            assert(s[c].session_id != s[i].session_id);
        } else {
            assert(s[i].session_id != s[c].session_id);
        }
    }
}

impl SessionManager {
    /// The sessions by id.
    pub closed spec fn view(&self) -> Map<SessionId, Session> {
        table_map(self.sessions@)
    }

    /// Whether no id occurs twice.
    pub closed spec fn wf(&self) -> bool {
        ids_distinct(self.sessions@)
    }

    /// An empty table.
    pub fn new() -> (r: SessionManager)
        ensures
            r.wf(),
            r.view() == Map::<SessionId, Session>::empty(),
    {
        let r = SessionManager { sessions: Vec::new() };
        assert(r.view() =~= Map::<SessionId, Session>::empty());
        r
    }

    /// Every session.
    pub fn get_sessions(&self) -> (r: Vec<Session>)
        requires
            self.wf(),
        ensures
            forall|id: SessionId|
                #[trigger] self.view().contains_key(id) <==> exists|i: int|
                    0 <= i < r@.len() && r@[i].session_id == id,
            forall|i: int|
                0 <= i < r@.len() ==> self.view()[#[trigger] r@[i].session_id] == r@[i],
    {
        let r = self.sessions.clone();
        proof {
            assert(r@ =~= self.sessions@);
            assert forall|i: int| 0 <= i < r@.len() implies self.view()[#[trigger] r@[i].session_id]
                == r@[i] by {
                lemma_table_at(self.sessions@, i);
            }
            assert forall|id: SessionId|
                #[trigger] self.view().contains_key(id) <==> exists|i: int|
                    0 <= i < r@.len() && r@[i].session_id == id by {}
        }
        r
    }

    /// The index of the session `id`.
    fn find(&self, id: &SessionId) -> (r: Option<usize>)
        requires
            self.wf(),
        ensures
            match r {
                Some(i) => i < self.sessions@.len() && self.sessions@[i as int].session_id == *id,
                None => !self.view().contains_key(*id),
            },
    {
        let mut i: usize = 0;
        while i < self.sessions.len()
            invariant
                0 <= i <= self.sessions@.len(),
                forall|j: int| 0 <= j < i ==> self.sessions@[j].session_id != *id,
            decreases self.sessions@.len() - i,
        {
            if same_id(&self.sessions[i].session_id, id) {
                return Some(i);
            }
            i = i + 1;
        }
        None
    }

    /// Applies the command `cmd` at the time `now`.
    pub fn apply_command(&mut self, cmd: &SessionCommand, now: u64)
        requires
            old(self).wf(),
            command_applies(old(self).view(), *cmd),
        ensures
            final(self).wf(),
            final(self).view() == spec_apply(old(self).view(), *cmd, now),
    {
        let id = cmd.session_id;
        let found = self.find(&id);
        let ghost s0 = self.sessions@;
        match cmd.data {
            SessionCommandData::Destroy => {
                if let Some(i) = found {
                    self.sessions.remove(i);
                    proof {
                        let s1 = self.sessions@;
                        assert(ids_distinct(s1)) by {
                            assert forall|a: int, b: int| 0 <= a < b < s1.len() implies (
                            #[trigger] s1[a]).session_id != (#[trigger] s1[b]).session_id by {
                                let a0 = if a < i { a } else { a + 1 };
                                let b0 = if b < i { b } else { b + 1 };
                                assert(s1[a] == s0[a0] && s1[b] == s0[b0]);
                            }
                        }
                        assert forall|k: SessionId| #[trigger] table_map(s1).contains_key(k) <==> table_map(
                            s0,
                        ).remove(id).contains_key(k) by {
                            if table_map(s1).contains_key(k) {
                                let a = choose|a: int| 0 <= a < s1.len() && s1[a].session_id == k;
                                let a0 = if a < i { a } else { a + 1 };
                                assert(s1[a] == s0[a0]);
                                if k == id {
                                    assert(s0[i as int].session_id == id);
                                    if a0 < i {
                                        assert(s0[a0].session_id != s0[i as int].session_id);
                                    } else {
                                        assert(s0[i as int].session_id != s0[a0].session_id);
                                    }
                                }
                            }
                            if table_map(s0).remove(id).contains_key(k) {
                                let a0 = choose|a0: int| 0 <= a0 < s0.len() && s0[a0].session_id == k;
                                assert(a0 != i);
                                let a = if a0 < i { a0 } else { a0 - 1 };
                                assert(s1[a] == s0[a0]);
                            }
                        }
                        assert forall|k: SessionId| #[trigger] table_map(s1).contains_key(k) implies table_map(
                            s1,
                        )[k] == table_map(s0).remove(id)[k] by {
                            let a = choose|a: int| 0 <= a < s1.len() && s1[a].session_id == k;
                            let a0 = if a < i { a } else { a + 1 };
                            assert(s1[a] == s0[a0]);
                            lemma_table_at(s1, a);
                            lemma_table_at(s0, a0);
                        }
                        assert(table_map(s1) =~= table_map(s0).remove(id));
                    }
                } else {
                    assert(self.view() =~= old(self).view().remove(id));
                }
                return;
            },
            SessionCommandData::Create(ref creat) => {
                let s = Session::new(id, creat, now);
                match found {
                    Some(i) => {
                        self.sessions.set(i, s);
                        proof {
                            self.lemma_replaced(s0, i as int, s);
                        }
                    },
                    None => {
                        self.sessions.push(s);
                        proof {
                            let s1 = self.sessions@;
                            let n = s0.len() as int;
                            assert(ids_distinct(s1)) by {
                                assert forall|a: int, b: int| 0 <= a < b < s1.len() implies (
                                #[trigger] s1[a]).session_id != (#[trigger] s1[b]).session_id by {
                                    if b < n {
                                        assert(s1[a] == s0[a] && s1[b] == s0[b]);
                                    } else {
                                        assert(s1[a] == s0[a]);
                                        if s0[a].session_id == id {
                                            assert(table_map(s0).contains_key(id));
                                        }
                                    }
                                }
                            }
                            assert forall|k: SessionId| #[trigger] table_map(s1).contains_key(k) <==> table_map(
                                s0,
                            ).insert(id, s).contains_key(k) by {
                                if table_map(s1).contains_key(k) {
                                    let a = choose|a: int| 0 <= a < s1.len() && s1[a].session_id == k;
                                    if a < n {
                                        assert(s0[a].session_id == k);
                                    }
                                }
                                if table_map(s0).contains_key(k) {
                                    let a = choose|a: int| 0 <= a < s0.len() && s0[a].session_id == k;
                                    assert(s1[a].session_id == k);
                                }
                                if k == id {
                                    assert(s1[n].session_id == k);
                                }
                            }
                            assert forall|k: SessionId| #[trigger] table_map(s1).contains_key(k) implies table_map(
                                s1,
                            )[k] == table_map(s0).insert(id, s)[k] by {
                                let a = choose|a: int| 0 <= a < s1.len() && s1[a].session_id == k;
                                lemma_table_at(s1, a);
                                if a < n {
                                    assert(s1[a] == s0[a]);
                                    lemma_table_at(s0, a);
                                }
                            }
                            assert(table_map(s1) =~= table_map(s0).insert(id, s));
                        }
                    },
                }
                return;
            },
            _ => {},
        }
        let i = match found {
            Some(i) => i,
            None => {
                assert(false);
                return;
            },
        };
        proof {
            lemma_table_at(s0, i as int);
        }
        let mut inst = self.sessions[i];
        match cmd.data {
            SessionCommandData::Destroy | SessionCommandData::Create(..)
            | SessionCommandData::StartConnecting => {
                assert(self.view() =~= spec_apply(old(self).view(), *cmd, now));
                return;
            },
            SessionCommandData::Connected(sap, lat) => {
                inst.state = SessionState::Connected;
                inst.backend_conn = Some(sap);
                inst.backend_connect_latency = Some(lat);
            },
            SessionCommandData::XmitClientToBackend(bytes) => {
                inst.bytes_client_to_backend = inst.bytes_client_to_backend + bytes;
                inst.last_xmit = now;
            },
            SessionCommandData::XmitBackendToClient(bytes) => {
                inst.bytes_backend_to_client = inst.bytes_backend_to_client + bytes;
                inst.last_xmit = now;
            },
            SessionCommandData::ShutdownRead => {
                inst.state = SessionState::ShutdownRead;
            },
            SessionCommandData::ShutdownWrite => {
                inst.state = SessionState::ShutdownWrite;
            },
            SessionCommandData::Shutdown => {
                inst.state = SessionState::Shutdown;
            },
        }
        self.sessions.set(i, inst);
        proof {
            self.lemma_replaced(s0, i as int, inst);
        }
    }

    /// After replacing the session at `i` by one with the same id, the table
    /// changes at that id alone.
    proof fn lemma_replaced(&self, s0: Seq<Session>, i: int, s: Session)
        requires
            ids_distinct(s0),
            0 <= i < s0.len(),
            s.session_id == s0[i].session_id,
            self.sessions@ == s0.update(i, s),
        ensures
            self.wf(),
            self.view() == table_map(s0).insert(s.session_id, s),
    {
        let s1 = self.sessions@;
        let id = s.session_id;
        assert(ids_distinct(s1)) by {
            assert forall|a: int, b: int| 0 <= a < b < s1.len() implies (#[trigger] s1[a]).session_id
                != (#[trigger] s1[b]).session_id by {
                assert(s1[a].session_id == s0[a].session_id);
                assert(s1[b].session_id == s0[b].session_id);
            }
        }
        assert forall|k: SessionId| #[trigger] table_map(s1).contains_key(k) <==> table_map(s0).insert(
            id,
            s,
        ).contains_key(k) by {
            if table_map(s1).contains_key(k) {
                let a = choose|a: int| 0 <= a < s1.len() && s1[a].session_id == k;
                assert(s0[a].session_id == k);
            }
            if table_map(s0).contains_key(k) {
                let a = choose|a: int| 0 <= a < s0.len() && s0[a].session_id == k;
                assert(s1[a].session_id == k);
            }
            if k == id {
                assert(s1[i].session_id == k);
            }
        }
        assert forall|k: SessionId| #[trigger] table_map(s1).contains_key(k) implies table_map(s1)[k]
            == table_map(s0).insert(id, s)[k] by {
            let a = choose|a: int| 0 <= a < s1.len() && s1[a].session_id == k;
            lemma_table_at(s1, a);
            if a != i {
                lemma_table_at(s0, a);
            }
        }
        assert(table_map(s1) =~= table_map(s0).insert(id, s));
    }
}


/// Creating a session and then destroying it leaves the table as it was
/// without that id.
pub proof fn lemma_create_then_destroy(
    m: Map<SessionId, Session>,
    id: SessionId,
    c: SessionCreateCommand,
    t1: u64,
    t2: u64,
)
    ensures
        spec_apply(
            spec_apply(m, SessionCommand { session_id: id, data: SessionCommandData::Create(c) }, t1),
            SessionCommand { session_id: id, data: SessionCommandData::Destroy },
            t2,
        ) == m.remove(id),
{
    assert(m.insert(id, spec_new_session(id, c, t1)).remove(id) =~= m.remove(id));
}

/// A created session starts handshaking with no bytes counted; counting
/// bytes adds them and changes no other session.
pub proof fn lemma_director_counts(
    m: Map<SessionId, Session>,
    id: SessionId,
    other: SessionId,
    bytes: u64,
    now: u64,
)
    requires
        m.contains_key(id),
        m[id].bytes_client_to_backend + bytes <= u64::MAX,
    ensures
        spec_apply(
            m,
            SessionCommand { session_id: id, data: SessionCommandData::XmitClientToBackend(bytes) },
            now,
        )[id].bytes_client_to_backend == m[id].bytes_client_to_backend + bytes,
        other != id ==> spec_apply(
            m,
            SessionCommand { session_id: id, data: SessionCommandData::XmitClientToBackend(bytes) },
            now,
        ).remove(id).remove(other) == m.remove(id).remove(other),
        other != id && m.contains_key(other) ==> spec_apply(
            m,
            SessionCommand { session_id: id, data: SessionCommandData::XmitClientToBackend(bytes) },
            now,
        )[other] == m[other],
{
    let r = spec_apply(
        m,
        SessionCommand { session_id: id, data: SessionCommandData::XmitClientToBackend(bytes) },
        now,
    );
    assert(r.remove(id).remove(other) =~= m.remove(id).remove(other));
}

} // verus!
