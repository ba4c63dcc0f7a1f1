//! The proxy's backends by host name: each host's PROXY header version and
//! locations, kept under fresh ids, added, replaced and removed at run time,
//! and one location picked at random for each connection.

use vstd::prelude::*;

use crate::names::NameMap;
use crate::proxy_model::{
    location_view, BackendArgs, BackendArgsFlags, HaproxyProxyHeaderVersion, NetworkLocationAddress,
    SocketAddr,
};
use crate::session_id::{same_id, SessionId};
use crate::tls_sni::{alert_unrecognized_name, AlertError};

verus! {

/// The backends of one host name.
#[derive(Debug)]
pub struct BackendSet {
    pub haproxy_header_version: Option<HaproxyProxyHeaderVersion>,
    pub haproxy_header_allow_passthrough: bool,
    pub locations: Vec<(SessionId, NetworkLocationAddress)>,
}

/// A location as plain values.
pub type LocationView = (Seq<char>, int, Option<SocketAddr>);

/// The locations of `v` by id.
pub open spec fn locations_map(v: Seq<(SessionId, NetworkLocationAddress)>) -> Map<SessionId, LocationView> {
    Map::new(
        |id: SessionId| exists|i: int| 0 <= i < v.len() && v[i].0 == id,
        |id: SessionId| location_view(v[choose|i: int| 0 <= i < v.len() && v[i].0 == id].1),
    )
}

/// Whether no id occurs twice among `v`.
pub open spec fn ids_unique(v: Seq<(SessionId, NetworkLocationAddress)>) -> bool {
    forall|i: int, j: int| 0 <= i < j < v.len() ==> (#[trigger] v[i]).0 != (#[trigger] v[j]).0
}

/// A host's backends as plain values.
pub struct SetView {
    pub haproxy_header_version: Option<HaproxyProxyHeaderVersion>,
    pub haproxy_header_allow_passthrough: bool,
    pub locations: Map<SessionId, LocationView>,
}

/// `b` as plain values.
pub open spec fn set_view(b: BackendSet) -> SetView {
    SetView {
        haproxy_header_version: b.haproxy_header_version,
        haproxy_header_allow_passthrough: b.haproxy_header_allow_passthrough,
        locations: locations_map(b.locations@),
    }
}

/// Why a backend could not be added.
#[derive(Debug, Clone, Copy, PartialEq, Eq)]
pub enum BackendError {
    /// The PROXY header version was given twice.
    DuplicateHaproxyVersion,
    /// The host's other backends use another PROXY header version.
    HaproxyProxyHeaderVersionMismatch,
}

/// The PROXY header version that the flags `fs` ask for, `Err` where they
/// ask twice.
pub open spec fn spec_flags_version(fs: Seq<BackendArgsFlags>) -> Result<
    Option<HaproxyProxyHeaderVersion>,
    BackendError,
> {
    if fs.len() > 1 {
        Err(BackendError::DuplicateHaproxyVersion)
    } else if fs.len() == 1 {
        match fs[0] {
            BackendArgsFlags::UseHaproxy(v) => Ok(Some(v)),
        }
    } else {
        Ok(None)
    }
}

/// The PROXY header version that the flags `flags` ask for.
fn flags_version(flags: &Vec<BackendArgsFlags>) -> (r: Result<
    Option<HaproxyProxyHeaderVersion>,
    BackendError,
>)
    ensures
        r == spec_flags_version(flags@),
{
    let mut version: Option<HaproxyProxyHeaderVersion> = None;
    let mut i: usize = 0;
    while i < flags.len()
        invariant
            0 <= i <= flags@.len(),
            i <= 1,
            i == 0 ==> version is None,
            i == 1 ==> version == match flags@[0] {
                BackendArgsFlags::UseHaproxy(v) => Some(v),
            },
        decreases flags@.len() - i,
    {
        match flags[i] {
            BackendArgsFlags::UseHaproxy(v) => {
                if version.is_some() {
                    return Err(BackendError::DuplicateHaproxyVersion);
                }
                version = Some(v);
            },
        }
        i = i + 1;
        if i == 1 && flags.len() > 1 {
            match flags[1] {
                BackendArgsFlags::UseHaproxy(_) => {
                    return Err(BackendError::DuplicateHaproxyVersion);
                },
            }
        }
    }
    Ok(version)
}

/// A copy of the location `a`.
pub fn copy_location(a: &NetworkLocationAddress) -> (r: NetworkLocationAddress)
    ensures
        location_view(r) == location_view(*a),
{
    match a {
        NetworkLocationAddress::Unix(p) => NetworkLocationAddress::Unix(p.clone()),
        NetworkLocationAddress::Tcp(sa) => NetworkLocationAddress::Tcp(*sa),
        NetworkLocationAddress::Hostname(h) => NetworkLocationAddress::Hostname(h.clone()),
        NetworkLocationAddress::Srv(s) => NetworkLocationAddress::Srv(s.clone()),
    }
}

/// In a list without repeated ids, each location is found under its id.
proof fn lemma_location_at(v: Seq<(SessionId, NetworkLocationAddress)>, i: int)
    requires
        ids_unique(v),
        0 <= i < v.len(),
    ensures
        locations_map(v).contains_key(v[i].0),
        locations_map(v)[v[i].0] == location_view(v[i].1),
{
    let id = v[i].0;
    assert(exists|j: int| 0 <= j < v.len() && v[j].0 == id);
    let c = choose|j: int| 0 <= j < v.len() && v[j].0 == id;
    if c != i {
        if c < i {
            assert(v[c].0 != v[i].0);
        } else {
            assert(v[i].0 != v[c].0);
        }
    }
}

/// Files `loc` under `id` in `locs`, in place of any location with that id.
fn insert_location(locs: &mut Vec<(SessionId, NetworkLocationAddress)>, id: SessionId, loc: NetworkLocationAddress)
    requires
        ids_unique(old(locs)@),
    ensures
        ids_unique(final(locs)@),
        locations_map(final(locs)@) == locations_map(old(locs)@).insert(id, location_view(loc)),
{
    let ghost s0 = locs@;
    let ghost lv = location_view(loc);
    let mut i: usize = 0;
    while i < locs.len()
        invariant
            locs@ == s0,
            0 <= i <= s0.len(),
            forall|j: int| 0 <= j < i ==> s0[j].0 != id,
        ensures
            locs@ == s0,
            0 <= i <= s0.len(),
            forall|j: int| 0 <= j < i ==> s0[j].0 != id,
            i < s0.len() ==> s0[i as int].0 == id,
        decreases s0.len() - i,
    {
        if same_id(&locs[i].0, &id) {
            break;
        }
        i = i + 1;
    }
    let n = locs.len();
    if i < n {
        locs.set(i, (id, loc));
    } else {
        locs.push((id, loc));
    }
    proof {
        let s1 = locs@;
        assert(ids_unique(s1)) by {
            assert forall|a: int, b: int| 0 <= a < b < s1.len() implies (#[trigger] s1[a]).0 != (
            #[trigger] s1[b]).0 by {
                if b < s0.len() {
                    if a == i {
                        assert(s1[b] == s0[b]);
                        assert(s0[a].0 != s0[b].0);
                    } else if b == i {
                        assert(s1[a] == s0[a]);
                        assert(s0[a].0 != s0[b].0);
                    } else {
                        assert(s1[a] == s0[a] && s1[b] == s0[b]);
                    }
                } else {
                    assert(s1[a] == s0[a]);
                }
            }
        }
        let target = locations_map(s0).insert(id, lv);
        assert forall|k: SessionId| #[trigger] locations_map(s1).contains_key(k) <==> target.contains_key(k) by {
            if locations_map(s1).contains_key(k) {
                let a = choose|a: int| 0 <= a < s1.len() && s1[a].0 == k;
                if k != id {
                    assert(s0[a].0 == k);
                }
            }
            if locations_map(s0).contains_key(k) {
                let a = choose|a: int| 0 <= a < s0.len() && s0[a].0 == k;
                if a == i {
                    assert(s1[a].0 == id);
                } else {
                    assert(s1[a].0 == k);
                }
            }
            if k == id {
                if i < s0.len() {
                    assert(s1[i as int].0 == k);
                } else {
                    assert(s1[s0.len() as int].0 == k);
                }
            }
        }
        assert forall|k: SessionId| #[trigger] locations_map(s1).contains_key(k) implies locations_map(
            s1,
        )[k] == target[k] by {
            let a = choose|a: int| 0 <= a < s1.len() && s1[a].0 == k;
            lemma_location_at(s1, a);
            if k != id {
                assert(s1[a] == s0[a]);
                lemma_location_at(s0, a);
            } else {
                assert(s1[a].1 == loc);
            }
        }
        assert(locations_map(s1) =~= target);
    }
}

/// A location list holding just `loc` under `id`.
fn single_location(id: SessionId, loc: NetworkLocationAddress) -> (r: Vec<(SessionId, NetworkLocationAddress)>)
    ensures
        ids_unique(r@),
        locations_map(r@) == Map::<SessionId, LocationView>::empty().insert(id, location_view(loc)),
{
    let mut v: Vec<(SessionId, NetworkLocationAddress)> = Vec::new();
    proof {
        assert(locations_map(v@) =~= Map::<SessionId, LocationView>::empty());
    }
    insert_location(&mut v, id, loc);
    v
}

/// The hosts' backends once the location `loc` is filed under `id` for the
/// host `h`, whose other backends must use the PROXY header version `v`.
pub open spec fn spec_add_location(
    m: Map<Seq<char>, SetView>,
    h: Seq<char>,
    v: Option<HaproxyProxyHeaderVersion>,
    id: SessionId,
    loc: LocationView,
) -> Result<Map<Seq<char>, SetView>, BackendError> {
    if m.contains_key(h) {
        if m[h].haproxy_header_version != v {
            Err(BackendError::HaproxyProxyHeaderVersionMismatch)
        } else {
            Ok(m.insert(h, SetView { locations: m[h].locations.insert(id, loc), ..m[h] }))
        }
    } else {
        Ok(
            m.insert(
                h,
                SetView {
                    haproxy_header_version: v,
                    haproxy_header_allow_passthrough: false,
                    locations: Map::empty().insert(id, loc),
                },
            ),
        )
    }
}

/// The hosts' backends once the location `nl` of `h` is removed, and the
/// host too once it has none left.
pub open spec fn spec_remove_backend(m: Map<Seq<char>, SetView>, h: Seq<char>, nl: SessionId) -> Map<
    Seq<char>,
    SetView,
> {
    if m.contains_key(h) {
        let rest = m[h].locations.remove(nl);
        if rest.len() == 0 {
            m.remove(h)
        } else {
            m.insert(h, SetView { locations: rest, ..m[h] })
        }
    } else {
        m
    }
}

/// Removing a location just added under a fresh id gives back the backends
/// as they were.
pub proof fn lemma_add_then_remove(
    m: Map<Seq<char>, SetView>,
    h: Seq<char>,
    v: Option<HaproxyProxyHeaderVersion>,
    id: SessionId,
    loc: LocationView,
)
    requires
        m.dom().finite(),
        forall|k: Seq<char>| #[trigger] m.contains_key(k) ==> m[k].locations.dom().finite() && m[k].locations.len() > 0,
        m.contains_key(h) ==> !m[h].locations.contains_key(id),
        spec_add_location(m, h, v, id, loc) is Ok,
    ensures
        spec_remove_backend(spec_add_location(m, h, v, id, loc)->Ok_0, h, id) == m,
{
    let a = spec_add_location(m, h, v, id, loc)->Ok_0;
    if m.contains_key(h) {
        assert(m[h].locations.insert(id, loc).remove(id) =~= m[h].locations);
        let rest = a[h].locations.remove(id);
        assert(rest == m[h].locations);
        assert(a.insert(h, SetView { locations: rest, ..a[h] }) =~= m);
    } else {
        let rest = a[h].locations.remove(id);
        assert(rest =~= Map::<SessionId, LocationView>::empty());
        assert(a.remove(h) =~= m);
    }
}

/// The backends of every host name.
pub struct BackendManager {
    backends: NameMap<BackendSet>,
}

/// The hosts' backends as plain values.
pub open spec fn manager_view(m: Map<Seq<char>, BackendSet>) -> Map<Seq<char>, SetView> {
    m.map_values(|b: BackendSet| set_view(b))
}

impl BackendManager {
    /// The hosts' backends by host name.
    pub closed spec fn view(&self) -> Map<Seq<char>, SetView> {
        manager_view(self.backends.map())
    }

    /// Whether the table is well formed and no host lists an id twice.
    pub closed spec fn wf(&self) -> bool {
        &&& self.backends.wf()
        &&& forall|h: Seq<char>| #[trigger]
            self.backends.map().contains_key(h) ==> ids_unique(self.backends.map()[h].locations@)
    }

    /// No backends.
    pub fn new() -> (r: BackendManager)
        ensures
            r.wf(),
            r.view() == Map::<Seq<char>, SetView>::empty(),
    {
        let r = BackendManager { backends: NameMap::new() };
        assert(r.view() =~= Map::<Seq<char>, SetView>::empty());
        r
    }

    /// Adds the backend `args` under a fresh id and gives the id: a host's
    /// backends must all use the same PROXY header version, asked for once.
    pub fn add_backend(&mut self, args: &BackendArgs) -> (r: Result<SessionId, BackendError>)
        requires
            old(self).wf(),
        ensures
            final(self).wf(),
            match spec_flags_version(args.flags@) {
                Err(e) => r == Err::<SessionId, BackendError>(e) && final(self).view() == old(self).view(),
                Ok(v) => match r {
                    Ok(id) => spec_add_location(
                        old(self).view(),
                        args.hostname@,
                        v,
                        id,
                        location_view(args.target_address),
                    ) == Ok::<Map<Seq<char>, SetView>, BackendError>(final(self).view()),
                    Err(e) => (forall|id: SessionId|
                        spec_add_location(
                            old(self).view(),
                            args.hostname@,
                            v,
                            id,
                            location_view(args.target_address),
                        ) == Err::<Map<Seq<char>, SetView>, BackendError>(e))
                        && final(self).view() == old(self).view(),
                },
            },
    {
        let version = flags_version(&args.flags)?;
        let backend_id = SessionId::generate();
        let nla = copy_location(&args.target_address);
        proof {
            self.lemma_view_facts();
        }
        match self.backends.remove(args.hostname.as_str()) {
            Some(mut set) => {
                if set.haproxy_header_version != version {
                    self.backends.insert(args.hostname.clone(), set);
                    proof {
                        assert(self.backends.map() =~= old(self).backends.map());
                    }
                    return Err(BackendError::HaproxyProxyHeaderVersionMismatch);
                }
                let ghost before = set_view(set);
                insert_location(&mut set.locations, backend_id, nla);
                let ghost after = set_view(set);
                self.backends.insert(args.hostname.clone(), set);
                proof {
                    self.lemma_after_insert(old(self), args.hostname@);
                }
            },
            None => {
                let set = BackendSet {
                    haproxy_header_version: version,
                    haproxy_header_allow_passthrough: false,
                    locations: single_location(backend_id, nla),
                };
                self.backends.insert(args.hostname.clone(), set);
                proof {
                    self.lemma_after_insert(old(self), args.hostname@);
                }
            },
        }
        Ok(backend_id)
    }

    /// Puts the backend `args` under a fresh id in place of the host's other
    /// backends, with its PROXY header version, and gives the id.
    pub fn replace_backend(&mut self, args: &BackendArgs) -> (r: Result<SessionId, BackendError>)
        requires
            old(self).wf(),
        ensures
            final(self).wf(),
            match spec_flags_version(args.flags@) {
                Err(e) => r == Err::<SessionId, BackendError>(e) && final(self).view() == old(self).view(),
                Ok(v) => r matches Ok(id) && final(self).view() == old(self).view().insert(
                    args.hostname@,
                    SetView {
                        haproxy_header_version: v,
                        haproxy_header_allow_passthrough: if old(self).view().contains_key(
                            args.hostname@,
                        ) {
                            old(self).view()[args.hostname@].haproxy_header_allow_passthrough
                        } else {
                            false
                        },
                        locations: Map::empty().insert(id, location_view(args.target_address)),
                    },
                ),
            },
    {
        let version = flags_version(&args.flags)?;
        let backend_id = SessionId::generate();
        let nla = copy_location(&args.target_address);
        proof {
            self.lemma_view_facts();
        }
        match self.backends.remove(args.hostname.as_str()) {
            Some(mut set) => {
                set.haproxy_header_version = version;
                set.locations = single_location(backend_id, nla);
                self.backends.insert(args.hostname.clone(), set);
                proof {
                    self.lemma_after_insert(old(self), args.hostname@);
                }
            },
            None => {
                let set = BackendSet {
                    haproxy_header_version: version,
                    haproxy_header_allow_passthrough: false,
                    locations: single_location(backend_id, nla),
                };
                self.backends.insert(args.hostname.clone(), set);
                proof {
                    self.lemma_after_insert(old(self), args.hostname@);
                }
            },
        }
        Ok(backend_id)
    }

    /// Removes the location `nl` of `hostname`, and the host once it has none.
    pub fn remove_backend(&mut self, hostname: &str, nl: &SessionId)
        requires
            old(self).wf(),
        ensures
            final(self).wf(),
            final(self).view() == spec_remove_backend(old(self).view(), hostname@, *nl),
    {
        proof {
            self.lemma_view_facts();
        }
        match self.backends.remove(hostname) {
            Some(mut set) => {
                remove_location(&mut set.locations, nl);
                let count = set.locations.len();
                proof {
                    lemma_locations_len(set.locations@);
                }
                if count == 0 {
                    proof {
                        assert(self.view() =~= old(self).view().remove(hostname@));
                    }
                } else {
                    self.backends.insert(hostname.to_owned(), set);
                    proof {
                        self.lemma_after_insert(old(self), hostname@);
                    }
                }
            },
            None => {
                proof {
                    assert(self.backends.map() =~= old(self).backends.map());
                }
            },
        }
    }

    /// Removes every backend of `hostname`.
    pub fn remove_backends(&mut self, hostname: &str)
        requires
            old(self).wf(),
        ensures
            final(self).wf(),
            final(self).view() == old(self).view().remove(hostname@),
    {
        let _ = self.backends.remove(hostname);
        proof {
            assert(self.view() =~= old(self).view().remove(hostname@));
        }
    }

    /// The backends of `hostname` with one of its locations picked at random
    /// (none where it has none); an unknown host is answered with the
    /// `unrecognized_name` alert.
    pub fn sync_resolve(&self, hostname: &str) -> (r: Result<BackendSet, AlertError>)
        requires
            self.wf(),
        ensures
            !self.view().contains_key(hostname@) ==> r == Err::<BackendSet, AlertError>(
                AlertError { alert_description: 112 },
            ),
            self.view().contains_key(hostname@) ==> (r matches Ok(b) && {
                let set = self.view()[hostname@];
                &&& set_view(b).haproxy_header_version == set.haproxy_header_version
                &&& set_view(b).haproxy_header_allow_passthrough
                    == set.haproxy_header_allow_passthrough
                &&& set_view(b).locations.len() == if set.locations.len() == 0 {
                    0nat
                } else {
                    1nat
                }
                &&& set_view(b).locations.submap_of(set.locations)
                &&& b.locations@.len() == set_view(b).locations.len()
            }),
    {
        proof {
            self.lemma_view_facts();
        }
        match self.backends.get(hostname) {
            None => Err(alert_unrecognized_name()),
            Some(set) => {
                proof {
                    lemma_locations_len(set.locations@);
                }
                Ok(backend_set_prune(set))
            },
        }
    }

    /// What the view says of the table's entries.
    proof fn lemma_view_facts(&self)
        requires
            self.wf(),
        ensures
            forall|h: Seq<char>| #[trigger]
                self.view().contains_key(h) <==> self.backends.map().contains_key(h),
            forall|h: Seq<char>| #[trigger]
                self.view().contains_key(h) ==> self.view()[h] == set_view(self.backends.map()[h]),
    {
    }

    /// After putting back an entry for `h`, the view changes at `h` alone.
    proof fn lemma_after_insert(&self, pre: &BackendManager, h: Seq<char>)
        requires
            pre.wf(),
            self.backends.wf(),
            self.backends.map().contains_key(h),
            ids_unique(self.backends.map()[h].locations@),
            forall|k: Seq<char>| k != h ==> (#[trigger] self.backends.map().contains_key(k)
                <==> pre.backends.map().contains_key(k)),
            forall|k: Seq<char>| k != h && #[trigger] self.backends.map().contains_key(k) ==> self.backends.map()[k]
                == pre.backends.map()[k],
        ensures
            self.wf(),
            self.view() == pre.view().insert(h, set_view(self.backends.map()[h])),
    {
        assert(self.view() =~= pre.view().insert(h, set_view(self.backends.map()[h])));
    }
}

/// Removes the location `nl` from `locs`.
fn remove_location(locs: &mut Vec<(SessionId, NetworkLocationAddress)>, nl: &SessionId)
    requires
        ids_unique(old(locs)@),
    ensures
        ids_unique(final(locs)@),
        locations_map(final(locs)@) == locations_map(old(locs)@).remove(*nl),
{
    let ghost s0 = locs@;
    let mut i: usize = 0;
    while i < locs.len()
        invariant
            locs@ == s0,
            s0 == old(locs)@,
            ids_unique(s0),
            0 <= i <= s0.len(),
            forall|j: int| 0 <= j < i ==> s0[j].0 != *nl,
        decreases s0.len() - i,
    {
        if same_id(&locs[i].0, nl) {
            let _ = locs.remove(i);
            proof {
                let s1 = locs@;
                assert(s1 =~= s0.take(i as int) + s0.skip(i + 1));
                assert(ids_unique(s1)) by {
                    assert forall|a: int, b: int| 0 <= a < b < s1.len() implies (#[trigger] s1[a]).0
                        != (#[trigger] s1[b]).0 by {
                        let a0 = if a < i { a } else { a + 1 };
                        let b0 = if b < i { b } else { b + 1 };
                        assert(s1[a] == s0[a0] && s1[b] == s0[b0]);
                    }
                }
                let target = locations_map(s0).remove(*nl);
                assert forall|k: SessionId| #[trigger] locations_map(s1).contains_key(k) <==> target.contains_key(k) by {
                    if locations_map(s1).contains_key(k) {
                        let a = choose|a: int| 0 <= a < s1.len() && s1[a].0 == k;
                        let a0 = if a < i { a } else { a + 1 };
                        assert(s1[a] == s0[a0]);
                        if k == *nl {
                            if a0 < i {
                                assert(s0[a0].0 != s0[i as int].0);
                            } else {
                                assert(s0[i as int].0 != s0[a0].0);
                            }
                        }
                    }
                    if target.contains_key(k) {
                        let a0 = choose|a0: int| 0 <= a0 < s0.len() && s0[a0].0 == k;
                        assert(a0 != i);
                        let a = if a0 < i { a0 } else { a0 - 1 };
                        assert(s1[a] == s0[a0]);
                    }
                }
                assert forall|k: SessionId| #[trigger] locations_map(s1).contains_key(k) implies locations_map(
                    s1,
                )[k] == target[k] by {
                    let a = choose|a: int| 0 <= a < s1.len() && s1[a].0 == k;
                    let a0 = if a < i { a } else { a + 1 };
                    assert(s1[a] == s0[a0]);
                    lemma_location_at(s1, a);
                    lemma_location_at(s0, a0);
                }
                assert(locations_map(s1) =~= target);
            }
            return;
        }
        i = i + 1;
    }
    assert(locations_map(s0) =~= locations_map(s0).remove(*nl));
}

/// A list without repeated ids has as many locations as its map.
proof fn lemma_locations_len(v: Seq<(SessionId, NetworkLocationAddress)>)
    requires
        ids_unique(v),
    ensures
        locations_map(v).len() == v.len(),
        locations_map(v).dom().finite(),
{
    let ids = v.map_values(|x: (SessionId, NetworkLocationAddress)| x.0);
    assert(ids.no_duplicates()) by {
        assert forall|a: int, b: int| 0 <= a < ids.len() && 0 <= b < ids.len() && a != b implies ids[a]
            != ids[b] by {
            if a < b {
                assert(v[a].0 != v[b].0);
            } else {
                assert(v[b].0 != v[a].0);
            }
        }
    }
    assert(locations_map(v).dom() =~= ids.to_set()) by {
        assert forall|id: SessionId| locations_map(v).dom().contains(id) <==> ids.to_set().contains(id) by {
            if locations_map(v).dom().contains(id) {
                let j = choose|j: int| 0 <= j < v.len() && v[j].0 == id;
                assert(ids[j] == id);
            }
            if ids.to_set().contains(id) {
                let j = choose|j: int| 0 <= j < ids.len() && ids[j] == id;
                assert(v[j].0 == id);
            }
        }
    }
    ids.unique_seq_to_set();
}

/// `rand::seq::index::sample(rng, n, 1)`, which `SliceRandom::choose_multiple`
/// uses to pick one item of a slice: an index below `n`, picked at random.
#[verifier::external_body]
fn random_index(n: usize) -> (r: usize)
    requires
        n >= 1,
    ensures
        r < n,
{
    rand::seq::index::sample(&mut rand::thread_rng(), n, 1).index(0)
}

/// `bs` with one of its locations kept, picked at random.
pub fn backend_set_prune(bs: &BackendSet) -> (r: BackendSet)
    requires
        ids_unique(bs.locations@),
    ensures
        r.haproxy_header_version == bs.haproxy_header_version,
        r.haproxy_header_allow_passthrough == bs.haproxy_header_allow_passthrough,
        ids_unique(r.locations@),
        r.locations@.len() == if bs.locations@.len() == 0 {
            0nat
        } else {
            1nat
        },
        set_view(r).locations.len() == r.locations@.len(),
        set_view(r).locations.submap_of(set_view(*bs).locations),
{
    let mut locations: Vec<(SessionId, NetworkLocationAddress)> = Vec::new();
    if bs.locations.len() > 0 {
        let k = random_index(bs.locations.len());
        let (id, loc) = (bs.locations[k].0, copy_location(&bs.locations[k].1));
        locations.push((id, loc));
        proof {
            lemma_location_at(bs.locations@, k as int);
            lemma_location_at(locations@, 0);
        }
    }
    proof {
        lemma_locations_len(locations@);
        lemma_locations_len(bs.locations@);
        assert forall|id: SessionId| #[trigger] locations_map(locations@).contains_key(id) implies locations_map(
            bs.locations@,
        ).contains_key(id) && locations_map(locations@)[id] == locations_map(bs.locations@)[id] by {
            let a = choose|a: int| 0 <= a < locations@.len() && locations@[a].0 == id;
            assert(a == 0);
        }
    }
    BackendSet {
        haproxy_header_version: bs.haproxy_header_version,
        haproxy_header_allow_passthrough: bs.haproxy_header_allow_passthrough,
        locations,
    }
}

} // verus!
