//! Which backends of a hostname the multiplexor may dial now: those without
//! statistics, and those whose back-off has run out. Backends are keyed by
//! address, and unix socket paths by two hashes of the path seeded in this
//! process. Times are milliseconds of a monotonic clock.

use vstd::prelude::*;

use std::collections::hash_map::RandomState;
use std::hash::BuildHasher;
use std::path::PathBuf;

use smallvec::SmallVec;

verus! {

/// `std::path::PathBuf`, known to the verifier only by name.
#[verifier::external_type_specification]
#[verifier::external_body]
pub struct ExPathBuf(PathBuf);

/// The candidates picked for dialing, by index, in a `smallvec::SmallVec`
/// that keeps up to eight of them inline. The verifier cannot take the
/// crate's type in a signature, so it is held here out of its sight.
#[verifier::external_body]
pub struct CandidateList {
    inner: SmallVec<[usize; 8]>,
}

/// The indices held by `v`, in order.
pub uninterp spec fn candidate_items(v: CandidateList) -> Seq<usize>;

impl CandidateList {
    /// `SmallVec::new`: no candidates.
    #[verifier::external_body]
    fn sv_new() -> (r: CandidateList)
        ensures
            candidate_items(r) == Seq::<usize>::empty(),
    {
        CandidateList { inner: SmallVec::new() }
    }

    /// `SmallVec::len`: the number of candidates.
    #[verifier::external_body]
    fn sv_len(&self) -> (r: usize)
        ensures
            r == candidate_items(*self).len(),
    {
        self.inner.len()
    }

    /// Indexing a `SmallVec`: the candidate at `i`.
    #[verifier::external_body]
    fn sv_get(&self, i: usize) -> (r: usize)
        requires
            i < candidate_items(*self).len(),
        ensures
            r == candidate_items(*self)[i as int],
    {
        self.inner[i]
    }

    /// `SmallVec::push`: appends `x`; the crate panics where the length
    /// would overflow.
    #[verifier::external_body]
    fn sv_push(&mut self, x: usize)
        requires
            candidate_items(*old(self)).len() < usize::MAX,
        ensures
            candidate_items(*final(self)) == candidate_items(*old(self)).push(x),
    {
        self.inner.push(x)
    }

    /// No candidates.
    pub fn new() -> (r: CandidateList)
        ensures
            candidate_items(r) == Seq::<usize>::empty(),
    {
        Self::sv_new()
    }

    /// The number of candidates.
    pub fn len(&self) -> (r: usize)
        ensures
            r == candidate_items(*self).len(),
    {
        self.sv_len()
    }

    /// The candidate at `i`.
    pub fn get(&self, i: usize) -> (r: usize)
        requires
            i < candidate_items(*self).len(),
        ensures
            r == candidate_items(*self)[i as int],
    {
        self.sv_get(i)
    }
}

/// The address of a backend: a unix socket path, or an IPv4 or IPv6
/// address given as its bits.
#[derive(Debug)]
pub enum BackendAddress {
    UnixSocket(PathBuf),
    TcpV4(u32),
    TcpV6(u128),
}

/// The key under which a backend's statistics are kept.
#[derive(Debug, Clone, Copy, PartialEq, Eq, Structural)]
pub enum BackendKeyInternal {
    UnixSocket { unix_socket_hash1: u64, unix_socket_hash2: u64 },
    TcpV4(u32),
    TcpV6(u128),
}

/// A backend's record of attempts: failures in a row, the base back-off,
/// the last attempt and the earliest next attempt.
#[derive(Debug, Clone, Copy)]
pub struct BackendStatistics {
    pub failure_count: u32,
    pub attempt_scaling_factor: u64,
    pub last_attempt: u64,
    pub next_allowed_attempt: u64,
}

/// The base back-off, one second.
pub const DEFAULT_ATTEMPT_SCALING_FACTOR: u64 = 1000;

/// How long ago a new backend counts as last tried, ten minutes.
pub const DEFAULT_STARTING_LAST_ATTEMPT_AGO: u64 = 600000;

impl BackendStatistics {
    /// The statistics of a backend first seen at `now`: no failures, the
    /// default back-off, and last tried ten minutes before `now` (or at the
    /// clock's origin, if `now` is earlier).
    pub fn starting_at(now: u64) -> (r: BackendStatistics)
        ensures
            r.failure_count == 0,
            r.attempt_scaling_factor == DEFAULT_ATTEMPT_SCALING_FACTOR,
            r.last_attempt == if now >= DEFAULT_STARTING_LAST_ATTEMPT_AGO {
                (now - DEFAULT_STARTING_LAST_ATTEMPT_AGO) as u64
            } else {
                0
            },
            r.next_allowed_attempt == r.last_attempt,
    {
        let start = now.saturating_sub(DEFAULT_STARTING_LAST_ATTEMPT_AGO);
        BackendStatistics {
            failure_count: 0,
            attempt_scaling_factor: DEFAULT_ATTEMPT_SCALING_FACTOR,
            last_attempt: start,
            next_allowed_attempt: start,
        }
    }
}

/// `BuildHasher::hash_one`: the hash of `path` under `hasher`. Each process
/// seeds its hashers anew, so nothing is stated of the result.
#[verifier::external_body]
fn path_hash(hasher: &RandomState, path: &PathBuf) -> u64 {
    hasher.hash_one(path)
}

/// Whether `key` is a key that `address` can have: its own address for a
/// TCP backend, some pair of hashes for a unix socket.
pub open spec fn key_fits(address: BackendAddress, key: BackendKeyInternal) -> bool {
    match address {
        BackendAddress::UnixSocket(_) => key is UnixSocket,
        BackendAddress::TcpV4(a) => key == BackendKeyInternal::TcpV4(a),
        BackendAddress::TcpV6(a) => key == BackendKeyInternal::TcpV6(a),
    }
}

/// The key of the statistics of `key`: the address of a TCP backend, or
/// the hashes of a unix socket's path under the two hashers.
pub fn create_backend_key_internal(
    unix_socket_hasher1: &RandomState,
    unix_socket_hasher2: &RandomState,
    key: &BackendAddress,
) -> (r: BackendKeyInternal)
    ensures
        key_fits(*key, r),
{
    match key {
        BackendAddress::UnixSocket(usi) => BackendKeyInternal::UnixSocket {
            unix_socket_hash1: path_hash(unix_socket_hasher1, usi),
            unix_socket_hash2: path_hash(unix_socket_hasher2, usi),
        },
        BackendAddress::TcpV4(v) => BackendKeyInternal::TcpV4(*v),
        BackendAddress::TcpV6(v) => BackendKeyInternal::TcpV6(*v),
    }
}

/// The statistics of the backends, one record per key.
pub struct StatsTable {
    entries: Vec<(BackendKeyInternal, BackendStatistics)>,
}

/// The statistics kept for `key` in `entries`, the first of a key.
pub open spec fn stats_lookup(entries: Seq<(BackendKeyInternal, BackendStatistics)>, key: BackendKeyInternal) -> Option<BackendStatistics>
    decreases entries.len(),
{
    if entries.len() == 0 {
        None
    } else if entries[0].0 == key {
        Some(entries[0].1)
    } else {
        stats_lookup(entries.drop_first(), key)
    }
}

impl StatsTable {
    /// The records, in the order they were first kept.
    pub closed spec fn view_entries(&self) -> Seq<(BackendKeyInternal, BackendStatistics)> {
        self.entries@
    }

    /// The statistics kept for `key`.
    pub open spec fn spec_get(&self, key: BackendKeyInternal) -> Option<BackendStatistics> {
        stats_lookup(self.view_entries(), key)
    }

    /// A table with no records.
    pub fn new() -> (r: StatsTable)
        ensures
            forall|k: BackendKeyInternal| r.spec_get(k) is None,
    {
        StatsTable { entries: Vec::new() }
    }

    /// The statistics kept for `key`.
    pub fn get(&self, key: &BackendKeyInternal) -> (r: Option<BackendStatistics>)
        ensures
            r == self.spec_get(*key),
    {
        let mut i: usize = 0;
        assert(self.entries@.skip(0) =~= self.entries@);
        while i < self.entries.len()
            invariant
                0 <= i <= self.entries@.len(),
                stats_lookup(self.entries@, *key) == stats_lookup(self.entries@.skip(i as int), *key),
            decreases self.entries@.len() - i,
        {
            assert(self.entries@.skip(i as int).drop_first() =~= self.entries@.skip(i + 1));
            if self.entries[i].0 == *key {
                return Some(self.entries[i].1);
            }
            i = i + 1;
        }
        None
    }

    /// Keeps `stats` for `key`, in place of what was kept for it.
    pub fn insert(&mut self, key: BackendKeyInternal, stats: BackendStatistics)
        ensures
            final(self).spec_get(key) == Some(stats),
            forall|k: BackendKeyInternal| k != key ==> final(self).spec_get(k) == old(self).spec_get(k),
    {
        let ghost before = self.entries@;
        let mut i: usize = 0;
        while i < self.entries.len()
            invariant
                0 <= i <= self.entries@.len(),
                self.entries@ == before,
                before == old(self).entries@,
                forall|j: int| 0 <= j < i ==> (#[trigger] before[j]).0 != key,
            decreases self.entries@.len() - i,
        {
            if self.entries[i].0 == key {
                self.entries.set(i, (key, stats));
                proof {
                    assert(self.entries@ == before.update(i as int, (key, stats)));
                    lemma_lookup_update(before, i as int, key, stats);
                    assert forall|k: BackendKeyInternal| k != key implies self.spec_get(k)
                        == stats_lookup(before, k) by {
                        assert(stats_lookup(before.update(i as int, (key, stats)), k) == stats_lookup(before, k));
                    }
                }
                return;
            }
            i = i + 1;
        }
        self.entries.push((key, stats));
        proof {
            lemma_lookup_push(before, key, stats);
        }
    }
}

/// Setting the first record of `key` finds the new statistics for it and
/// leaves the other keys.
proof fn lemma_lookup_update(
    s: Seq<(BackendKeyInternal, BackendStatistics)>,
    i: int,
    key: BackendKeyInternal,
    stats: BackendStatistics,
)
    requires
        0 <= i < s.len(),
        s[i].0 == key,
        forall|j: int| 0 <= j < i ==> (#[trigger] s[j]).0 != key,
    ensures
        stats_lookup(s.update(i, (key, stats)), key) == Some(stats),
        forall|k: BackendKeyInternal|
            k != key ==> stats_lookup(s.update(i, (key, stats)), k) == stats_lookup(s, k),
    decreases s.len(),
{
    let t = s.update(i, (key, stats));
    if i == 0 {
        assert(t.drop_first() =~= s.drop_first());
        assert forall|k: BackendKeyInternal| k != key implies stats_lookup(t, k) == stats_lookup(s, k) by {
            assert(t[0].0 == key);
            assert(s[0].0 == key);
            assert(stats_lookup(t.drop_first(), k) == stats_lookup(s.drop_first(), k));
        }
    } else {
        assert(t.drop_first() =~= s.drop_first().update(i - 1, (key, stats)));
        lemma_lookup_update(s.drop_first(), i - 1, key, stats);
        assert(t[0] == s[0]);
        assert(s[0].0 != key);
        assert forall|k: BackendKeyInternal| k != key implies stats_lookup(t, k) == stats_lookup(s, k) by {
            if s[0].0 != k {
                assert(stats_lookup(t.drop_first(), k) == stats_lookup(s.drop_first(), k));
            }
        }
    }
}

/// Adding a record for a new key finds it and leaves the other keys.
proof fn lemma_lookup_push(
    s: Seq<(BackendKeyInternal, BackendStatistics)>,
    key: BackendKeyInternal,
    stats: BackendStatistics,
)
    requires
        forall|j: int| 0 <= j < s.len() ==> (#[trigger] s[j]).0 != key,
    ensures
        stats_lookup(s.push((key, stats)), key) == Some(stats),
        forall|k: BackendKeyInternal|
            k != key ==> stats_lookup(s.push((key, stats)), k) == stats_lookup(s, k),
    decreases s.len(),
{
    let t = s.push((key, stats));
    if s.len() > 0 {
        assert(t.drop_first() =~= s.drop_first().push((key, stats)));
        lemma_lookup_push(s.drop_first(), key, stats);
        assert(t[0] == s[0]);
        assert(s[0].0 != key);
        assert forall|k: BackendKeyInternal| k != key implies stats_lookup(t, k) == stats_lookup(s, k) by {
            if s[0].0 != k {
                assert(stats_lookup(t.drop_first(), k) == stats_lookup(s.drop_first(), k));
            }
        }
    } else {
        assert(t.drop_first() =~= Seq::<(BackendKeyInternal, BackendStatistics)>::empty());
        assert forall|k: BackendKeyInternal| k != key implies stats_lookup(t, k) == stats_lookup(s, k) by {
            assert(t[0].0 == key);
            assert(stats_lookup(t.drop_first(), k) is None);
        }
    }
}

/// Whether a backend keyed `key` may be dialed at `now`: it has no
/// statistics, or its back-off has run out.
pub open spec fn may_dial(stats: StatsTable, key: BackendKeyInternal, now: u64) -> bool {
    match stats.spec_get(key) {
        None => true,
        Some(st) => st.next_allowed_attempt <= now,
    }
}

/// The indices of the candidates from `i` on, keyed by `keys`, that may be
/// dialed at `now`, at most `room` of them, in order.
pub open spec fn chosen_from(keys: Seq<BackendKeyInternal>, stats: StatsTable, room: int, now: u64, i: int) -> Seq<int>
    decreases keys.len() - i,
{
    if i < 0 || i >= keys.len() || room <= 0 {
        Seq::empty()
    } else if may_dial(stats, keys[i], now) {
        seq![i] + chosen_from(keys, stats, room - 1, now, i + 1)
    } else {
        chosen_from(keys, stats, room, now, i + 1)
    }
}

/// The indices of the candidates from `i` on, keyed by `keys`, that may be
/// dialed at `now`, in order.
pub open spec fn dialable_from(keys: Seq<BackendKeyInternal>, stats: StatsTable, now: u64, i: int) -> Seq<int>
    decreases keys.len() - i,
{
    if i < 0 || i >= keys.len() {
        Seq::empty()
    } else if may_dial(stats, keys[i], now) {
        seq![i] + dialable_from(keys, stats, now, i + 1)
    } else {
        dialable_from(keys, stats, now, i + 1)
    }
}

/// `n` where it lies between 0 and `m`, else the nearer bound.
pub open spec fn clamp(n: int, m: int) -> int {
    if n < 0 {
        0
    } else if n > m {
        m
    } else {
        n
    }
}

/// The candidates chosen are the dialable ones, in order, cut to the room
/// left: as many as there is room for, none where there is none.
pub proof fn lemma_chosen_is_prefix(keys: Seq<BackendKeyInternal>, stats: StatsTable, room: int, now: u64, i: int)
    requires
        0 <= i,
    ensures
        chosen_from(keys, stats, room, now, i) == dialable_from(keys, stats, now, i).take(
            clamp(room, dialable_from(keys, stats, now, i).len() as int),
        ),
    decreases keys.len() - i,
{
    let d = dialable_from(keys, stats, now, i);
    if i >= keys.len() {
        assert(d.take(clamp(room, d.len() as int)) =~= Seq::<int>::empty());
    } else if room <= 0 {
        lemma_chosen_is_prefix(keys, stats, room, now, i + 1);
        assert(d.take(clamp(room, d.len() as int)) =~= Seq::<int>::empty());
    } else if may_dial(stats, keys[i], now) {
        lemma_chosen_is_prefix(keys, stats, room - 1, now, i + 1);
        let d1 = dialable_from(keys, stats, now, i + 1);
        assert(d == seq![i] + d1);
        assert(d.take(clamp(room, d.len() as int)) =~= seq![i] + d1.take(clamp(room - 1, d1.len() as int)));
    } else {
        lemma_chosen_is_prefix(keys, stats, room, now, i + 1);
    }
}

/// At most `room` candidates are chosen, each from `i` on.
proof fn lemma_chosen_bounds(keys: Seq<BackendKeyInternal>, stats: StatsTable, room: int, now: u64, i: int)
    requires
        0 <= i,
    ensures
        chosen_from(keys, stats, room, now, i).len() <= if room < 0 { 0 } else { room },
        forall|j: int|
            0 <= j < chosen_from(keys, stats, room, now, i).len() ==> i <= #[trigger] chosen_from(
                keys,
                stats,
                room,
                now,
                i,
            )[j] < keys.len(),
    decreases keys.len() - i,
{
    if i < keys.len() && room > 0 {
        lemma_chosen_bounds(keys, stats, room - 1, now, i + 1);
        lemma_chosen_bounds(keys, stats, room, now, i + 1);
    }
}

/// Whether `after` is `before` followed by the indices of the candidates,
/// keyed by `keys`, that may be dialed at `now`, in order, until it holds
/// `limit` of them (the dialable ones, cut to the room left); each key being
/// one that its candidate can have.
pub open spec fn lookup_outcome(
    candidates: Seq<BackendAddress>,
    keys: Seq<BackendKeyInternal>,
    stats: StatsTable,
    before: Seq<usize>,
    after: Seq<usize>,
    limit: usize,
    now: u64,
) -> bool {
    let chosen = chosen_from(keys, stats, limit - before.len(), now, 0);
    let dialable = dialable_from(keys, stats, now, 0);
    &&& keys.len() == candidates.len()
    &&& forall|i: int| 0 <= i < keys.len() ==> key_fits(candidates[i], #[trigger] keys[i])
    &&& after == before + chosen.map_values(|x: int| x as usize)
    &&& after == before + dialable.take(clamp(limit - before.len(), dialable.len() as int)).map_values(
        |x: int| x as usize,
    )
}

/// Appends to `into` the indices of the candidates that may be dialed at
/// `now`, in order, until `into` holds `limit` of them. Candidates should
/// come in random order.
pub fn backend_manager_lookup_best_backends(
    candidates: &[BackendAddress],
    unix_socket_hasher1: &RandomState,
    unix_socket_hasher2: &RandomState,
    stats: &StatsTable,
    into: &mut CandidateList,
    limit: usize,
    now: u64,
)
    ensures
        exists|keys: Seq<BackendKeyInternal>|
            #[trigger] lookup_outcome(
                candidates@,
                keys,
                *stats,
                candidate_items(*old(into)),
                candidate_items(*final(into)),
                limit,
                now,
            ),
{
    let mut keys: Vec<BackendKeyInternal> = Vec::new();
    let mut i: usize = 0;
    while i < candidates.len()
        invariant
            0 <= i <= candidates@.len(),
            keys@.len() == i,
            forall|j: int| 0 <= j < i ==> key_fits(candidates@[j], #[trigger] keys@[j]),
        decreases candidates@.len() - i,
    {
        let k = create_backend_key_internal(unix_socket_hasher1, unix_socket_hasher2, &candidates[i]);
        keys.push(k);
        i = i + 1;
    }
    let ghost start = candidate_items(*into);
    let picked = choose_dialable(&keys, stats, limit, into.len(), now);
    proof {
        lemma_chosen_bounds(keys@, *stats, limit - start.len(), now, 0);
    }
    let mut j: usize = 0;
    while j < picked.len()
        invariant
            0 <= j <= picked@.len(),
            picked@ =~= chosen_from(keys@, *stats, limit - start.len(), now, 0).map_values(|x: int| x as usize),
            picked@.len() <= if limit - start.len() < 0 { 0 } else { limit - start.len() },
            candidate_items(*into) == start + picked@.take(j as int),
        decreases picked@.len() - j,
    {
        let ghost before = candidate_items(*into);
        into.sv_push(picked[j]);
        proof {
            assert(start + picked@.take(j + 1) =~= before.push(picked@[j as int]));
        }
        j = j + 1;
    }
    proof {
        assert(picked@.take(picked@.len() as int) =~= picked@);
        lemma_chosen_is_prefix(keys@, *stats, limit - start.len(), now, 0);
        assert(lookup_outcome(candidates@, keys@, *stats, start, candidate_items(*into), limit, now));
    }
}

/// The indices of the candidates keyed by `keys` that may be dialed at
/// `now`, in order, at most `limit - taken` of them.
pub fn choose_dialable(keys: &Vec<BackendKeyInternal>, stats: &StatsTable, limit: usize, taken: usize, now: u64) -> (r: Vec<usize>)
    ensures
        r@ =~= chosen_from(keys@, *stats, limit - taken, now, 0).map_values(|x: int| x as usize),
        forall|t: int| 0 <= t < r@.len() ==> (#[trigger] r@[t]) < keys@.len(),
{
    let mut out: Vec<usize> = Vec::new();
    let mut count: usize = taken;
    let mut i: usize = 0;
    proof {
        lemma_chosen_bounds(keys@, *stats, limit - taken, now, 0);
    }
    while i < keys.len() && count < limit
        invariant
            0 <= i <= keys@.len(),
            taken <= count,
            count == taken + out@.len(),
            chosen_from(keys@, *stats, limit - taken, now, 0) =~= out@.map_values(|x: usize| x as int)
                + chosen_from(keys@, *stats, limit - count, now, i as int),
            forall|t: int| 0 <= t < out@.len() ==> (#[trigger] out@[t]) < i,
        decreases keys@.len() - i,
    {
        let ghost rest = chosen_from(keys@, *stats, limit - count, now, i as int);
        let ok = match stats.get(&keys[i]) {
            Some(st) => st.next_allowed_attempt <= now,
            None => true,
        };
        if ok {
            let ghost prev = out@;
            out.push(i);
            count = count + 1;
            assert(out@.map_values(|x: usize| x as int) =~= prev.map_values(|x: usize| x as int).push(i as int));
        }
        i = i + 1;
    }
    proof {
        lemma_chosen_bounds(keys@, *stats, limit - count, now, i as int);
        assert(out@ =~= chosen_from(keys@, *stats, limit - taken, now, 0).map_values(|x: int| x as usize));
    }
    out
}

} // verus!
