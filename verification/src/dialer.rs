//! The health of each backend as the dialer sees it: a bounded history of
//! handshake latencies with its 95th percentile, and exponential back-off
//! after failed attempts. Times are milliseconds of a monotonic clock.

use vstd::prelude::*;
use vstd::multiset::Multiset;

use crate::tls_sni::StartHandle;

verus! {

/// One successful handshake: when it started, and how long it took.
#[derive(Debug, Clone, Copy, PartialEq, Eq)]
pub struct LatencyDatapoint {
    pub when: u64,
    pub latency: u64,
}

/// The latest handshakes of a backend, at most `max_records` of them, kept
/// sorted by latency, and the 95th percentile of their latencies.
#[derive(Debug)]
pub struct LatencyHistory {
    data_points: Vec<LatencyDatapoint>,
    max_records: usize,
    ninety_fifth_percentile: u64,
}

/// Whether the points are in order of latency.
pub open spec fn sorted_by_latency(s: Seq<LatencyDatapoint>) -> bool {
    forall|i: int, j: int| 0 <= i <= j < s.len() ==> (#[trigger] s[i]).latency <= (#[trigger] s[j]).latency
}

/// The index of the point of `s` that started first, the first of equals.
pub open spec fn oldest_index(s: Seq<LatencyDatapoint>, i: int, best: int) -> int
    decreases s.len() - i,
{
    if i >= s.len() {
        best
    } else if s[i].when < s[best].when {
        oldest_index(s, i + 1, i)
    } else {
        oldest_index(s, i + 1, best)
    }
}

/// The index of the oldest point lies within the points.
proof fn lemma_oldest_bounds(s: Seq<LatencyDatapoint>, i: int, best: int)
    requires
        0 <= best < s.len(),
        0 <= i,
    ensures
        0 <= oldest_index(s, i, best) < s.len(),
    decreases s.len() - i,
{
    if i < s.len() {
        if s[i].when < s[best].when {
            lemma_oldest_bounds(s, i + 1, i);
        } else {
            lemma_oldest_bounds(s, i + 1, best);
        }
    }
}

impl LatencyHistory {
    /// An empty history that keeps at most `max_records` points.
    pub fn new(max_records: usize) -> (r: LatencyHistory)
        requires
            max_records > 0,
            19 * max_records <= usize::MAX,
        ensures
            r.wf(),
            r.points().len() == 0,
            r.max_records() == max_records,
            r.ninety_fifth_percentile() == 0,
    {
        LatencyHistory { data_points: Vec::new(), max_records, ninety_fifth_percentile: 0 }
    }

    /// The points, in order of latency.
    pub closed spec fn points(&self) -> Seq<LatencyDatapoint> {
        self.data_points@
    }

    /// The most points kept.
    pub closed spec fn max_records(&self) -> usize {
        self.max_records
    }

    /// The 95th percentile of the latencies.
    pub closed spec fn ninety_fifth_percentile(&self) -> u64 {
        self.ninety_fifth_percentile
    }

    /// The 95th percentile of the latencies.
    pub fn ninety_fifth(&self) -> (r: u64)
        ensures
            r == self.ninety_fifth_percentile(),
    {
        self.ninety_fifth_percentile
    }

    /// Whether the history holds no more points than it keeps.
    pub open spec fn wf(&self) -> bool {
        &&& self.points().len() <= self.max_records()
        &&& self.max_records() > 0
        &&& 19 * self.max_records() <= usize::MAX
    }

    /// The index of the point that started first, the first of equals.
    pub fn find_oldest_index(&self) -> (r: usize)
        requires
            self.points().len() > 0,
        ensures
            r == oldest_index(self.points(), 1, 0),
            r < self.points().len(),
            forall|i: int| 0 <= i < self.points().len() ==> self.points()[r as int].when <= (
            #[trigger] self.points()[i]).when,
    {
        let s = &self.data_points;
        let mut min_idx: usize = 0;
        let mut i: usize = 1;
        proof {
            lemma_oldest_bounds(s@, 1, 0);
        }
        while i < s.len()
            invariant
                1 <= i <= s@.len(),
                min_idx < i,
                oldest_index(s@, 1, 0) == oldest_index(s@, i as int, min_idx as int),
                forall|j: int| 0 <= j < i ==> s@[min_idx as int].when <= (#[trigger] s@[j]).when,
            decreases s@.len() - i,
        {
            if s[i].when < s[min_idx].when {
                min_idx = i;
            }
            i = i + 1;
        }
        min_idx
    }

    /// Records the handshake `dp`: a full history gives up its oldest point
    /// for it. The points are then sorted by latency, points of equal latency
    /// keeping their order, and the 95th percentile
    /// is the latency at index `19 * len / 20`.
    pub fn update(&mut self, dp: LatencyDatapoint)
        requires
            old(self).wf(),
        ensures
            final(self).wf(),
            final(self).max_records() == old(self).max_records(),
            sorted_by_latency(final(self).points()),
            final(self).points() == stable_sort_by_latency(
                if old(self).points().len() == old(self).max_records() {
                    old(self).points().update(oldest_index(old(self).points(), 1, 0), dp)
                } else {
                    old(self).points().push(dp)
                },
            ),
            final(self).points().to_multiset() == if old(self).points().len() == old(
                self,
            ).max_records() {
                old(self).points().update(oldest_index(old(self).points(), 1, 0), dp).to_multiset()
            } else {
                old(self).points().push(dp).to_multiset()
            },
            final(self).ninety_fifth_percentile() == final(self).points()[(19
                * final(self).points().len() / 20) as int].latency,
    {
        if self.data_points.len() == self.max_records {
            let oldest = self.find_oldest_index();
            self.data_points.set(oldest, dp);
        } else {
            self.data_points.push(dp);
        }
        let ghost unsorted = self.data_points@;
        sort_by_latency(&mut self.data_points);
        let n = self.data_points.len();
        assert(19 * n / 20 < n) by (nonlinear_arith)
            requires
                n > 0,
        ;
        self.ninety_fifth_percentile = self.data_points[19 * n / 20].latency;
    }
}

/// `p` with `x` inserted after every point whose latency is at most its own.
pub open spec fn insert_by_latency(p: Seq<LatencyDatapoint>, x: LatencyDatapoint) -> Seq<
    LatencyDatapoint,
>
    decreases p.len(),
{
    if p.len() == 0 {
        seq![x]
    } else if p.last().latency > x.latency {
        insert_by_latency(p.drop_last(), x).push(p.last())
    } else {
        p.push(x)
    }
}

/// `s` sorted by latency, points of equal latency keeping their order in `s`.
pub open spec fn stable_sort_by_latency(s: Seq<LatencyDatapoint>) -> Seq<LatencyDatapoint>
    decreases s.len(),
{
    if s.len() == 0 {
        s
    } else {
        insert_by_latency(stable_sort_by_latency(s.drop_last()), s.last())
    }
}

/// Inserting `x` where the points before it are no later and those after it
/// later in latency.
proof fn lemma_insert_at(p: Seq<LatencyDatapoint>, x: LatencyDatapoint, j: int)
    requires
        0 <= j <= p.len(),
        forall|k: int| j <= k < p.len() ==> (#[trigger] p[k]).latency > x.latency,
        j == 0 || p[j - 1].latency <= x.latency,
    ensures
        insert_by_latency(p, x) == p.take(j) + seq![x] + p.skip(j),
    decreases p.len() - j,
{
    if p.len() == j {
        assert(p.take(j) =~= p);
        assert(p.skip(j) =~= Seq::<LatencyDatapoint>::empty());
        if p.len() == 0 {
            assert(p.take(j) + seq![x] + p.skip(j) =~= seq![x]);
        } else {
            assert(p.take(j) + seq![x] + p.skip(j) =~= p.push(x));
        }
    } else {
        let q = p.drop_last();
        assert forall|k: int| j <= k < q.len() implies (#[trigger] q[k]).latency > x.latency by {
            assert(q[k] == p[k]);
        }
        lemma_insert_at(q, x, j);
        assert(q.take(j) =~= p.take(j));
        assert(q.skip(j).push(p.last()) =~= p.skip(j));
        assert((q.take(j) + seq![x] + q.skip(j)).push(p.last()) =~= p.take(j) + seq![x] + p.skip(j));
    }
}

/// Sorts `v` by latency, keeping points of equal latency in order.
fn sort_by_latency(v: &mut Vec<LatencyDatapoint>)
    ensures
        final(v)@ == stable_sort_by_latency(old(v)@),
        sorted_by_latency(final(v)@),
        final(v)@.to_multiset() == old(v)@.to_multiset(),
        final(v)@.len() == old(v)@.len(),
{
    let n = v.len();
    let mut i: usize = 1;
    if n == 0 {
        assert(old(v)@ =~= Seq::<LatencyDatapoint>::empty());
        return;
    }
    proof {
        assert(old(v)@.take(1).drop_last() =~= Seq::<LatencyDatapoint>::empty());
        assert(stable_sort_by_latency(Seq::<LatencyDatapoint>::empty()) =~= Seq::<LatencyDatapoint>::empty());
        assert(old(v)@.take(1).last() == old(v)@[0]);
        assert(insert_by_latency(Seq::<LatencyDatapoint>::empty(), old(v)@[0]) =~= v@.take(1));
        assert(v@.skip(1) =~= old(v)@.skip(1));
    }
    while i < n
        invariant
            1 <= i <= n,
            n == v@.len(),
            n == old(v)@.len(),
            v@.take(i as int) == stable_sort_by_latency(old(v)@.take(i as int)),
            v@.skip(i as int) == old(v)@.skip(i as int),
            sorted_by_latency(v@.take(i as int)),
            v@.to_multiset() == old(v)@.to_multiset(),
        decreases n - i,
    {
        let mut j: usize = i;
        let ghost p = v@.take(i as int);
        let ghost x = v@[i as int];
        proof {
            assert(x == old(v)@[i as int]) by {
                assert(v@.skip(i as int)[0] == v@[i as int]);
                assert(old(v)@.skip(i as int)[0] == old(v)@[i as int]);
            }
            assert(v@.take(i as int + 1) =~= p.take(i as int) + seq![x] + p.skip(i as int));
            assert(v@.skip(i as int + 1) =~= old(v)@.skip(i as int + 1)) by {
                assert forall|k: int| 0 <= k < n - i - 1 implies #[trigger] v@.skip(i as int + 1)[k] == old(v)@.skip(i as int + 1)[k] by {
                    assert(v@.skip(i as int)[k + 1] == old(v)@.skip(i as int)[k + 1]);
                }
            }
            assert forall|a: int, b: int| 0 <= a <= b < i implies (#[trigger] v@[a]).latency <= (
            #[trigger] v@[b]).latency by {
                assert(v@.take(i as int)[a] == v@[a]);
                assert(v@.take(i as int)[b] == v@[b]);
            }
        }
        while j > 0 && v[j - 1].latency > v[j].latency
            invariant
                0 <= j <= i < n,
                n == v@.len(),
                v@.to_multiset() == old(v)@.to_multiset(),
                forall|a: int, b: int|
                    0 <= a <= b <= i && a != j && b != j ==> (#[trigger] v@[a]).latency <= (
                    #[trigger] v@[b]).latency,
                forall|b: int| j < b <= i ==> v@[j as int].latency < (#[trigger] v@[b]).latency,
                p.len() == i,
                v@.take(i as int + 1) == p.take(j as int) + seq![x] + p.skip(j as int),
                v@.skip(i as int + 1) == old(v)@.skip(i as int + 1),
                v@[j as int] == x,
                forall|k: int| j <= k < i ==> (#[trigger] p[k]).latency > x.latency,
            decreases j,
        {
            let ghost before = v@;
            let x = v[j - 1];
            let y = v[j];
            v.set(j - 1, y);
            v.set(j, x);
            proof {
                assert(v@ =~= before.update(j - 1, y).update(j as int, x));
                lemma_swap_multiset(before, j - 1, j as int);
                let b = before.take(i as int + 1);
                assert(b[j - 1] == p[j - 1]);
                assert(v@.take(i as int + 1) =~= b.update(j - 1, y).update(j as int, x));
                assert(p.skip(j - 1) =~= seq![p[j - 1]] + p.skip(j as int));
                assert(b.update(j - 1, y).update(j as int, x) =~= p.take(j - 1) + seq![y] + p.skip(j - 1));
                assert(v@.skip(i as int + 1) =~= before.skip(i as int + 1));
            }
            j = j - 1;
        }
        proof {
            if j > 0 {
                assert(v@.take(i as int + 1)[j - 1] == p[j - 1]);
            }
            lemma_insert_at(p, x, j as int);
            let o = old(v)@.take(i as int + 1);
            assert(o.drop_last() =~= old(v)@.take(i as int));
            assert(o.last() == x);
        }
        i = i + 1;
        proof {
            assert forall|a: int, b: int| 0 <= a <= b < i implies (#[trigger] v@.take(i as int)[a]).latency
                <= (#[trigger] v@.take(i as int)[b]).latency by {
                if a != j && b != j {
                } else if a == j && b == j {
                } else if a == j {
                } else {
                    if j > 0 && a < j {
                        assert(v@[a].latency <= v@[j - 1].latency);
                    }
                }
            }
        }
    }
    assert(v@.take(n as int) =~= v@);
    assert(old(v)@.take(n as int) =~= old(v)@);
}

/// Swapping two neighbours keeps the points.
proof fn lemma_swap_multiset(s: Seq<LatencyDatapoint>, a: int, b: int)
    requires
        0 <= a < b < s.len(),
    ensures
        s.update(a, s[b]).update(b, s[a]).to_multiset() == s.to_multiset(),
{
    broadcast use vstd::seq_lib::group_to_multiset_ensures;
    broadcast use vstd::multiset::group_multiset_axioms;
    let t = s.update(a, s[b]);
    assert(t.to_multiset() == s.to_multiset().insert(s[b]).remove(s[a]));
    assert(t[b] == s[b]);
    assert(t.update(b, s[a]).to_multiset() == t.to_multiset().insert(s[a]).remove(s[b]));
    assert(s.to_multiset().count(s[a]) > 0) by {
        assert(s.contains(s[a]));
    }
    assert(t.update(b, s[a]).to_multiset() =~= s.to_multiset());
}

/// A backend's record of attempts: failures in a row, the base back-off,
/// the last attempt, the earliest next attempt, and its handshake history.
#[derive(Debug)]
pub struct BackendStatistics {
    pub failure_count: u32,
    pub attempt_scaling_factor: u64,
    pub last_attempt: u64,
    pub next_allowed_attempt: u64,
    pub handshake_latency: LatencyHistory,
}

/// The back-off after `count` failures in a row: the base doubled once for
/// each failure after the first.
pub open spec fn backoff(base: nat, count: nat) -> nat
    decreases count,
{
    if count <= 1 {
        base
    } else {
        2 * backoff(base, (count - 1) as nat)
    }
}

/// The failure count after one more failure: it goes back to 10 on reaching 16.
pub open spec fn next_failure_count(c: u32) -> u32 {
    if 16 <= c + 1 {
        10
    } else {
        (c + 1) as u32
    }
}

impl BackendStatistics {
    /// Records a successful handshake that started at `start` and finished at `now`.
    pub fn mark_successful_attempt(&mut self, start: StartHandle, now: u64)
        requires
            old(self).handshake_latency.wf(),
        ensures
            final(self).handshake_latency.wf(),
            final(self).failure_count == old(self).failure_count,
            final(self).next_allowed_attempt == old(self).next_allowed_attempt,
            final(self).handshake_latency.points().to_multiset() == {
                let h = old(self).handshake_latency;
                let dp = LatencyDatapoint {
                    when: start.attempt_start,
                    latency: if now >= start.attempt_start {
                        (now - start.attempt_start) as u64
                    } else {
                        0
                    },
                };
                if h.points().len() == h.max_records() {
                    h.points().update(oldest_index(h.points(), 1, 0), dp).to_multiset()
                } else {
                    h.points().push(dp).to_multiset()
                }
            },
            sorted_by_latency(final(self).handshake_latency.points()),
    {
        self.handshake_latency.update(
            LatencyDatapoint {
                when: start.attempt_start,
                latency: now.saturating_sub(start.attempt_start),
            },
        );
    }

    /// Records a failed attempt that started at `start`: the failure count
    /// grows (back to 10 on reaching 16), and no attempt is allowed before
    /// the start plus the back-off, unless a later time was already set.
    pub fn mark_failed_event(&mut self, start: StartHandle)
        requires
            old(self).failure_count < 16,
            start.attempt_start + backoff(
                old(self).attempt_scaling_factor as nat,
                next_failure_count(old(self).failure_count) as nat,
            ) <= u64::MAX,
        ensures
            final(self).failure_count == next_failure_count(old(self).failure_count),
            ({
                let proposal = start.attempt_start + backoff(
                    old(self).attempt_scaling_factor as nat,
                    final(self).failure_count as nat,
                );
                final(self).next_allowed_attempt == if old(self).next_allowed_attempt < proposal {
                    proposal as u64
                } else {
                    old(self).next_allowed_attempt
                }
            }),
            final(self).attempt_scaling_factor == old(self).attempt_scaling_factor,
            final(self).last_attempt == old(self).last_attempt,
    {
        self.failure_count = self.failure_count + 1;
        if 16 <= self.failure_count {
            self.failure_count = 10;
        }
        let ghost base = self.attempt_scaling_factor as nat;
        let ghost total = backoff(base, self.failure_count as nat);
        proof {
            lemma_backoff_monotone(base, self.failure_count as nat);
        }
        let mut delay: u64 = self.attempt_scaling_factor;
        let mut k: u32 = 1;
        while k < self.failure_count
            invariant
                1 <= k,
                k <= self.failure_count || self.failure_count == 0,
                self.failure_count <= 15,
                delay == backoff(base, k as nat),
                base == self.attempt_scaling_factor,
                total == backoff(base, self.failure_count as nat),
                total <= u64::MAX,
                forall|a: nat, b: nat| a <= b ==> #[trigger] backoff(base, a) <= #[trigger] backoff(base, b),
            decreases self.failure_count - k,
        {
            assert(backoff(base, (k + 1) as nat) <= total);
            delay = delay + delay;
            k = k + 1;
        }
        let proposal = start.attempt_start + delay;
        if self.next_allowed_attempt < proposal {
            self.next_allowed_attempt = proposal;
        }
    }
}

/// The back-off grows with the failure count.
proof fn lemma_backoff_monotone(base: nat, n: nat)
    ensures
        forall|a: nat, b: nat| a <= b ==> #[trigger] backoff(base, a) <= #[trigger] backoff(base, b),
{
    assert forall|a: nat, b: nat| a <= b implies #[trigger] backoff(base, a) <= #[trigger] backoff(
        base,
        b,
    ) by {
        lemma_backoff_step(base, a, b);
    }
}

/// The back-off after `a` failures is at most that after `b >= a`.
proof fn lemma_backoff_step(base: nat, a: nat, b: nat)
    requires
        a <= b,
    ensures
        backoff(base, a) <= backoff(base, b),
    decreases b - a,
{
    if a < b {
        lemma_backoff_step(base, a, (b - 1) as nat);
        if b > 1 {
            assert(backoff(base, b) == 2 * backoff(base, (b - 1) as nat));
        }
    }
}

/// How many backends to dial at once, at most four.
pub fn dial_count(candidates: usize) -> (r: usize)
    ensures
        r == if candidates < 4 {
            candidates
        } else {
            4
        },
{
    if candidates < 4 {
        candidates
    } else {
        4
    }
}

} // verus!
