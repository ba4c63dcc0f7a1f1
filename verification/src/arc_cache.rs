//! The webserver's cache of inodes: an adaptive replacement cache (ARC).
//! Entries seen once live in the recent list, entries seen again in the
//! frequent list; each has a list of keys lately evicted from it, and the
//! target size `p` of the recent list moves towards whichever of those a
//! missed key is found in. The four lists are `linked_hash_map` maps kept
//! in insertion order.

use vstd::prelude::*;

use linked_hash_map::LinkedHashMap;

use crate::vfs::{entry_view, EntryView, VfsEntry};

verus! {

/// `linked_hash_map::LinkedHashMap`, known to the verifier only by name.
#[verifier::external_type_specification]
#[verifier::external_body]
#[verifier::reject_recursive_types(K)]
#[verifier::reject_recursive_types(V)]
#[verifier::reject_recursive_types(S)]
pub struct ExLinkedHashMap<K, V, S>(LinkedHashMap<K, V, S>);

/// The entries of a map of cached inodes, oldest first, each inode by its view.
pub uninterp spec fn lhm_entries(m: LinkedHashMap<i64, VfsEntry>) -> Seq<(i64, EntryView)>;

/// The keys of a map of evicted inodes, oldest first.
pub uninterp spec fn lhm_keys(m: LinkedHashMap<i64, ()>) -> Seq<i64>;

/// The keys of `s`, in order.
pub open spec fn ekeys(s: Seq<(i64, EntryView)>) -> Seq<i64> {
    s.map_values(|e: (i64, EntryView)| e.0)
}

/// The entry of `s` with the key `k`, if there is one.
pub open spec fn entry_for(s: Seq<(i64, EntryView)>, k: i64) -> Option<EntryView> {
    if ekeys(s).contains(k) {
        Some(s[ekeys(s).index_of(k)].1)
    } else {
        None
    }
}

/// `LinkedHashMap::new`: an empty map.
#[verifier::external_body]
fn top_new() -> (m: LinkedHashMap<i64, VfsEntry>)
    ensures
        lhm_entries(m) == Seq::<(i64, EntryView)>::empty(),
{
    LinkedHashMap::new()
}

/// `LinkedHashMap::len`: the number of entries.
#[verifier::external_body]
fn top_len(m: &LinkedHashMap<i64, VfsEntry>) -> (n: usize)
    ensures
        n == lhm_entries(*m).len(),
{
    m.len()
}

/// `LinkedHashMap::contains_key`: whether `k` has an entry.
#[verifier::external_body]
fn top_contains(m: &LinkedHashMap<i64, VfsEntry>, k: i64) -> (r: bool)
    ensures
        r == ekeys(lhm_entries(*m)).contains(k),
{
    m.contains_key(&k)
}

/// `LinkedHashMap::get`: the value of `k`, leaving the order as it is.
#[verifier::external_body]
fn top_get(m: &LinkedHashMap<i64, VfsEntry>, k: i64) -> (r: Option<&VfsEntry>)
    ensures
        match entry_for(lhm_entries(*m), k) {
            Some(e) => r matches Some(v) && entry_view(*v) == e,
            None => r is None,
        },
{
    m.get(&k)
}

/// `LinkedHashMap::remove`: takes out the entry of `k`, keeping the order
/// of the others, and gives its value.
#[verifier::external_body]
fn top_remove(m: &mut LinkedHashMap<i64, VfsEntry>, k: i64) -> (r: Option<VfsEntry>)
    ensures
        ekeys(lhm_entries(*old(m))).contains(k) ==> ({
            let i = ekeys(lhm_entries(*old(m))).index_of(k);
            &&& lhm_entries(*final(m)) == lhm_entries(*old(m)).remove(i)
            &&& r matches Some(v) && entry_view(v) == lhm_entries(*old(m))[i].1
        }),
        !ekeys(lhm_entries(*old(m))).contains(k) ==> lhm_entries(*final(m)) == lhm_entries(*old(m))
            && r is None,
        ekeys(lhm_entries(*old(m))).no_duplicates() ==> ekeys(lhm_entries(*final(m))).no_duplicates(),
{
    m.remove(&k)
}

/// `LinkedHashMap::pop_front`: takes out the oldest entry.
#[verifier::external_body]
fn top_pop_front(m: &mut LinkedHashMap<i64, VfsEntry>) -> (r: Option<(i64, VfsEntry)>)
    ensures
        lhm_entries(*old(m)).len() == 0 ==> r is None && lhm_entries(*final(m)) == lhm_entries(
            *old(m),
        ),
        lhm_entries(*old(m)).len() > 0 ==> (r matches Some((k, v)) && k == lhm_entries(*old(m))[0].0
            && entry_view(v) == lhm_entries(*old(m))[0].1 && lhm_entries(*final(m)) == lhm_entries(
            *old(m),
        ).drop_first()),
{
    m.pop_front()
}

/// `LinkedHashMap::insert`: sets the value of `k` and makes it the newest
/// entry, giving the value it had.
#[verifier::external_body]
fn top_insert(m: &mut LinkedHashMap<i64, VfsEntry>, k: i64, v: VfsEntry) -> (r: Option<VfsEntry>)
    ensures
        !ekeys(lhm_entries(*old(m))).contains(k) ==> lhm_entries(*final(m)) == lhm_entries(
            *old(m),
        ).push((k, entry_view(v))) && r is None,
        ekeys(lhm_entries(*old(m))).contains(k) ==> ({
            let i = ekeys(lhm_entries(*old(m))).index_of(k);
            &&& lhm_entries(*final(m)) == lhm_entries(*old(m)).remove(i).push((k, entry_view(v)))
            &&& r matches Some(o) && entry_view(o) == lhm_entries(*old(m))[i].1
        }),
{
    m.insert(k, v)
}

/// `LinkedHashMap::get_refresh`: makes the entry of `k` the newest, where
/// there is one.
#[verifier::external_body]
fn top_refresh(m: &mut LinkedHashMap<i64, VfsEntry>, k: i64) -> (r: bool)
    ensures
        r == ekeys(lhm_entries(*old(m))).contains(k),
        !r ==> lhm_entries(*final(m)) == lhm_entries(*old(m)),
        r ==> ({
            let i = ekeys(lhm_entries(*old(m))).index_of(k);
            lhm_entries(*final(m)) == lhm_entries(*old(m)).remove(i).push(lhm_entries(*old(m))[i])
        }),
{
    m.get_refresh(&k).is_some()
}

/// `LinkedHashMap::new`: an empty map of keys.
#[verifier::external_body]
fn bottom_new() -> (m: LinkedHashMap<i64, ()>)
    ensures
        lhm_keys(m) == Seq::<i64>::empty(),
{
    LinkedHashMap::new()
}

/// `LinkedHashMap::len`: the number of keys.
#[verifier::external_body]
fn bottom_len(m: &LinkedHashMap<i64, ()>) -> (n: usize)
    ensures
        n == lhm_keys(*m).len(),
{
    m.len()
}

/// `LinkedHashMap::contains_key`: whether `k` is kept.
#[verifier::external_body]
fn bottom_contains(m: &LinkedHashMap<i64, ()>, k: i64) -> (r: bool)
    ensures
        r == lhm_keys(*m).contains(k),
{
    m.contains_key(&k)
}

/// `LinkedHashMap::pop_front`: takes out the oldest key.
#[verifier::external_body]
fn bottom_pop_front(m: &mut LinkedHashMap<i64, ()>) -> (r: Option<i64>)
    ensures
        lhm_keys(*old(m)).len() == 0 ==> r is None && lhm_keys(*final(m)) == lhm_keys(*old(m)),
        lhm_keys(*old(m)).len() > 0 ==> r == Some(lhm_keys(*old(m))[0]) && lhm_keys(*final(m))
            == lhm_keys(*old(m)).drop_first(),
{
    m.pop_front().map(|(k, _)| k)
}

/// `LinkedHashMap::insert`: makes `k` the newest key.
#[verifier::external_body]
fn bottom_insert(m: &mut LinkedHashMap<i64, ()>, k: i64)
    ensures
        !lhm_keys(*old(m)).contains(k) ==> lhm_keys(*final(m)) == lhm_keys(*old(m)).push(k),
        lhm_keys(*old(m)).contains(k) ==> lhm_keys(*final(m)) == lhm_keys(*old(m)).remove(
            lhm_keys(*old(m)).index_of(k),
        ).push(k),
{
    m.insert(k, ());
}

/// `LinkedHashMap::remove`: takes out `k`, keeping the order of the others;
/// whether it was there.
#[verifier::external_body]
fn bottom_remove(m: &mut LinkedHashMap<i64, ()>, k: i64) -> (r: bool)
    ensures
        r == lhm_keys(*old(m)).contains(k),
        r ==> lhm_keys(*final(m)) == lhm_keys(*old(m)).remove(lhm_keys(*old(m)).index_of(k)),
        !r ==> lhm_keys(*final(m)) == lhm_keys(*old(m)),
{
    m.remove(&k).is_some()
}

/// In a sequence without duplicates, the position of its `i`-th item is `i`.
proof fn lemma_index_of_unique(s: Seq<i64>, i: int)
    requires
        s.no_duplicates(),
        0 <= i < s.len(),
    ensures
        s.index_of(s[i]) == i,
{
    assert(s.contains(s[i]));
    let j = s.index_of(s[i]);
    assert(0 <= j < s.len() && s[j] == s[i]);
}

/// The position of a key that occurs is where it occurs.
proof fn lemma_index_of_contains(s: Seq<i64>, k: i64)
    requires
        s.contains(k),
    ensures
        0 <= s.index_of(k) < s.len(),
        s[s.index_of(k)] == k,
{
}

/// The key of the entry at the position of `k` is `k`.
proof fn lemma_index_of_key(s: Seq<(i64, EntryView)>, k: i64)
    requires
        ekeys(s).contains(k),
    ensures
        0 <= ekeys(s).index_of(k) < s.len(),
        s[ekeys(s).index_of(k)].0 == k,
{
    lemma_index_of_contains(ekeys(s), k);
}

/// The keys of entries after the usual edits.
proof fn lemma_ekeys_edits(s: Seq<(i64, EntryView)>)
    ensures
        ekeys(s).len() == s.len(),
        forall|x: (i64, EntryView)| #[trigger] ekeys(s.push(x)) == ekeys(s).push(x.0),
        forall|i: int| 0 <= i < s.len() ==> #[trigger] ekeys(s.remove(i)) == ekeys(s).remove(i),
        s.len() > 0 ==> ekeys(s.drop_first()) == ekeys(s).drop_first(),
        forall|i: int, e: EntryView|
            0 <= i < s.len() ==> #[trigger] ekeys(s.update(i, (s[i].0, e))) == ekeys(s),
{
    assert forall|x: (i64, EntryView)| #[trigger] ekeys(s.push(x)) == ekeys(s).push(x.0) by {
        assert(ekeys(s.push(x)) =~= ekeys(s).push(x.0));
    }
    assert forall|i: int| 0 <= i < s.len() implies #[trigger] ekeys(s.remove(i)) == ekeys(s).remove(i) by {
        assert(ekeys(s.remove(i)) =~= ekeys(s).remove(i));
    }
    if s.len() > 0 {
        assert(ekeys(s.drop_first()) =~= ekeys(s).drop_first());
    }
    assert forall|i: int, e: EntryView| 0 <= i < s.len() implies #[trigger] ekeys(
        s.update(i, (s[i].0, e)),
    ) == ekeys(s) by {
        assert(ekeys(s.update(i, (s[i].0, e))) =~= ekeys(s));
    }
}

/// Removing the item at `i` keeps a sequence free of duplicates, and
/// leaves exactly the other items.
proof fn lemma_remove_keys(s: Seq<i64>, i: int)
    requires
        s.no_duplicates(),
        0 <= i < s.len(),
    ensures
        s.remove(i).no_duplicates(),
        forall|k: i64| #[trigger] s.remove(i).contains(k) <==> (s.contains(k) && k != s[i]),
        s.remove(i).len() == s.len() - 1,
{
    let t = s.remove(i);
    assert forall|a: int, b: int| 0 <= a < t.len() && 0 <= b < t.len() && a != b implies t[a] != t[b] by {
        let a0 = if a < i { a } else { a + 1 };
        let b0 = if b < i { b } else { b + 1 };
        assert(t[a] == s[a0]);
        assert(t[b] == s[b0]);
    }
    assert forall|k: i64| #[trigger] t.contains(k) <==> (s.contains(k) && k != s[i]) by {
        if t.contains(k) {
            let a = choose|a: int| 0 <= a < t.len() && t[a] == k;
            let a0 = if a < i { a } else { a + 1 };
            assert(s[a0] == k);
            assert(a0 != i);
        }
        if s.contains(k) && k != s[i] {
            let a0 = choose|a: int| 0 <= a < s.len() && s[a] == k;
            assert(a0 != i);
            let a = if a0 < i { a0 } else { a0 - 1 };
            assert(t[a] == k);
        }
    }
}

/// Dropping the first item keeps a sequence free of duplicates.
proof fn lemma_drop_first_keys(s: Seq<i64>)
    requires
        s.no_duplicates(),
        s.len() > 0,
    ensures
        s.drop_first().no_duplicates(),
        forall|k: i64| #[trigger] s.drop_first().contains(k) <==> (s.contains(k) && k != s[0]),
{
    assert(s.drop_first() =~= s.remove(0));
    lemma_remove_keys(s, 0);
}

/// Adding a new item keeps a sequence free of duplicates.
proof fn lemma_push_keys(s: Seq<i64>, k: i64)
    requires
        s.no_duplicates(),
        !s.contains(k),
    ensures
        s.push(k).no_duplicates(),
        forall|x: i64| #[trigger] s.push(k).contains(x) <==> (s.contains(x) || x == k),
{
    let t = s.push(k);
    assert forall|a: int, b: int| 0 <= a < t.len() && 0 <= b < t.len() && a != b implies t[a] != t[b] by {
        if a < s.len() && b < s.len() {
        } else if a == s.len() {
            assert(s.contains(t[b]) || b == s.len());
        } else {
            assert(s.contains(t[a]));
        }
    }
    assert forall|x: i64| #[trigger] t.contains(x) <==> (s.contains(x) || x == k) by {
        if t.contains(x) {
            let a = choose|a: int| 0 <= a < t.len() && t[a] == x;
            if a < s.len() {
                assert(s[a] == x);
            }
        }
        if s.contains(x) {
            let a = choose|a: int| 0 <= a < s.len() && s[a] == x;
            assert(t[a] == x);
        }
        if x == k {
            assert(t[s.len() as int] == x);
        }
    }
}

/// The entry found for `k` in entries free of duplicate keys is the one at
/// its position.
proof fn lemma_entry_for_at(s: Seq<(i64, EntryView)>, i: int)
    requires
        ekeys(s).no_duplicates(),
        0 <= i < s.len(),
    ensures
        entry_for(s, s[i].0) == Some(s[i].1),
{
    lemma_ekeys_edits(s);
    assert(ekeys(s)[i] == s[i].0);
    lemma_index_of_unique(ekeys(s), i);
}

/// An adaptive replacement cache of at most `capacity` inodes.
pub struct Cache {
    capacity: usize,
    p_value: usize,
    recent_top: LinkedHashMap<i64, VfsEntry>,
    recent_bottom: LinkedHashMap<i64, ()>,
    frequent_top: LinkedHashMap<i64, VfsEntry>,
    frequent_bottom: LinkedHashMap<i64, ()>,
}

/// The cache as plain values: its capacity, the target size `p` of the
/// recent list, the recent and frequent lists (`t1`, `t2`) of cached
/// entries and the lists of keys lately evicted from them (`b1`, `b2`),
/// each oldest first.
pub struct CacheView {
    pub capacity: nat,
    pub p: nat,
    pub t1: Seq<(i64, EntryView)>,
    pub b1: Seq<i64>,
    pub t2: Seq<(i64, EntryView)>,
    pub b2: Seq<i64>,
}

/// Whether no key of `a` is in `b`.
pub open spec fn keys_disjoint(a: Seq<i64>, b: Seq<i64>) -> bool {
    forall|k: i64| a.contains(k) ==> !b.contains(k)
}

/// The invariant of a cache: no list holds a key twice or shares one with
/// another list, at most `capacity` entries are cached, and `p` is at most
/// the capacity.
pub open spec fn cache_wf(v: CacheView) -> bool {
    &&& v.p <= v.capacity
    &&& v.t1.len() + v.t2.len() <= v.capacity
    &&& ekeys(v.t1).no_duplicates()
    &&& ekeys(v.t2).no_duplicates()
    &&& v.b1.no_duplicates()
    &&& v.b2.no_duplicates()
    &&& keys_disjoint(ekeys(v.t1), ekeys(v.t2))
    &&& keys_disjoint(ekeys(v.t1), v.b1)
    &&& keys_disjoint(ekeys(v.t1), v.b2)
    &&& keys_disjoint(ekeys(v.t2), v.b1)
    &&& keys_disjoint(ekeys(v.t2), v.b2)
    &&& keys_disjoint(v.b1, v.b2)
}

/// The value cached for `k`: the frequent list first, then the recent one.
pub open spec fn spec_lookup(v: CacheView, k: i64) -> Option<EntryView> {
    match entry_for(v.t2, k) {
        Some(e) => Some(e),
        None => entry_for(v.t1, k),
    }
}

/// `s` once its oldest keys are dropped until fewer than `c` are left.
pub open spec fn trim_below(s: Seq<i64>, c: nat) -> Seq<i64> {
    if c <= s.len() {
        s.skip(s.len() - c + 1)
    } else {
        s
    }
}

/// Whether the recent list gives up its oldest entry to make room, rather
/// than the frequent one: it is over its target size, or at it and the
/// missed key came from the frequent list's evicted keys.
pub open spec fn takes_from_recent(v: CacheView, was_in_bottom: bool) -> bool {
    v.t1.len() > v.p || (v.t1.len() == v.p && v.t1.len() > 0 && was_in_bottom)
}

/// The cache once one entry is evicted: the oldest recent entry, whose key
/// joins the recent evicted keys (trimmed below the capacity), or the
/// oldest frequent entry, whose key joins the frequent evicted keys, and
/// which is reported in the second result.
pub open spec fn spec_replace(v: CacheView, was_in_bottom: bool) -> (CacheView, Seq<(i64, EntryView)>) {
    if takes_from_recent(v, was_in_bottom) {
        let k = v.t1[0].0;
        let b1 = trim_below(v.b1, v.capacity);
        (
            CacheView {
                t1: v.t1.drop_first(),
                b1: if b1.contains(k) {
                    b1.remove(b1.index_of(k)).push(k)
                } else {
                    b1.push(k)
                },
                ..v
            },
            Seq::empty(),
        )
    } else {
        let k = v.t2[0].0;
        (
            CacheView {
                t2: v.t2.drop_first(),
                b2: if v.b2.contains(k) {
                    v.b2.remove(v.b2.index_of(k)).push(k)
                } else {
                    v.b2.push(k)
                },
                ..v
            },
            seq![v.t2[0]],
        )
    }
}

/// The adjustment of `p` for a missed key found among the evicted keys of
/// one list (`this`, after the key left it) against those of the other
/// (`other`): one, or their ratio where the other's are more.
pub open spec fn adjustment(other: nat, this: nat) -> nat {
    if other <= this {
        1
    } else {
        other / this
    }
}

/// The cache and the flags after the bookkeeping of a missed key `key`:
/// found among the frequent evicted keys, `p` shrinks; among the recent
/// ones, it grows (to the capacity at most); either way the value goes to
/// the frequent list (`.1`), and `.2` tells whether it came from the
/// frequent evicted keys.
pub open spec fn spec_miss(v: CacheView, key: i64, value: EntryView) -> (CacheView, bool, bool) {
    if v.b2.contains(key) {
        let b2 = v.b2.remove(v.b2.index_of(key));
        let d = adjustment(v.b1.len(), b2.len());
        (
            CacheView {
                p: if d <= v.p {
                    (v.p - d) as nat
                } else {
                    0
                },
                b2,
                t2: v.t2.push((key, value)),
                ..v
            },
            true,
            true,
        )
    } else if v.b1.contains(key) {
        let b1 = v.b1.remove(v.b1.index_of(key));
        let d = adjustment(v.b2.len(), b1.len());
        (
            CacheView {
                p: if v.capacity < v.p + d {
                    v.capacity
                } else {
                    v.p + d
                },
                b1,
                t2: v.t2.push((key, value)),
                ..v
            },
            true,
            false,
        )
    } else {
        (CacheView { t1: v.t1.push((key, value)), ..v }, false, false)
    }
}

/// What inserting `value` under `key` does: the new cache, the value it
/// replaced, and the entries evicted from the frequent list. A cached key
/// has its value replaced and becomes the newest of its list; a missed key is added as `spec_miss`
/// says, and an entry is evicted where the cache is over capacity or the
/// key came from the evicted keys.
pub open spec fn spec_insert(v: CacheView, key: i64, value: EntryView) -> (CacheView, Option<
    EntryView,
>, Seq<(i64, EntryView)>) {
    if ekeys(v.t1).contains(key) {
        let i = ekeys(v.t1).index_of(key);
        (CacheView { t1: v.t1.remove(i).push((key, value)), ..v }, Some(v.t1[i].1), Seq::empty())
    } else if ekeys(v.t2).contains(key) {
        let i = ekeys(v.t2).index_of(key);
        (CacheView { t2: v.t2.remove(i).push((key, value)), ..v }, Some(v.t2[i].1), Seq::empty())
    } else {
        let (w, inject, was_in_bottom) = spec_miss(v, key, value);
        if w.t1.len() + w.t2.len() > w.capacity || inject {
            let (x, evicted) = spec_replace(w, was_in_bottom);
            (x, None, evicted)
        } else {
            (w, None, Seq::empty())
        }
    }
}

/// Whether inserting a missed `key` never finishes or fails: the capacity
/// is zero (trimming the evicted keys never ends), the adjustment of `p`
/// divides by zero, or the frequent list, full, takes the key and must
/// give up an entry while the recent list is empty (the loop meant to trim
/// the frequent evicted keys then never ends).
pub open spec fn spec_insert_diverges(v: CacheView, key: i64) -> bool {
    if ekeys(v.t1).contains(key) || ekeys(v.t2).contains(key) {
        false
    } else if v.capacity == 0 {
        true
    } else if v.b2.contains(key) {
        (v.b2.len() == 1 && v.b1.len() > 0) || (v.t1.len() == 0 && v.t2.len() == v.capacity)
    } else if v.b1.contains(key) {
        (v.b1.len() == 1 && v.b2.len() > 0) || (v.t1.len() == 0 && v.t2.len() == v.capacity)
    } else {
        false
    }
}

/// What a refreshing lookup of `k` does: a recent entry moves to the
/// frequent list, a frequent one becomes its newest.
pub open spec fn spec_get_refresh(v: CacheView, k: i64) -> (CacheView, Option<EntryView>) {
    if ekeys(v.t1).contains(k) {
        let i = ekeys(v.t1).index_of(k);
        (CacheView { t1: v.t1.remove(i), t2: v.t2.push(v.t1[i]), ..v }, Some(v.t1[i].1))
    } else if ekeys(v.t2).contains(k) {
        let i = ekeys(v.t2).index_of(k);
        (CacheView { t2: v.t2.remove(i).push(v.t2[i]), ..v }, Some(v.t2[i].1))
    } else {
        (v, None)
    }
}

/// What eviction needs: a capacity above zero, an entry in the list that
/// gives one up, and a frequent list that is left under the capacity.
pub open spec fn replace_pre(v: CacheView, was_in_bottom: bool) -> bool {
    &&& v.capacity > 0
    &&& takes_from_recent(v, was_in_bottom) ==> v.t1.len() > 0
    &&& !takes_from_recent(v, was_in_bottom) ==> 0 < v.t2.len() <= v.capacity
}

/// The entries `s` with each inode by its view.
pub open spec fn evicted_views(s: Seq<(i64, VfsEntry)>) -> Seq<(i64, EntryView)> {
    s.map_values(|e: (i64, VfsEntry)| (e.0, entry_view(e.1)))
}

/// Dropping the oldest keys below `c` keeps keys apart and free of duplicates.
proof fn lemma_trim_keys(s: Seq<i64>, c: nat)
    requires
        s.no_duplicates(),
        c > 0,
    ensures
        trim_below(s, c).no_duplicates(),
        trim_below(s, c).len() < c,
        forall|k: i64| #[trigger] trim_below(s, c).contains(k) ==> s.contains(k),
{
    if c <= s.len() {
        let t = s.skip(s.len() - c + 1);
        let off = s.len() - c + 1;
        assert forall|a: int, b: int| 0 <= a < t.len() && 0 <= b < t.len() && a != b implies t[a] != t[b] by {
            assert(t[a] == s[a + off]);
            assert(t[b] == s[b + off]);
        }
        assert forall|k: i64| #[trigger] t.contains(k) implies s.contains(k) by {
            let a = choose|a: int| 0 <= a < t.len() && t[a] == k;
            assert(s[a + off] == k);
        }
    }
}

/// Eviction keeps the invariant of a cache whose lists are apart, whose
/// sizes are within the capacity but for one entry, and which is ready.
proof fn lemma_replace_wf(v: CacheView, was_in_bottom: bool)
    requires
        replace_pre(v, was_in_bottom),
        v.p <= v.capacity,
        v.t1.len() + v.t2.len() <= v.capacity + 1,
        ekeys(v.t1).no_duplicates(),
        ekeys(v.t2).no_duplicates(),
        v.b1.no_duplicates(),
        v.b2.no_duplicates(),
        keys_disjoint(ekeys(v.t1), ekeys(v.t2)),
        keys_disjoint(ekeys(v.t1), v.b1),
        keys_disjoint(ekeys(v.t1), v.b2),
        keys_disjoint(ekeys(v.t2), v.b1),
        keys_disjoint(ekeys(v.t2), v.b2),
        keys_disjoint(v.b1, v.b2),
    ensures
        cache_wf(spec_replace(v, was_in_bottom).0),
{
    lemma_ekeys_edits(v.t1);
    lemma_ekeys_edits(v.t2);
    let w = spec_replace(v, was_in_bottom).0;
    if takes_from_recent(v, was_in_bottom) {
        let k = v.t1[0].0;
        assert(ekeys(v.t1)[0] == k);
        lemma_drop_first_keys(ekeys(v.t1));
        lemma_trim_keys(v.b1, v.capacity);
        let b1 = trim_below(v.b1, v.capacity);
        assert(ekeys(v.t1).contains(k));
        assert(!b1.contains(k));
        lemma_push_keys(b1, k);
        assert(w.b1 == b1.push(k));
        assert(ekeys(w.t1) == ekeys(v.t1).drop_first());
    } else {
        let k = v.t2[0].0;
        assert(ekeys(v.t2)[0] == k);
        lemma_drop_first_keys(ekeys(v.t2));
        assert(ekeys(v.t2).contains(k));
        assert(!v.b2.contains(k));
        lemma_push_keys(v.b2, k);
        assert(w.b2 == v.b2.push(k));
        assert(ekeys(w.t2) == ekeys(v.t2).drop_first());
    }
}

/// The facts that inserting `key` rests on: the new cache keeps the
/// invariant, eviction is ready where it happens, and the adjustment of
/// `p` never divides by zero.
proof fn lemma_insert_facts(v: CacheView, key: i64, value: EntryView)
    requires
        cache_wf(v),
        !spec_insert_diverges(v, key),
    ensures
        cache_wf(spec_insert(v, key, value).0),
        !ekeys(v.t1).contains(key) && !ekeys(v.t2).contains(key) ==> ({
            let (w, inj, wib) = spec_miss(v, key, value);
            (w.t1.len() + w.t2.len() > w.capacity || inj) ==> replace_pre(w, wib)
        }),
        !ekeys(v.t1).contains(key) && !ekeys(v.t2).contains(key) && v.b2.contains(key) ==> (v.b1.len()
            <= v.b2.len() - 1 || v.b2.len() - 1 > 0),
        !ekeys(v.t1).contains(key) && !ekeys(v.t2).contains(key) && !v.b2.contains(key)
            && v.b1.contains(key) ==> (v.b2.len() <= v.b1.len() - 1 || v.b1.len() - 1 > 0),
{
    lemma_ekeys_edits(v.t1);
    lemma_ekeys_edits(v.t2);
    if ekeys(v.t1).contains(key) {
        let i = ekeys(v.t1).index_of(key);
        lemma_index_of_key(v.t1, key);
        lemma_remove_keys(ekeys(v.t1), i);
        let r = v.t1.remove(i);
        lemma_ekeys_edits(r);
        lemma_push_keys(ekeys(r), key);
        let w = spec_insert(v, key, value).0;
        assert(ekeys(w.t1) == ekeys(r).push(key));
    } else if ekeys(v.t2).contains(key) {
        let i = ekeys(v.t2).index_of(key);
        lemma_index_of_key(v.t2, key);
        lemma_remove_keys(ekeys(v.t2), i);
        let r = v.t2.remove(i);
        lemma_ekeys_edits(r);
        lemma_push_keys(ekeys(r), key);
        let w = spec_insert(v, key, value).0;
        assert(ekeys(w.t2) == ekeys(r).push(key));
    } else {
        let (w, inj, wib) = spec_miss(v, key, value);
        if v.b2.contains(key) {
            let i = v.b2.index_of(key);
            lemma_index_of_contains(v.b2, key);
            lemma_remove_keys(v.b2, i);
            lemma_push_keys(ekeys(v.t2), key);
            assert(ekeys(w.t2) == ekeys(v.t2).push(key));
            lemma_replace_wf(w, wib);
        } else if v.b1.contains(key) {
            let i = v.b1.index_of(key);
            lemma_index_of_contains(v.b1, key);
            lemma_remove_keys(v.b1, i);
            lemma_push_keys(ekeys(v.t2), key);
            assert(ekeys(w.t2) == ekeys(v.t2).push(key));
            lemma_replace_wf(w, wib);
        } else {
            lemma_push_keys(ekeys(v.t1), key);
            assert(ekeys(w.t1) == ekeys(v.t1).push(key));
            if w.t1.len() + w.t2.len() > w.capacity {
                lemma_replace_wf(w, wib);
            }
        }
    }
}

/// A refreshing lookup keeps the invariant.
proof fn lemma_refresh_from_recent_wf(v: CacheView, k: i64)
    requires
        cache_wf(v),
        ekeys(v.t1).contains(k),
    ensures
        cache_wf(spec_get_refresh(v, k).0),
        spec_get_refresh(v, k).1 == entry_for(spec_get_refresh(v, k).0.t2, k),
{
    let i = ekeys(v.t1).index_of(k);
    lemma_index_of_key(v.t1, k);
    lemma_ekeys_edits(v.t1);
    lemma_ekeys_edits(v.t2);
    lemma_remove_keys(ekeys(v.t1), i);
    lemma_push_keys(ekeys(v.t2), k);
    let w = spec_get_refresh(v, k).0;
    assert(ekeys(w.t1) == ekeys(v.t1).remove(i));
    assert(ekeys(w.t2) == ekeys(v.t2).push(k));
    lemma_entry_for_at(w.t2, v.t2.len() as int);
}

/// A refreshing lookup of a frequent entry keeps the invariant.
proof fn lemma_refresh_frequent_wf(v: CacheView, k: i64)
    requires
        cache_wf(v),
        !ekeys(v.t1).contains(k),
        ekeys(v.t2).contains(k),
    ensures
        cache_wf(spec_get_refresh(v, k).0),
        spec_get_refresh(v, k).1 == entry_for(spec_get_refresh(v, k).0.t2, k),
{
    let i = ekeys(v.t2).index_of(k);
    lemma_index_of_key(v.t2, k);
    lemma_ekeys_edits(v.t2);
    lemma_remove_keys(ekeys(v.t2), i);
    let r = v.t2.remove(i);
    lemma_ekeys_edits(r);
    lemma_push_keys(ekeys(r), k);
    let w = spec_get_refresh(v, k).0;
    assert(ekeys(w.t2) == ekeys(r).push(k));
    lemma_entry_for_at(w.t2, r.len() as int);
}

/// In entries free of duplicate keys, `k` has an entry exactly where it
/// occurs, and that entry is the one found.
proof fn lemma_entry_for_char(s: Seq<(i64, EntryView)>, x: i64)
    requires
        ekeys(s).no_duplicates(),
    ensures
        entry_for(s, x) is None <==> !ekeys(s).contains(x),
        forall|j: int| 0 <= j < s.len() && s[j].0 == x ==> entry_for(s, x) == Some(s[j].1),
{
    lemma_ekeys_edits(s);
    assert forall|j: int| 0 <= j < s.len() && s[j].0 == x implies entry_for(s, x) == Some(s[j].1) by {
        assert(ekeys(s)[j] == x);
        lemma_index_of_unique(ekeys(s), j);
    }
}

/// Removing the entry at `i` leaves the entries of the other keys.
proof fn lemma_entry_for_remove(s: Seq<(i64, EntryView)>, i: int, x: i64)
    requires
        ekeys(s).no_duplicates(),
        0 <= i < s.len(),
        x != s[i].0,
    ensures
        entry_for(s.remove(i), x) == entry_for(s, x),
{
    lemma_ekeys_edits(s);
    lemma_remove_keys(ekeys(s), i);
    assert(ekeys(s)[i] == s[i].0);
    let t = s.remove(i);
    lemma_entry_for_char(s, x);
    lemma_entry_for_char(t, x);
    if ekeys(t).contains(x) {
        let j = ekeys(t).index_of(x);
        lemma_index_of_key(t, x);
        let j0 = if j < i { j } else { j + 1 };
        assert(t[j] == s[j0]);
    }
}

/// Adding an entry for a new key `k` leaves the entries of the others.
proof fn lemma_entry_for_push(s: Seq<(i64, EntryView)>, k: i64, e: EntryView, x: i64)
    requires
        ekeys(s).no_duplicates(),
        !ekeys(s).contains(k),
    ensures
        entry_for(s.push((k, e)), x) == if x == k {
            Some(e)
        } else {
            entry_for(s, x)
        },
{
    lemma_ekeys_edits(s);
    lemma_push_keys(ekeys(s), k);
    let t = s.push((k, e));
    assert(ekeys(t) == ekeys(s).push(k));
    lemma_entry_for_char(s, x);
    lemma_entry_for_char(t, x);
    assert(t[s.len() as int] == (k, e));
    if x != k && ekeys(t).contains(x) {
        let j = ekeys(t).index_of(x);
        lemma_index_of_key(t, x);
        assert(j < s.len());
        assert(t[j] == s[j]);
    }
}

/// Dropping the oldest entry leaves the entries of the other keys.
proof fn lemma_entry_for_drop_first(s: Seq<(i64, EntryView)>, x: i64)
    requires
        ekeys(s).no_duplicates(),
        s.len() > 0,
    ensures
        entry_for(s.drop_first(), x) == if x == s[0].0 {
            None
        } else {
            entry_for(s, x)
        },
{
    assert(s.drop_first() =~= s.remove(0));
    lemma_ekeys_edits(s);
    lemma_remove_keys(ekeys(s), 0);
    assert(ekeys(s)[0] == s[0].0);
    if x == s[0].0 {
        lemma_entry_for_char(s.remove(0), x);
        assert(ekeys(s.remove(0)) == ekeys(s).remove(0));
    } else {
        lemma_entry_for_remove(s, 0, x);
    }
}

/// Evicting an entry leaves every cached key with its value, or with none.
proof fn lemma_replace_lookup(v: CacheView, was_in_bottom: bool, x: i64)
    requires
        replace_pre(v, was_in_bottom),
        ekeys(v.t1).no_duplicates(),
        ekeys(v.t2).no_duplicates(),
        keys_disjoint(ekeys(v.t1), ekeys(v.t2)),
    ensures
        spec_lookup(spec_replace(v, was_in_bottom).0, x) == spec_lookup(v, x) || spec_lookup(
            spec_replace(v, was_in_bottom).0,
            x,
        ) is None,
{
    lemma_ekeys_edits(v.t1);
    lemma_ekeys_edits(v.t2);
    lemma_entry_for_char(v.t1, x);
    lemma_entry_for_char(v.t2, x);
    if takes_from_recent(v, was_in_bottom) {
        lemma_entry_for_drop_first(v.t1, x);
    } else {
        lemma_entry_for_drop_first(v.t2, x);
        assert(ekeys(v.t2)[0] == v.t2[0].0);
    }
}

/// Law: after `key` is inserted with `value`, looking it up gives `value`,
/// or nothing where inserting a new key evicted it at once; a key that was
/// cached always gives `value`.
pub proof fn lemma_insert_then_lookup(v: CacheView, key: i64, value: EntryView)
    requires
        cache_wf(v),
        !spec_insert_diverges(v, key),
    ensures
        spec_lookup(spec_insert(v, key, value).0, key) == Some(value) || spec_lookup(
            spec_insert(v, key, value).0,
            key,
        ) is None,
        ekeys(v.t1).contains(key) || ekeys(v.t2).contains(key) ==> spec_lookup(
            spec_insert(v, key, value).0,
            key,
        ) == Some(value),
{
    lemma_insert_facts(v, key, value);
    lemma_ekeys_edits(v.t1);
    lemma_ekeys_edits(v.t2);
    if ekeys(v.t1).contains(key) {
        let i = ekeys(v.t1).index_of(key);
        lemma_index_of_key(v.t1, key);
        lemma_remove_keys(ekeys(v.t1), i);
        lemma_ekeys_edits(v.t1.remove(i));
        lemma_entry_for_push(v.t1.remove(i), key, value, key);
        lemma_entry_for_char(v.t2, key);
    } else if ekeys(v.t2).contains(key) {
        let i = ekeys(v.t2).index_of(key);
        lemma_index_of_key(v.t2, key);
        lemma_remove_keys(ekeys(v.t2), i);
        lemma_ekeys_edits(v.t2.remove(i));
        lemma_entry_for_push(v.t2.remove(i), key, value, key);
    } else {
        let (w, inj, wib) = spec_miss(v, key, value);
        lemma_entry_for_char(v.t1, key);
        lemma_entry_for_char(v.t2, key);
        if inj {
            lemma_entry_for_push(v.t2, key, value, key);
            lemma_push_keys(ekeys(v.t2), key);
            assert(ekeys(w.t2) == ekeys(v.t2).push(key));
        } else {
            lemma_entry_for_push(v.t1, key, value, key);
            lemma_push_keys(ekeys(v.t1), key);
            assert(ekeys(w.t1) == ekeys(v.t1).push(key));
        }
        assert(spec_lookup(w, key) == Some(value));
        if w.t1.len() + w.t2.len() > w.capacity || inj {
            lemma_replace_lookup(w, wib, key);
        }
    }
}

/// Law: inserting under `key` leaves the value cached for any other key,
/// or evicts it.
pub proof fn lemma_insert_keeps_others(v: CacheView, key: i64, value: EntryView, x: i64)
    requires
        cache_wf(v),
        !spec_insert_diverges(v, key),
        x != key,
    ensures
        spec_lookup(spec_insert(v, key, value).0, x) == spec_lookup(v, x) || spec_lookup(
            spec_insert(v, key, value).0,
            x,
        ) is None,
{
    lemma_insert_facts(v, key, value);
    lemma_ekeys_edits(v.t1);
    lemma_ekeys_edits(v.t2);
    if ekeys(v.t1).contains(key) {
        let i = ekeys(v.t1).index_of(key);
        lemma_index_of_key(v.t1, key);
        lemma_remove_keys(ekeys(v.t1), i);
        lemma_ekeys_edits(v.t1.remove(i));
        lemma_entry_for_push(v.t1.remove(i), key, value, x);
        lemma_entry_for_remove(v.t1, i, x);
    } else if ekeys(v.t2).contains(key) {
        let i = ekeys(v.t2).index_of(key);
        lemma_index_of_key(v.t2, key);
        lemma_remove_keys(ekeys(v.t2), i);
        lemma_ekeys_edits(v.t2.remove(i));
        lemma_entry_for_push(v.t2.remove(i), key, value, x);
        lemma_entry_for_remove(v.t2, i, x);
    } else {
        let (w, inj, wib) = spec_miss(v, key, value);
        if inj {
            lemma_entry_for_push(v.t2, key, value, x);
            lemma_push_keys(ekeys(v.t2), key);
            assert(ekeys(w.t2) == ekeys(v.t2).push(key));
        } else {
            lemma_entry_for_push(v.t1, key, value, x);
            lemma_push_keys(ekeys(v.t1), key);
            assert(ekeys(w.t1) == ekeys(v.t1).push(key));
        }
        assert(spec_lookup(w, x) == spec_lookup(v, x));
        if w.t1.len() + w.t2.len() > w.capacity || inj {
            lemma_replace_lookup(w, wib, x);
        }
    }
}

/// Law: a refreshing lookup answers as a plain lookup does, and changes
/// the value cached for no key.
pub proof fn lemma_refresh_lookup(v: CacheView, k: i64, x: i64)
    requires
        cache_wf(v),
    ensures
        spec_get_refresh(v, k).1 == spec_lookup(v, k),
        spec_lookup(spec_get_refresh(v, k).0, x) == spec_lookup(v, x),
{
    lemma_ekeys_edits(v.t1);
    lemma_ekeys_edits(v.t2);
    lemma_entry_for_char(v.t1, k);
    lemma_entry_for_char(v.t2, k);
    lemma_entry_for_char(v.t1, x);
    lemma_entry_for_char(v.t2, x);
    if ekeys(v.t1).contains(k) {
        let i = ekeys(v.t1).index_of(k);
        lemma_index_of_key(v.t1, k);
        lemma_entry_for_push(v.t2, k, v.t1[i].1, x);
        if x != k {
            lemma_entry_for_remove(v.t1, i, x);
        } else {
            lemma_remove_keys(ekeys(v.t1), i);
            lemma_ekeys_edits(v.t1.remove(i));
            lemma_entry_for_char(v.t1.remove(i), x);
        }
    } else if ekeys(v.t2).contains(k) {
        let i = ekeys(v.t2).index_of(k);
        lemma_index_of_key(v.t2, k);
        lemma_remove_keys(ekeys(v.t2), i);
        lemma_ekeys_edits(v.t2.remove(i));
        lemma_entry_for_push(v.t2.remove(i), k, v.t2[i].1, x);
        if x != k {
            lemma_entry_for_remove(v.t2, i, x);
        }
    }
}

/// Law: inserting a key that is not cached evicts at most one entry, and
/// always the oldest of its list. The new entry joins the end of the
/// frequent list where its key is among the evicted keys, else the end of
/// the recent list; then either nothing is evicted, or the oldest recent
/// entry leaves unreported, or the oldest frequent entry leaves and is the
/// one reported.
pub proof fn lemma_insert_evicts_oldest(v: CacheView, key: i64, value: EntryView)
    requires
        cache_wf(v),
        !spec_insert_diverges(v, key),
        !ekeys(v.t1).contains(key),
        !ekeys(v.t2).contains(key),
    ensures
        ({
            let (w, old_value, ev) = spec_insert(v, key, value);
            let seen = v.b1.contains(key) || v.b2.contains(key);
            let u1 = if seen {
                v.t1
            } else {
                v.t1.push((key, value))
            };
            let u2 = if seen {
                v.t2.push((key, value))
            } else {
                v.t2
            };
            &&& old_value is None
            &&& ev.len() <= 1
            &&& ev.len() == 1 ==> u2.len() > 0 && ev[0] == u2[0] && w.t2 == u2.drop_first() && w.t1
                == u1
            &&& ev.len() == 0 ==> w.t2 == u2 && (w.t1 == u1 || (u1.len() > 0 && w.t1
                == u1.drop_first()))
        }),
{
    lemma_insert_facts(v, key, value);
    let (w, inj, wib) = spec_miss(v, key, value);
    if w.t1.len() + w.t2.len() > w.capacity || inj {
        assert(replace_pre(w, wib));
    }
}

/// The keys of `s` other than `k`, in their order.
pub open spec fn keys_without(s: Seq<i64>, k: i64) -> Seq<i64> {
    s.filter(|x: i64| x != k)
}

/// Keys without `k` are all of them where `k` does not occur.
proof fn lemma_keys_without_absent(s: Seq<i64>, k: i64)
    requires
        !s.contains(k),
    ensures
        keys_without(s, k) == s,
    decreases s.len(),
{
    reveal(Seq::filter);
    if s.len() > 0 {
        let d = s.drop_last();
        assert(!d.contains(k)) by {
            if d.contains(k) {
                let j = choose|j: int| 0 <= j < d.len() && d[j] == k;
                assert(s[j] == k);
            }
        }
        lemma_keys_without_absent(d, k);
        assert(s[s.len() - 1] != k);
        assert(keys_without(s, k) == keys_without(d, k).push(s.last()));
        assert(d.push(s.last()) =~= s);
    }
}

/// In keys free of duplicates, leaving out `k` is removing it where it occurs.
proof fn lemma_keys_without_remove(s: Seq<i64>, i: int)
    requires
        s.no_duplicates(),
        0 <= i < s.len(),
    ensures
        keys_without(s, s[i]) == s.remove(i),
    decreases s.len(),
{
    reveal(Seq::filter);
    let k = s[i];
    let d = s.drop_last();
    let n = s.len() - 1;
    if i == n {
        assert(!d.contains(k)) by {
            if d.contains(k) {
                let j = choose|j: int| 0 <= j < d.len() && d[j] == k;
                assert(s[j] == s[n]);
            }
        }
        lemma_keys_without_absent(d, k);
        assert(keys_without(s, k) == keys_without(d, k));
        assert(d =~= s.remove(i));
    } else {
        assert(s[n] != k);
        assert(d.no_duplicates()) by {
            assert forall|a: int, b: int| 0 <= a < d.len() && 0 <= b < d.len() && a != b implies d[a]
                != d[b] by {
                assert(d[a] == s[a] && d[b] == s[b]);
            }
        }
        assert(d[i] == k);
        lemma_keys_without_remove(d, i);
        assert(keys_without(s, k) == keys_without(d, k).push(s.last()));
        assert(d.remove(i).push(s.last()) =~= s.remove(i));
    }
}

/// Law: a refreshing lookup of a cached key makes it the newest frequent
/// entry and keeps every other entry in its order. A recent key leaves the
/// recent list and joins the end of the frequent one; a frequent key moves
/// to the end of the frequent list. The evicted keys, `p` and the capacity
/// stay as they are, and a key that is not cached changes nothing.
pub proof fn lemma_refresh_order(v: CacheView, k: i64)
    requires
        cache_wf(v),
    ensures
        ({
            let w = spec_get_refresh(v, k).0;
            &&& w.capacity == v.capacity
            &&& w.p == v.p
            &&& w.b1 == v.b1
            &&& w.b2 == v.b2
            &&& ekeys(v.t1).contains(k) ==> ekeys(w.t1) == keys_without(ekeys(v.t1), k) && ekeys(w.t2)
                == ekeys(v.t2).push(k)
            &&& ekeys(v.t2).contains(k) ==> w.t1 == v.t1 && ekeys(w.t2) == keys_without(
                ekeys(v.t2),
                k,
            ).push(k)
            &&& !ekeys(v.t1).contains(k) && !ekeys(v.t2).contains(k) ==> w == v
        }),
{
    lemma_ekeys_edits(v.t1);
    lemma_ekeys_edits(v.t2);
    let w = spec_get_refresh(v, k).0;
    if ekeys(v.t1).contains(k) {
        let i = ekeys(v.t1).index_of(k);
        lemma_index_of_key(v.t1, k);
        assert(ekeys(v.t1)[i] == k);
        lemma_keys_without_remove(ekeys(v.t1), i);
        assert(ekeys(w.t1) == ekeys(v.t1).remove(i));
        assert(ekeys(w.t2) == ekeys(v.t2).push(k));
    } else if ekeys(v.t2).contains(k) {
        let i = ekeys(v.t2).index_of(k);
        lemma_index_of_key(v.t2, k);
        assert(ekeys(v.t2)[i] == k);
        lemma_keys_without_remove(ekeys(v.t2), i);
        let r = v.t2.remove(i);
        lemma_ekeys_edits(r);
        assert(ekeys(w.t2) == ekeys(r).push(k));
    }
}

/// Law: inserting under a cached key gives back the value it had, evicts
/// nothing, and makes the key, with its new value, the newest entry of the
/// list it is in, the other entries keeping their order; the other list,
/// the evicted keys and `p` stay as they are.
pub proof fn lemma_insert_cached_order(v: CacheView, key: i64, value: EntryView)
    requires
        cache_wf(v),
        ekeys(v.t1).contains(key) || ekeys(v.t2).contains(key),
    ensures
        ({
            let (w, old_value, ev) = spec_insert(v, key, value);
            &&& old_value == spec_lookup(v, key)
            &&& ev.len() == 0
            &&& w.capacity == v.capacity
            &&& w.p == v.p
            &&& w.b1 == v.b1
            &&& w.b2 == v.b2
            &&& ekeys(v.t1).contains(key) ==> w.t2 == v.t2 && ekeys(w.t1) == keys_without(
                ekeys(v.t1),
                key,
            ).push(key) && w.t1.last() == (key, value)
            &&& ekeys(v.t2).contains(key) ==> w.t1 == v.t1 && ekeys(w.t2) == keys_without(
                ekeys(v.t2),
                key,
            ).push(key) && w.t2.last() == (key, value)
        }),
{
    lemma_ekeys_edits(v.t1);
    lemma_ekeys_edits(v.t2);
    lemma_entry_for_char(v.t1, key);
    lemma_entry_for_char(v.t2, key);
    let w = spec_insert(v, key, value).0;
    if ekeys(v.t1).contains(key) {
        let i = ekeys(v.t1).index_of(key);
        lemma_index_of_key(v.t1, key);
        assert(ekeys(v.t1)[i] == key);
        lemma_keys_without_remove(ekeys(v.t1), i);
        let r = v.t1.remove(i);
        lemma_ekeys_edits(r);
        assert(ekeys(w.t1) == ekeys(r).push(key));
    } else {
        let i = ekeys(v.t2).index_of(key);
        lemma_index_of_key(v.t2, key);
        assert(ekeys(v.t2)[i] == key);
        lemma_keys_without_remove(ekeys(v.t2), i);
        let r = v.t2.remove(i);
        lemma_ekeys_edits(r);
        assert(ekeys(w.t2) == ekeys(r).push(key));
    }
}

impl Cache {
    /// The cache as plain values.
    pub closed spec fn view(&self) -> CacheView {
        CacheView {
            capacity: self.capacity as nat,
            p: self.p_value as nat,
            t1: lhm_entries(self.recent_top),
            b1: lhm_keys(self.recent_bottom),
            t2: lhm_entries(self.frequent_top),
            b2: lhm_keys(self.frequent_bottom),
        }
    }

    /// An empty cache of `capacity` entries.
    pub fn new(capacity: usize) -> (r: Cache)
        ensures
            cache_wf(r.view()),
            r.view() == (CacheView {
                capacity: capacity as nat,
                p: 0,
                t1: Seq::empty(),
                b1: Seq::empty(),
                t2: Seq::empty(),
                b2: Seq::empty(),
            }),
    {
        let r = Cache {
            capacity,
            p_value: 0,
            recent_top: top_new(),
            recent_bottom: bottom_new(),
            frequent_top: top_new(),
            frequent_bottom: bottom_new(),
        };
        proof {
            assert(ekeys(Seq::<(i64, EntryView)>::empty()) =~= Seq::<i64>::empty());
        }
        r
    }

    /// The value cached for `key`, leaving the order as it is.
    pub fn get_norefresh(&self, key: &i64) -> (r: Option<&VfsEntry>)
        ensures
            match spec_lookup(self.view(), *key) {
                Some(e) => r matches Some(v) && entry_view(*v) == e,
                None => r is None,
            },
    {
        if let Some(v) = top_get(&self.frequent_top, *key) {
            return Some(v);
        }
        top_get(&self.recent_top, *key)
    }

    /// The value cached for `key`: a recent entry moves to the frequent
    /// list, a frequent one becomes its newest.
    pub fn get_refresh(&mut self, key: &i64) -> (r: Option<&VfsEntry>)
        requires
            cache_wf(old(self).view()),
        ensures
            cache_wf(final(self).view()),
            final(self).view() == spec_get_refresh(old(self).view(), *key).0,
            match spec_get_refresh(old(self).view(), *key).1 {
                Some(e) => r matches Some(v) && entry_view(*v) == e,
                None => r is None,
            },
    {
        let ghost v0 = self.view();
        if let Some(v) = top_remove(&mut self.recent_top, *key) {
            proof {
                lemma_index_of_key(v0.t1, *key);

            }
            let _ = top_insert(&mut self.frequent_top, *key, v);
            proof {
                let i = ekeys(v0.t1).index_of(*key);
                assert(v0.t1[i].0 == *key);
                assert(self.view().t2 =~= v0.t2.push(v0.t1[i]));
                assert(self.view().t1 =~= v0.t1.remove(i));
                lemma_refresh_from_recent_wf(v0, *key);
            }
            return top_get(&self.frequent_top, *key);
        }
        if top_refresh(&mut self.frequent_top, *key) {
            proof {
                lemma_index_of_key(v0.t2, *key);
                lemma_refresh_frequent_wf(v0, *key);
            }
            return top_get(&self.frequent_top, *key);
        }
        None
    }

    /// Evicts one entry, as `spec_replace` says, reporting an evicted
    /// frequent entry in `evicted` where it is given.
    fn replace_helper(&mut self, was_in_bottom: bool, evicted: Option<&mut Vec<(i64, VfsEntry)>>)
        requires
            replace_pre(old(self).view(), was_in_bottom),
        ensures
            final(self).view() == spec_replace(old(self).view(), was_in_bottom).0,
            evicted is Some ==> evicted_views(final(evicted.unwrap())@) == evicted_views(
                (*evicted.unwrap())@,
            ) + spec_replace(old(self).view(), was_in_bottom).1,
    {
        let ghost v0 = self.view();
        let mut operate_on_recent = false;
        let t1_len = top_len(&self.recent_top);
        if t1_len > self.p_value {
            operate_on_recent = true;
        } else if t1_len == self.p_value && t1_len != 0 {
            operate_on_recent = was_in_bottom;
        }
        assert(operate_on_recent == takes_from_recent(v0, was_in_bottom));
        if operate_on_recent {
            let (k, _v) = top_pop_front(&mut self.recent_top).unwrap();
            let ghost v1 = self.view();
            while self.capacity <= bottom_len(&self.recent_bottom)
                invariant
                    self.capacity > 0,
                    self.view() == (CacheView { b1: lhm_keys(self.recent_bottom), ..v1 }),
                    trim_below(lhm_keys(self.recent_bottom), self.capacity as nat) == trim_below(
                        v1.b1,
                        v1.capacity,
                    ),
                    v1.capacity == self.capacity,
                decreases lhm_keys(self.recent_bottom).len(),
            {
                let ghost b = lhm_keys(self.recent_bottom);
                bottom_pop_front(&mut self.recent_bottom);
                proof {
                    let c = self.capacity as nat;
                    let t = b.drop_first();
                    assert(lhm_keys(self.recent_bottom) == t);
                    if c <= t.len() {
                        assert(t.skip(t.len() - c + 1) =~= b.skip(b.len() - c + 1));
                    } else {
                        assert(t =~= b.skip(b.len() - c + 1));
                    }
                }
            }
            let ghost trimmed = lhm_keys(self.recent_bottom);
            assert(trimmed == trim_below(v0.b1, v0.capacity));
            bottom_insert(&mut self.recent_bottom, k);
            proof {
                let w = spec_replace(v0, was_in_bottom).0;
                assert(k == v0.t1[0].0);
                assert(self.view().t1 == w.t1);
                assert(self.view().b1 == w.b1);
                assert(self.view().t2 == w.t2);
                assert(self.view().b2 == w.b2);
                assert(self.view().p == w.p);
                assert(self.view().capacity == w.capacity);
            }
        } else {
            let (k, v) = top_pop_front(&mut self.frequent_top).unwrap();
            let ghost ev = (k, entry_view(v));
            if let Some(f) = evicted {
                let ghost f0 = f@;
                f.push((k, v));
                proof {
                    assert(evicted_views(f@) =~= evicted_views(f0) + seq![ev]);
                }
            }
            let ghost v1 = self.view();
            while self.capacity <= top_len(&self.frequent_top)
                invariant
                    self.view() == v1,
                    lhm_entries(self.frequent_top).len() < self.capacity,
                decreases lhm_keys(self.frequent_bottom).len(),
            {
                bottom_pop_front(&mut self.frequent_bottom);
            }
            bottom_insert(&mut self.frequent_bottom, k);
            proof {
                let w = spec_replace(v0, was_in_bottom).0;
                assert(k == v0.t2[0].0);
                assert(self.view().t1 == w.t1);
                assert(self.view().b1 == w.b1);
                assert(self.view().t2 == w.t2);
                assert(self.view().b2 == w.b2);
                assert(self.view().p == w.p);
            }
        }
    }

    /// Whether inserting a missed `key` would never finish or fail, as
    /// `spec_insert_diverges` says.
    pub fn insert_diverges(&self, key: i64) -> (r: bool)
        ensures
            r == spec_insert_diverges(self.view(), key),
    {
        if top_contains(&self.recent_top, key) || top_contains(&self.frequent_top, key) {
            return false;
        }
        if self.capacity == 0 {
            return true;
        }
        let t1 = top_len(&self.recent_top);
        let t2 = top_len(&self.frequent_top);
        let b1 = bottom_len(&self.recent_bottom);
        let b2 = bottom_len(&self.frequent_bottom);
        let full = t1 == 0 && t2 == self.capacity;
        if bottom_contains(&self.frequent_bottom, key) {
            (b2 == 1 && b1 > 0) || full
        } else if bottom_contains(&self.recent_bottom, key) {
            (b1 == 1 && b2 > 0) || full
        } else {
            false
        }
    }

    /// Caches `value` under `key` and gives the value it replaced, as
    /// `spec_insert` says; a frequent entry evicted to make room is added
    /// to `evicted` where it is given.
    pub fn insert(&mut self, key: i64, value: VfsEntry, evicted: Option<&mut Vec<(i64, VfsEntry)>>) -> (r:
        Option<VfsEntry>)
        requires
            cache_wf(old(self).view()),
            !spec_insert_diverges(old(self).view(), key),
            old(self).view().p + old(self).view().b2.len() <= usize::MAX,
            old(self).view().capacity < usize::MAX,
        ensures
            cache_wf(final(self).view()),
            final(self).view() == spec_insert(old(self).view(), key, entry_view(value)).0,
            match spec_insert(old(self).view(), key, entry_view(value)).1 {
                Some(e) => r matches Some(o) && entry_view(o) == e,
                None => r is None,
            },
            evicted is Some ==> evicted_views(final(evicted.unwrap())@) == evicted_views(
                (*evicted.unwrap())@,
            ) + spec_insert(old(self).view(), key, entry_view(value)).2,
    {
        let ghost v0 = self.view();
        let ghost ve = entry_view(value);
        proof {
            lemma_insert_facts(v0, key, ve);
        }
        if top_contains(&self.recent_top, key) {
            proof {
                lemma_index_of_key(v0.t1, key);
            }
            return top_insert(&mut self.recent_top, key, value);
        }
        if top_contains(&self.frequent_top, key) {
            proof {
                lemma_index_of_key(v0.t2, key);
            }
            return top_insert(&mut self.frequent_top, key, value);
        }
        let mut inject_frequent = false;
        let mut was_in_frequent_bottom = false;
        if bottom_remove(&mut self.frequent_bottom, key) {
            let b1 = bottom_len(&self.recent_bottom);
            let b2 = bottom_len(&self.frequent_bottom);
            let d = if b1 <= b2 {
                1
            } else {
                b1 / b2
            };
            if d <= self.p_value {
                self.p_value = self.p_value - d;
            } else {
                self.p_value = 0;
            }
            was_in_frequent_bottom = true;
            inject_frequent = true;
        } else if bottom_remove(&mut self.recent_bottom, key) {
            let b1 = bottom_len(&self.recent_bottom);
            let b2 = bottom_len(&self.frequent_bottom);
            let d = if b2 <= b1 {
                1
            } else {
                b2 / b1
            };
            self.p_value = self.p_value + d;
            if self.capacity < self.p_value {
                self.p_value = self.capacity;
            }
            inject_frequent = true;
        }
        if inject_frequent {
            top_insert(&mut self.frequent_top, key, value);
        } else {
            top_insert(&mut self.recent_top, key, value);
        }
        proof {
            let (w, inj, wib) = spec_miss(v0, key, ve);
            assert(self.view() =~= w);
            assert(inj == inject_frequent);
            assert(wib == was_in_frequent_bottom);
        }
        if top_len(&self.recent_top) + top_len(&self.frequent_top) > self.capacity || inject_frequent {
            self.replace_helper(was_in_frequent_bottom, evicted);
        } else {
            proof {
                if evicted is Some {
                    assert(evicted_views((*evicted.unwrap())@) + Seq::<(i64, EntryView)>::empty()
                        =~= evicted_views((*evicted.unwrap())@));
                }
            }
        }
        None
    }
}

} // verus!
