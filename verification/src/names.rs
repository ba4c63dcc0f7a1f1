//! File names ordered as strings are: lexicographically by character, and a
//! sorted name-to-inode table built on that order.

use vstd::prelude::*;

use crate::text::chars_of;

verus! {

/// Whether `a` sorts before `b`: the first differing character decides, and
/// a proper prefix sorts first.
pub open spec fn lex_lt(a: Seq<char>, b: Seq<char>) -> bool
    decreases a.len(),
{
    if a.len() == 0 {
        b.len() > 0
    } else if b.len() == 0 {
        false
    } else if a[0] != b[0] {
        a[0] < b[0]
    } else {
        lex_lt(a.skip(1), b.skip(1))
    }
}

/// No name sorts before itself.
pub proof fn lemma_lex_irreflexive(a: Seq<char>)
    ensures
        !lex_lt(a, a),
    decreases a.len(),
{
    if a.len() > 0 {
        lemma_lex_irreflexive(a.skip(1));
    }
}

/// Of two different names, one sorts before the other, and not both ways.
pub proof fn lemma_lex_total(a: Seq<char>, b: Seq<char>)
    ensures
        a != b ==> (lex_lt(a, b) || lex_lt(b, a)),
        !(lex_lt(a, b) && lex_lt(b, a)),
    decreases a.len(),
{
    if a.len() > 0 && b.len() > 0 && a[0] == b[0] {
        lemma_lex_total(a.skip(1), b.skip(1));
        if a != b {
            if a.skip(1) == b.skip(1) {
                assert(a =~= seq![a[0]] + a.skip(1));
                assert(b =~= seq![b[0]] + b.skip(1));
            }
        }
    } else if a.len() == 0 && b.len() == 0 {
        assert(a =~= b);
    }
}

/// Sorting before is transitive.
pub proof fn lemma_lex_transitive(a: Seq<char>, b: Seq<char>, c: Seq<char>)
    requires
        lex_lt(a, b),
        lex_lt(b, c),
    ensures
        lex_lt(a, c),
    decreases a.len(),
{
    if a.len() > 0 && b.len() > 0 && c.len() > 0 {
        if a[0] == b[0] && b[0] == c[0] {
            lemma_lex_transitive(a.skip(1), b.skip(1), c.skip(1));
        }

    }
}

/// How two names compare.
#[derive(Debug, Clone, Copy, PartialEq, Eq, Structural)]
pub enum NameOrder {
    Less,
    Equal,
    Greater,
}

/// How the names `a` and `b` compare.
pub fn compare_names(a: &str, b: &str) -> (r: NameOrder)
    ensures
        r == NameOrder::Less <==> lex_lt(a@, b@),
        r == NameOrder::Equal <==> a@ == b@,
        r == NameOrder::Greater <==> lex_lt(b@, a@),
{
    let va = chars_of(a);
    let vb = chars_of(b);
    proof {
        lemma_lex_total(a@, b@);
        lemma_lex_irreflexive(a@);
    }
    let mut i: usize = 0;
    assert(a@.skip(0) =~= a@);
    assert(b@.skip(0) =~= b@);
    while i < va.len() && i < vb.len() && va[i] == vb[i]
        invariant
            va@ == a@,
            vb@ == b@,
            0 <= i <= va@.len(),
            i <= vb@.len(),
            va@.take(i as int) == vb@.take(i as int),
            lex_lt(a@, b@) == lex_lt(a@.skip(i as int), b@.skip(i as int)),
            lex_lt(b@, a@) == lex_lt(b@.skip(i as int), a@.skip(i as int)),
        decreases va@.len() - i,
    {
        assert(a@.skip(i as int).skip(1) =~= a@.skip(i + 1));
        assert(b@.skip(i as int).skip(1) =~= b@.skip(i + 1));
        assert(a@.skip(i as int)[0] == b@.skip(i as int)[0]);
        i = i + 1;
        assert(va@.take(i as int) =~= va@.take(i - 1).push(va@[i - 1]));
        assert(vb@.take(i as int) =~= vb@.take(i - 1).push(vb@[i - 1]));
    }
    if i == va.len() && i == vb.len() {
        assert(a@ =~= va@.take(i as int));
        assert(b@ =~= vb@.take(i as int));
        return NameOrder::Equal;
    }
    proof {
        if a@ == b@ {
            assert(i < va@.len() && i < vb@.len());
            assert(a@[i as int] == b@[i as int]);
        }
    }
    if i == va.len() {
        assert(a@.skip(i as int).len() == 0);
        return NameOrder::Less;
    }
    if i == vb.len() {
        assert(b@.skip(i as int).len() == 0);
        return NameOrder::Greater;
    }
    assert(a@.skip(i as int)[0] == va@[i as int]);
    assert(b@.skip(i as int)[0] == vb@[i as int]);
    if va[i] < vb[i] {
        NameOrder::Less
    } else {
        NameOrder::Greater
    }
}

/// Whether the names of `s` are in strictly increasing order.
pub open spec fn sorted_names<V>(s: Seq<(Seq<char>, V)>) -> bool {
    forall|i: int, j: int| 0 <= i < j < s.len() ==> lex_lt(#[trigger] s[i].0, #[trigger] s[j].0)
}

/// The map from name to inode that the pairs `s` hold, later pairs winning.
pub open spec fn pairs_map<V>(s: Seq<(Seq<char>, V)>) -> Map<Seq<char>, V>
    decreases s.len(),
{
    if s.len() == 0 {
        Map::empty()
    } else {
        pairs_map(s.drop_last()).insert(s.last().0, s.last().1)
    }
}

/// The names of `s` are its map's keys, each with its own inode.
pub proof fn lemma_pairs_map<V>(s: Seq<(Seq<char>, V)>)
    requires
        sorted_names(s),
    ensures
        forall|k: Seq<char>| #[trigger]
            pairs_map(s).contains_key(k) <==> exists|i: int| 0 <= i < s.len() && s[i].0 == k,
        forall|i: int| 0 <= i < s.len() ==> #[trigger] pairs_map(s)[s[i].0] == s[i].1,
    decreases s.len(),
{
    if s.len() > 0 {
        let t = s.drop_last();
        assert(sorted_names(t)) by {
            assert forall|i: int, j: int| 0 <= i < j < t.len() implies lex_lt(
                #[trigger] t[i].0,
                #[trigger] t[j].0,
            ) by {
                assert(t[i] == s[i] && t[j] == s[j]);
            }
        }
        lemma_pairs_map(t);
        let last = s.last();
        assert forall|k: Seq<char>| #[trigger]
            pairs_map(s).contains_key(k) <==> exists|i: int| 0 <= i < s.len() && s[i].0 == k by {
            if k == last.0 {
                assert(s[s.len() - 1].0 == k);
            } else {
                if pairs_map(t).contains_key(k) {
                    let i = choose|i: int| 0 <= i < t.len() && t[i].0 == k;
                    assert(s[i].0 == k);
                }
                if exists|i: int| 0 <= i < s.len() && s[i].0 == k {
                    let i = choose|i: int| 0 <= i < s.len() && s[i].0 == k;
                    assert(i < t.len());
                    assert(t[i].0 == k);
                }
            }
        }
        assert forall|i: int| 0 <= i < s.len() implies #[trigger] pairs_map(s)[s[i].0]
            == s[i].1 by {
            if i < t.len() {
                assert(lex_lt(s[i].0, s[s.len() - 1].0));
                lemma_lex_irreflexive(s[i].0);
                assert(t[i] == s[i]);
                assert(pairs_map(t)[t[i].0] == t[i].1);
                assert(s[i].0 != last.0);
            }
        }
    }
}

/// A table from name to value, kept in name order.
#[derive(Debug, Clone)]
pub struct NameMap<V> {
    entries: Vec<(String, V)>,
}

/// A directory's table from entry name to inode.
pub type DirContents = NameMap<i64>;

/// The names and inodes of `v`, as characters.
pub open spec fn entries_view<V>(v: Seq<(String, V)>) -> Seq<(Seq<char>, V)> {
    v.map_values(|e: (String, V)| (e.0@, e.1))
}

impl<V> NameMap<V> {
    /// The entries in name order.
    pub closed spec fn entries_spec(&self) -> Seq<(Seq<char>, V)> {
        entries_view(self.entries@)
    }

    /// Whether the entries are in strictly increasing name order.
    pub closed spec fn wf(&self) -> bool {
        sorted_names(entries_view(self.entries@))
    }

    /// The table as a map from name to inode.
    pub closed spec fn map(&self) -> Map<Seq<char>, V> {
        pairs_map(entries_view(self.entries@))
    }

    /// The empty table.
    pub fn new() -> (r: NameMap<V>)
        ensures
            r.wf(),
            r.map() == Map::<Seq<char>, V>::empty(),
            r.entries_spec().len() == 0,
    {
        let r = NameMap { entries: Vec::new() };
        assert(entries_view(r.entries@) =~= Seq::<(Seq<char>, V)>::empty());
        r
    }

    /// The entries, in name order.
    pub fn entries(&self) -> (r: &Vec<(String, V)>)
        ensures
            entries_view(r@) == self.entries_spec(),
    {
        &self.entries
    }

    /// The number of entries.
    pub fn len(&self) -> (r: usize)
        requires
            self.wf(),
        ensures
            r == self.map().len(),
            r == self.entries_spec().len(),
    {
        proof {
            self.lemma_wf_map();
        }
        self.entries.len()
    }

    /// The entries in name order hold exactly the table's names.
    pub proof fn lemma_wf_map(&self)
        requires
            self.wf(),
        ensures
            forall|k: Seq<char>| #[trigger]
                self.map().contains_key(k) <==> exists|i: int|
                    0 <= i < self.entries_spec().len() && self.entries_spec()[i].0 == k,
            forall|i: int|
                0 <= i < self.entries_spec().len() ==> #[trigger] self.map()[self.entries_spec()[i].0]
                    == self.entries_spec()[i].1,
            self.map().len() == self.entries_spec().len(),
            self.map().dom().finite(),
    {
        let s = entries_view(self.entries@);
        lemma_pairs_map(s);
        lemma_sorted_map_len(s);
        assert(self.entries_spec() == s);
        assert(self.map() == pairs_map(s));
        assert forall|k: Seq<char>| #[trigger]
            self.map().contains_key(k) <==> exists|i: int|
                0 <= i < self.entries_spec().len() && self.entries_spec()[i].0 == k by {
            assert(pairs_map(s).contains_key(k) <==> exists|i: int| 0 <= i < s.len() && s[i].0 == k);
            if exists|i: int| 0 <= i < s.len() && s[i].0 == k {
                let i = choose|i: int| 0 <= i < s.len() && s[i].0 == k;
                assert(self.entries_spec()[i].0 == k);
            }
        }
        assert forall|i: int|
            0 <= i < self.entries_spec().len() implies #[trigger] self.map()[self.entries_spec()[i].0]
                == self.entries_spec()[i].1 by {
            assert(pairs_map(s)[s[i].0] == s[i].1);
        }
    }

    /// The inode of the entry `name`, if there is one.
    pub fn get(&self, name: &str) -> (r: Option<&V>)
        requires
            self.wf(),
        ensures
            r == (if self.map().contains_key(name@) {
                Some(&self.map()[name@])
            } else {
                None
            }),
    {
        let ghost s = entries_view(self.entries@);
        proof {
            lemma_pairs_map(s);
        }
        let mut i: usize = 0;
        while i < self.entries.len()
            invariant
                s == entries_view(self.entries@),
                sorted_names(s),
                0 <= i <= self.entries@.len(),
                forall|j: int| 0 <= j < i ==> s[j].0 != name@,
            decreases self.entries@.len() - i,
        {
            if compare_names(self.entries[i].0.as_str(), name) == NameOrder::Equal {
                assert(s[i as int].0 == name@);
                proof {
                    lemma_pairs_map(s);
                }
                assert(pairs_map(s)[s[i as int].0] == s[i as int].1);
                assert(pairs_map(s).contains_key(s[i as int].0));
                return Some(&self.entries[i].1);
            }
            i = i + 1;
        }
        None
    }

    /// Sets the entry `name` to `inode`, adding it where it is new.
    pub fn insert(&mut self, name: String, inode: V)
        requires
            old(self).wf(),
        ensures
            final(self).wf(),
            final(self).map() == old(self).map().insert(name@, inode),
    {
        let ghost s = entries_view(self.entries@);
        proof {
            lemma_pairs_map(s);
        }
        let mut i: usize = 0;
        while i < self.entries.len()
            invariant
                s == entries_view(self.entries@),
                s == entries_view(old(self).entries@),
                sorted_names(s),
                0 <= i <= self.entries@.len(),
                forall|j: int| 0 <= j < i ==> lex_lt(s[j].0, name@),
            ensures
                s == entries_view(old(self).entries@),
                0 <= i <= self.entries@.len(),
                s == entries_view(self.entries@),
                forall|j: int| 0 <= j < i ==> lex_lt(s[j].0, name@),
                i < self.entries@.len() ==> lex_lt(name@, s[i as int].0),
            decreases self.entries@.len() - i,
        {
            let o = compare_names(self.entries[i].0.as_str(), name.as_str());
            if o == NameOrder::Equal {
                let ghost old_entries = self.entries@;
                self.entries.set(i, (name, inode));
                proof {
                    lemma_pairs_map(s);
                    let t = entries_view(self.entries@);
                    assert(t =~= s.update(i as int, (s[i as int].0, inode)));
                    assert(sorted_names(t)) by {
                        assert forall|a: int, b: int| 0 <= a < b < t.len() implies lex_lt(
                            #[trigger] t[a].0,
                            #[trigger] t[b].0,
                        ) by {
                            assert(t[a].0 == s[a].0 && t[b].0 == s[b].0);
                        }
                    }
                    lemma_pairs_map(t);
                    assert(self.map() == pairs_map(t));
                    assert(old(self).map() == pairs_map(s));
                    assert(self.map() =~= old(self).map().insert(name@, inode)) by {
                        assert forall|k: Seq<char>|
                            self.map().contains_key(k) <==> old(self).map().insert(
                                name@,
                                inode,
                            ).contains_key(k) by {
                            if exists|j: int| 0 <= j < t.len() && t[j].0 == k {
                                let j = choose|j: int| 0 <= j < t.len() && t[j].0 == k;
                                assert(s[j].0 == k);
                            }
                            if exists|j: int| 0 <= j < s.len() && s[j].0 == k {
                                let j = choose|j: int| 0 <= j < s.len() && s[j].0 == k;
                                assert(t[j].0 == k);
                            }
                            if k == name@ {
                                assert(t[i as int].0 == k);
                            }
                        }
                        assert forall|k: Seq<char>| #[trigger] self.map().contains_key(k)
                            implies self.map()[k] == old(self).map().insert(name@, inode)[k] by {
                            let j = choose|j: int| 0 <= j < t.len() && t[j].0 == k;
                            assert(self.map()[t[j].0] == t[j].1);
                            if j != i {
                                assert(t[j] == s[j]);
                                assert(pairs_map(s)[s[j].0] == s[j].1);
                                lemma_lex_irreflexive(s[j].0);
                                if j < i {
                                    assert(lex_lt(s[j].0, s[i as int].0));
                                } else {
                                    assert(lex_lt(s[i as int].0, s[j].0));
                                }
                            }
                        }
                    }
                }
                return;
            }
            if o == NameOrder::Greater {
                break;
            }
            i = i + 1;
        }
        let ghost before = self.entries@;
        self.entries.insert(i, (name, inode));
        proof {
            lemma_pairs_map(s);
            let t = entries_view(self.entries@);
            assert(t =~= s.take(i as int) + seq![(name@, inode)] + s.skip(i as int));
            assert forall|j: int| i <= j < s.len() implies lex_lt(name@, #[trigger] s[j].0) by {
                assert(lex_lt(name@, s[i as int].0));
                if j > i {
                    lemma_lex_transitive(name@, s[i as int].0, s[j].0);
                }
            }
            assert(sorted_names(t)) by {
                assert forall|a: int, b: int| 0 <= a < b < t.len() implies lex_lt(
                    #[trigger] t[a].0,
                    #[trigger] t[b].0,
                ) by {
                    if b < i {
                        assert(t[a] == s[a] && t[b] == s[b]);
                    } else if b == i {
                        assert(t[a] == s[a]);
                    } else if a < i {
                        assert(t[a] == s[a] && t[b] == s[b - 1]);
                        lemma_lex_transitive(s[a].0, name@, s[b - 1].0);
                    } else if a == i {
                        assert(t[b] == s[b - 1]);
                    } else {
                        assert(t[a] == s[a - 1] && t[b] == s[b - 1]);
                    }
                }
            }
            lemma_pairs_map(t);
            assert forall|j: int| 0 <= j < s.len() implies s[j].0 != name@ by {
                if j < i {
                    lemma_lex_irreflexive(name@);
                } else {
                    lemma_lex_irreflexive(name@);
                }
            }
            assert(self.map() =~= old(self).map().insert(name@, inode)) by {
                assert forall|k: Seq<char>|
                    self.map().contains_key(k) <==> old(self).map().insert(
                        name@,
                        inode,
                    ).contains_key(k) by {
                    if exists|j: int| 0 <= j < t.len() && t[j].0 == k {
                        let j = choose|j: int| 0 <= j < t.len() && t[j].0 == k;
                        if j < i {
                            assert(s[j].0 == k);
                        } else if j > i {
                            assert(s[j - 1].0 == k);
                        }
                    }
                    if exists|j: int| 0 <= j < s.len() && s[j].0 == k {
                        let j = choose|j: int| 0 <= j < s.len() && s[j].0 == k;
                        if j < i {
                            assert(t[j].0 == k);
                        } else {
                            assert(t[j + 1].0 == k);
                        }
                    }
                    if k == name@ {
                        assert(t[i as int].0 == k);
                    }
                }
                assert forall|k: Seq<char>| #[trigger] self.map().contains_key(k) implies self.map()[k]
                    == old(self).map().insert(name@, inode)[k] by {
                    let j = choose|j: int| 0 <= j < t.len() && t[j].0 == k;
                    assert(pairs_map(t)[t[j].0] == t[j].1);
                    if j < i {
                        assert(t[j] == s[j]);
                        assert(pairs_map(s)[s[j].0] == s[j].1);
                    } else if j > i {
                        assert(t[j] == s[j - 1]);
                        assert(pairs_map(s)[s[j - 1].0] == s[j - 1].1);
                    }
                }
            }
        }
    }
}

impl<V> NameMap<V> {
    /// Removes the entry `name` and gives its value, if there was one.
    pub fn remove(&mut self, name: &str) -> (r: Option<V>)
        requires
            old(self).wf(),
        ensures
            final(self).wf(),
            final(self).map() == old(self).map().remove(name@),
            r matches Some(v) ==> old(self).map().contains_key(name@) && old(self).map()[name@] == v,
            r is None ==> !old(self).map().contains_key(name@),
    {
        let ghost s = entries_view(self.entries@);
        proof {
            lemma_pairs_map(s);
        }
        let mut i: usize = 0;
        while i < self.entries.len()
            invariant
                s == entries_view(self.entries@),
                s == entries_view(old(self).entries@),
                sorted_names(s),
                0 <= i <= self.entries@.len(),
                forall|j: int| 0 <= j < i ==> s[j].0 != name@,
            decreases self.entries@.len() - i,
        {
            if compare_names(self.entries[i].0.as_str(), name) == NameOrder::Equal {
                let (_, v) = self.entries.remove(i);
                proof {
                    lemma_pairs_map(s);
                    let t = entries_view(self.entries@);
                    assert(t =~= s.take(i as int) + s.skip(i + 1));
                    assert(sorted_names(t)) by {
                        assert forall|a: int, b: int| 0 <= a < b < t.len() implies lex_lt(
                            #[trigger] t[a].0,
                            #[trigger] t[b].0,
                        ) by {
                            let a0 = if a < i { a } else { a + 1 };
                            let b0 = if b < i { b } else { b + 1 };
                            assert(t[a] == s[a0] && t[b] == s[b0]);
                        }
                    }
                    lemma_pairs_map(t);
                    assert(self.map() == pairs_map(t));
                    assert(old(self).map() == pairs_map(s));
                    assert(self.map() =~= old(self).map().remove(name@)) by {
                        assert forall|k: Seq<char>|
                            self.map().contains_key(k) <==> old(self).map().remove(name@).contains_key(k) by {
                            if exists|j: int| 0 <= j < t.len() && t[j].0 == k {
                                let j = choose|j: int| 0 <= j < t.len() && t[j].0 == k;
                                let j0 = if j < i { j } else { j + 1 };
                                assert(s[j0].0 == k);
                                lemma_lex_irreflexive(k);
                                if k == name@ {
                                    if j0 < i {
                                        assert(lex_lt(s[j0].0, s[i as int].0));
                                    } else {
                                        assert(lex_lt(s[i as int].0, s[j0].0));
                                    }
                                }
                            }
                            if exists|j: int| 0 <= j < s.len() && s[j].0 == k && k != name@ {
                                let j = choose|j: int| 0 <= j < s.len() && s[j].0 == k && k != name@;
                                assert(j != i);
                                let j1 = if j < i { j } else { j - 1 };
                                assert(t[j1].0 == k);
                            }
                        }
                        assert forall|k: Seq<char>| #[trigger] self.map().contains_key(k) implies self.map()[k]
                            == old(self).map().remove(name@)[k] by {
                            let j = choose|j: int| 0 <= j < t.len() && t[j].0 == k;
                            let j0 = if j < i { j } else { j + 1 };
                            assert(t[j] == s[j0]);
                            assert(pairs_map(t)[t[j].0] == t[j].1);
                            assert(pairs_map(s)[s[j0].0] == s[j0].1);
                        }
                    }
                    assert(s[i as int].1 == v);
                    assert(pairs_map(s)[s[i as int].0] == s[i as int].1);
                }
                return Some(v);
            }
            i = i + 1;
        }
        proof {
            assert(self.map() =~= old(self).map().remove(name@)) by {
                if old(self).map().contains_key(name@) {
                    let j = choose|j: int| 0 <= j < s.len() && s[j].0 == name@;
                }
            }
        }
        None
    }
}

/// A sorted list of pairs has as many keys as pairs.
proof fn lemma_sorted_map_len<V>(s: Seq<(Seq<char>, V)>)
    requires
        sorted_names(s),
    ensures
        pairs_map(s).len() == s.len(),
        pairs_map(s).dom().finite(),
    decreases s.len(),
{
    if s.len() > 0 {
        let t = s.drop_last();
        assert(sorted_names(t)) by {
            assert forall|i: int, j: int| 0 <= i < j < t.len() implies lex_lt(
                #[trigger] t[i].0,
                #[trigger] t[j].0,
            ) by {
                assert(t[i] == s[i] && t[j] == s[j]);
            }
        }
        lemma_sorted_map_len(t);
        lemma_pairs_map(t);
        assert(!pairs_map(t).contains_key(s.last().0)) by {
            if pairs_map(t).contains_key(s.last().0) {
                let i = choose|i: int| 0 <= i < t.len() && t[i].0 == s.last().0;
                assert(lex_lt(s[i].0, s[s.len() - 1].0));
                lemma_lex_irreflexive(s.last().0);
            }
        }
    }
}

} // verus!
