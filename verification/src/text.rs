//! Character-level helpers shared by the text parsers: Unicode whitespace,
//! trimming, searching and splitting over sequences of characters.

use vstd::prelude::*;

use crate::strings::string_from_chars;

verus! {

/// The Unicode `White_Space` characters, the set that `char::is_whitespace` tests.
pub open spec fn is_ws(c: char) -> bool {
    ||| c == '\t' || c == '\n' || c == '\u{0B}' || c == '\u{0C}' || c == '\r' || c == ' '
    ||| c == '\u{85}' || c == '\u{A0}' || c == '\u{1680}'
    ||| ('\u{2000}' <= c && c <= '\u{200A}')
    ||| c == '\u{2028}' || c == '\u{2029}' || c == '\u{202F}' || c == '\u{205F}'
    ||| c == '\u{3000}'
}

/// Whether `c` is Unicode whitespace.
pub fn is_whitespace(c: char) -> (r: bool)
    ensures
        r == is_ws(c),
{
    c == '\t' || c == '\n' || c == '\u{0B}' || c == '\u{0C}' || c == '\r' || c == ' '
        || c == '\u{85}' || c == '\u{A0}' || c == '\u{1680}' || ('\u{2000}' <= c && c
        <= '\u{200A}') || c == '\u{2028}' || c == '\u{2029}' || c == '\u{202F}' || c
        == '\u{205F}' || c == '\u{3000}'
}

/// The characters of `s`, in order.
pub fn chars_of(s: &str) -> (v: Vec<char>)
    ensures
        v@ == s@,
{
    let mut v: Vec<char> = Vec::new();
    for c in it: s.chars()
        invariant
            it.seq() == s@,
            v@ == s@.take(it.index()),
    {
        assert(s@.take(it.index() + 1) =~= s@.take(it.index()).push(c));
        v.push(c);
    }
    assert(s@.take(s@.len() as int) =~= s@);
    v
}

/// Index of the first character at or after `i` that is not whitespace (`s.len()` if none).
pub open spec fn skip_ws(s: Seq<char>, i: int) -> int
    decreases s.len() - i,
{
    if i >= s.len() {
        s.len() as int
    } else if is_ws(s[i]) {
        skip_ws(s, i + 1)
    } else {
        i
    }
}

/// One past the last character before `j` that is not whitespace (`lo` if none at or after `lo`).
pub open spec fn skip_ws_back(s: Seq<char>, lo: int, j: int) -> int
    decreases j - lo,
{
    if j <= lo {
        lo
    } else if is_ws(s[j - 1]) {
        skip_ws_back(s, lo, j - 1)
    } else {
        j
    }
}

/// `s` without leading and trailing whitespace, as `str::trim` gives it.
pub open spec fn trim(s: Seq<char>) -> Seq<char> {
    let lo = skip_ws(s, 0);
    s.subrange(lo, skip_ws_back(s, lo, s.len() as int))
}

/// Skipping white space from `i` stays within the text.
pub proof fn lemma_skip_ws_bounds(s: Seq<char>, i: int)
    requires
        0 <= i <= s.len(),
    ensures
        i <= skip_ws(s, i) <= s.len(),
    decreases s.len() - i,
{
    if i < s.len() && is_ws(s[i]) {
        lemma_skip_ws_bounds(s, i + 1);
    }
}

/// Skipping white space backwards from `j` stays between `lo` and `j`.
pub proof fn lemma_skip_ws_back_bounds(s: Seq<char>, lo: int, j: int)
    requires
        0 <= lo <= j <= s.len(),
    ensures
        lo <= skip_ws_back(s, lo, j) <= j,
    decreases j - lo,
{
    if j > lo && is_ws(s[j - 1]) {
        lemma_skip_ws_back_bounds(s, lo, j - 1);
    }
}

/// Bounds of `v[lo..hi]` once leading and trailing whitespace is dropped.
pub fn trim_range(v: &Vec<char>, lo: usize, hi: usize) -> (r: (usize, usize))
    requires
        lo <= hi <= v.len(),
    ensures
        lo <= r.0 <= r.1 <= hi,
        v@.subrange(r.0 as int, r.1 as int) == trim(v@.subrange(lo as int, hi as int)),
{
    let ghost s = v@.subrange(lo as int, hi as int);
    let mut a: usize = lo;
    while a < hi && is_whitespace(v[a])
        invariant
            lo <= a <= hi <= v.len(),
            s == v@.subrange(lo as int, hi as int),
            skip_ws(s, (a - lo) as int) == skip_ws(s, 0),
        decreases hi - a,
    {
        a = a + 1;
    }
    assert(skip_ws(s, (a - lo) as int) == (a - lo) as int);
    let mut b: usize = hi;
    while b > a && is_whitespace(v[b - 1])
        invariant
            lo <= a <= b <= hi <= v.len(),
            s == v@.subrange(lo as int, hi as int),
            skip_ws(s, 0) == (a - lo) as int,
            skip_ws_back(s, (a - lo) as int, (b - lo) as int) == skip_ws_back(
                s,
                (a - lo) as int,
                s.len() as int,
            ),
        decreases b - a,
    {
        b = b - 1;
    }
    assert(skip_ws_back(s, (a - lo) as int, (b - lo) as int) == (b - lo) as int);
    assert(v@.subrange(a as int, b as int) =~= s.subrange((a - lo) as int, (b - lo) as int));
    (a, b)
}

/// Whether `pat` occurs in `s` at index `i`.
pub open spec fn occurs_at(s: Seq<char>, pat: Seq<char>, i: int) -> bool {
    0 <= i && i + pat.len() <= s.len() && s.subrange(i, i + pat.len()) == pat
}

/// Index of the first occurrence of `pat` in `s` at or after `i`.
pub open spec fn find_from(s: Seq<char>, pat: Seq<char>, i: int) -> Option<int>
    decreases s.len() + 1 - i,
{
    if i < 0 || i + pat.len() > s.len() {
        None
    } else if occurs_at(s, pat, i) {
        Some(i)
    } else {
        find_from(s, pat, i + 1)
    }
}

/// Index of the first occurrence of `pat` in `s`.
pub open spec fn find(s: Seq<char>, pat: Seq<char>) -> Option<int> {
    find_from(s, pat, 0)
}

/// A match found from `i` on lies at or after `i` and fits in the text.
pub proof fn lemma_find_from_bounds(s: Seq<char>, pat: Seq<char>, i: int)
    ensures
        find_from(s, pat, i) matches Some(k) ==> i <= k && occurs_at(s, pat, k),
    decreases s.len() + 1 - i,
{
    if !(i < 0 || i + pat.len() > s.len()) && !occurs_at(s, pat, i) {
        lemma_find_from_bounds(s, pat, i + 1);
    }
}

/// Where `pat` occurs at or after `i`, a match is found from `i` on.
pub proof fn lemma_find_from_some(s: Seq<char>, pat: Seq<char>, i: int, k: int)
    requires
        0 <= i <= k,
        occurs_at(s, pat, k),
    ensures
        find_from(s, pat, i) is Some,
    decreases k - i,
{
    if !occurs_at(s, pat, i) {
        lemma_find_from_some(s, pat, i + 1, k);
    }
}

/// The first occurrence at or after `i` is found.
pub proof fn lemma_find_from_first(s: Seq<char>, pat: Seq<char>, i: int, k: int)
    requires
        0 <= i <= k,
        occurs_at(s, pat, k),
        forall|j: int| i <= j < k ==> !occurs_at(s, pat, j),
    ensures
        find_from(s, pat, i) == Some(k),
    decreases k - i,
{
    if i < k {
        lemma_find_from_first(s, pat, i + 1, k);
    }
}

/// Where `pat` occurs nowhere from `i` on, nothing is found.
pub proof fn lemma_find_from_none(s: Seq<char>, pat: Seq<char>, i: int)
    requires
        0 <= i,
        forall|j: int| i <= j ==> !occurs_at(s, pat, j),
    ensures
        find_from(s, pat, i) is None,
    decreases s.len() + 1 - i,
{
    if !(i + pat.len() > s.len()) {
        lemma_find_from_none(s, pat, i + 1);
    }
}

/// Whether `pat` occurs at index `i` of `v[lo..hi]`.
fn occurs_at_range(v: &Vec<char>, lo: usize, hi: usize, pat: &[char], i: usize) -> (r: bool)
    requires
        lo <= hi <= v.len(),
    ensures
        r == occurs_at(v@.subrange(lo as int, hi as int), pat@, i as int),
{
    let ghost s = v@.subrange(lo as int, hi as int);
    if i > hi - lo || pat.len() > hi - lo - i {
        return false;
    }
    let mut k: usize = 0;
    while k < pat.len()
        invariant
            lo <= hi <= v.len(),
            i + pat@.len() <= hi - lo,
            s == v@.subrange(lo as int, hi as int),
            0 <= k <= pat@.len(),
            forall|j: int| 0 <= j < k ==> s[i + j] == pat@[j],
        decreases pat.len() - k,
    {
        if v[lo + i + k] != pat[k] {
            assert(s.subrange(i as int, i + pat@.len())[k as int] != pat@[k as int]);
            return false;
        }
        k = k + 1;
    }
    assert(s.subrange(i as int, i + pat@.len()) =~= pat@);
    true
}

/// Index of the first occurrence of `pat` in `v[lo..hi]`, relative to `lo`.
pub fn find_in_range(v: &Vec<char>, lo: usize, hi: usize, pat: &[char]) -> (r: Option<usize>)
    requires
        lo <= hi <= v.len(),
    ensures
        r matches Some(k) ==> find(v@.subrange(lo as int, hi as int), pat@) == Some(k as int),
        r is None ==> find(v@.subrange(lo as int, hi as int), pat@) is None,
{
    let ghost s = v@.subrange(lo as int, hi as int);
    if pat.len() > hi - lo {
        return None;
    }
    let mut i: usize = 0;
    while i <= hi - lo - pat.len()
        invariant
            lo <= hi <= v.len(),
            pat@.len() <= hi - lo,
            s == v@.subrange(lo as int, hi as int),
            i + pat@.len() <= hi - lo + 1,
            find_from(s, pat@, 0) == find_from(s, pat@, i as int),
        decreases hi - lo + 1 - i,
    {
        if occurs_at_range(v, lo, hi, pat, i) {
            return Some(i);
        }
        if i == hi - lo - pat.len() {
            assert(find_from(s, pat@, i + 1) is None);
            return None;
        }
        i = i + 1;
    }
    None
}


/// One past the last character of the run of non-whitespace that starts at `i`.
pub open spec fn run_end(s: Seq<char>, i: int) -> int
    decreases s.len() - i,
{
    if i >= s.len() {
        s.len() as int
    } else if is_ws(s[i]) {
        i
    } else {
        run_end(s, i + 1)
    }
}

/// The end of the run that starts at `i` lies between `i` and the end.
pub proof fn lemma_run_end_bounds(s: Seq<char>, i: int)
    requires
        0 <= i <= s.len(),
    ensures
        i <= run_end(s, i) <= s.len(),
        i < s.len() && !is_ws(s[i]) ==> i < run_end(s, i),
    decreases s.len() - i,
{
    if i < s.len() && !is_ws(s[i]) {
        lemma_run_end_bounds(s, i + 1);
    }
}

/// The words of `s`: its maximal runs of non-whitespace, as
/// `str::split_whitespace` gives them.
pub open spec fn split_ws(s: Seq<char>) -> Seq<Seq<char>>
    decreases s.len(),
{
    let a = skip_ws(s, 0);
    if a >= s.len() {
        Seq::empty()
    } else {
        let b = run_end(s, a);
        proof {
            lemma_skip_ws_bounds(s, 0);
            lemma_run_end_bounds(s, a);
        }
        if b <= 0 {
            Seq::empty()
        } else {
            seq![s.subrange(a, b)] + split_ws(s.skip(b))
        }
    }
}

/// Skipping whitespace from `i` gives `i` where `s[i]` is not whitespace.
proof fn lemma_skip_ws_stops(s: Seq<char>, i: int)
    requires
        0 <= i <= s.len(),
    ensures
        skip_ws(s, i) < s.len() ==> !is_ws(s[skip_ws(s, i)]),
    decreases s.len() - i,
{
    if i < s.len() && is_ws(s[i]) {
        lemma_skip_ws_stops(s, i + 1);
    }
}

/// The characters of each string.
pub open spec fn words_view(v: Seq<String>) -> Seq<Seq<char>> {
    v.map_values(|w: String| w@)
}

/// The words of `s`.
pub fn split_whitespace(s: &str) -> (r: Vec<String>)
    ensures
        words_view(r@) == split_ws(s@),
{
    let v = chars_of(s);
    let n = v.len();
    let mut out: Vec<String> = Vec::new();
    let mut pos: usize = 0;
    assert(v@.subrange(0, n as int) =~= s@);
    loop
        invariant
            0 <= pos <= n,
            n == v@.len(),
            v@ == s@,
            split_ws(s@) == words_view(out@) + split_ws(v@.subrange(pos as int, n as int)),
        decreases n - pos,
    {
        let ghost rest = v@.subrange(pos as int, n as int);
        let mut a: usize = pos;
        while a < n && is_whitespace(v[a])
            invariant
                pos <= a <= n,
                n == v@.len(),
                rest == v@.subrange(pos as int, n as int),
                skip_ws(rest, (a - pos) as int) == skip_ws(rest, 0),
            decreases n - a,
        {
            a = a + 1;
        }
        assert(skip_ws(rest, (a - pos) as int) == (a - pos) as int);
        if a == n {
            assert(split_ws(rest) =~= Seq::<Seq<char>>::empty());
            assert(words_view(out@) + Seq::<Seq<char>>::empty() =~= words_view(out@));
            return out;
        }
        proof {
            lemma_skip_ws_stops(rest, 0);
        }
        let mut b: usize = a;
        while b < n && !is_whitespace(v[b])
            invariant
                pos <= a <= b <= n,
                n == v@.len(),
                rest == v@.subrange(pos as int, n as int),
                run_end(rest, (b - pos) as int) == run_end(rest, (a - pos) as int),
            decreases n - b,
        {
            b = b + 1;
        }
        assert(run_end(rest, (b - pos) as int) == (b - pos) as int);
        proof {
            lemma_run_end_bounds(rest, (a - pos) as int);
        }
        let w = string_from_chars(&v.as_slice()[a..b]);
        let ghost before = words_view(out@);
        out.push(w);
        proof {
            assert(rest.subrange((a - pos) as int, (b - pos) as int) =~= v@.subrange(a as int, b as int));
            assert(rest.skip((b - pos) as int) =~= v@.subrange(b as int, n as int));
            assert(words_view(out@) =~= before.push(w@));
            assert(split_ws(rest) == seq![rest.subrange((a - pos) as int, (b - pos) as int)] + split_ws(
                rest.skip((b - pos) as int),
            ));
            assert(before + split_ws(rest) =~= words_view(out@) + split_ws(
                v@.subrange(b as int, n as int),
            ));
        }
        pos = b;
    }
}

} // verus!
