//! Decisions of the appliance's init process: reading the kernel command line,
//! mapping partition names to device paths, and planning the switch to the
//! real root file system.

use vstd::prelude::*;

use crate::logging::{level_for_verbosity, spec_level_for_verbosity, LevelFilter};
use crate::strings::{push_all, push_str, string_from_chars};
use crate::text::{
    chars_of, find, find_in_range, lemma_find_from_bounds, trim, trim_range,
};

verus! {

/// Whether the strings `a` and `b` hold the same characters.
pub fn str_equals(a: &str, b: &str) -> (r: bool)
    ensures
        r == (a@ == b@),
{
    let va = chars_of(a);
    let vb = chars_of(b);
    if va.len() != vb.len() {
        return false;
    }
    let mut i: usize = 0;
    while i < va.len()
        invariant
            va@ == a@,
            vb@ == b@,
            va@.len() == vb@.len(),
            0 <= i <= va@.len(),
            forall|j: int| 0 <= j < i ==> va@[j] == vb@[j],
        decreases va@.len() - i,
    {
        if va[i] != vb[i] {
            assert(va@[i as int] != vb@[i as int]);
            return false;
        }
        i = i + 1;
    }
    assert(va@ =~= vb@);
    true
}

/// Whether `v` begins with the characters of `prefix`.
fn has_prefix(v: &Vec<char>, prefix: &Vec<char>) -> (r: bool)
    ensures
        r == (prefix@.len() <= v@.len() && v@.take(prefix@.len() as int) == prefix@),
{
    if prefix.len() > v.len() {
        return false;
    }
    let mut i: usize = 0;
    while i < prefix.len()
        invariant
            prefix@.len() <= v@.len(),
            0 <= i <= prefix@.len(),
            forall|j: int| 0 <= j < i ==> v@[j] == prefix@[j],
        decreases prefix@.len() - i,
    {
        if v[i] != prefix[i] {
            assert(v@.take(prefix@.len() as int)[i as int] != prefix@[i as int]);
            return false;
        }
        i = i + 1;
    }
    assert(v@.take(prefix@.len() as int) =~= prefix@);
    true
}

/// `base` with `rest` pushed onto it as a path: an absolute `rest` replaces it,
/// a relative one follows a separator.
pub open spec fn path_push(base: Seq<char>, rest: Seq<char>) -> Seq<char> {
    if rest.len() > 0 && rest[0] == '/' {
        rest
    } else {
        base.push('/').add(rest)
    }
}

/// Whether `s` begins with `p`.
pub open spec fn starts_with(s: Seq<char>, p: Seq<char>) -> bool {
    p.len() <= s.len() && s.take(p.len() as int) == p
}

/// Whether a directory walk skips `dir`: the walk stays out of everything
/// whose displayed path begins with `/proc`.
pub fn is_proc_path(dir: &str) -> (r: bool)
    ensures
        r == starts_with(dir@, "/proc"@),
{
    let v = chars_of(dir);
    let p = chars_of("/proc");
    has_prefix(&v, &p)
}

/// The device path named by a partition definition: `LABEL=x` and `UUID=x` name
/// entries of `/dev/disk/by-label` and `/dev/disk/by-uuid`; anything else is a path.
pub open spec fn spec_partition_def_to_path(value: Seq<char>) -> Seq<char> {
    if starts_with(value, "LABEL="@) {
        path_push("/dev/disk/by-label"@, value.skip(6))
    } else if starts_with(value, "UUID="@) {
        path_push("/dev/disk/by-uuid"@, value.skip(5))
    } else {
        value
    }
}

/// The path `base` with the component `v[from..]` pushed onto it, as
/// `PathBuf::push` does: an absolute component replaces the base.
fn push_path(base: &str, v: &Vec<char>, from: usize) -> (r: String)
    requires
        from <= v@.len(),
    ensures
        r@ == path_push(base@, v@.skip(from as int)),
{
    let rest = &v.as_slice()[from..v.len()];
    assert(rest@ =~= v@.skip(from as int));
    if rest.len() > 0 && rest[0] == '/' {
        return string_from_chars(rest);
    }
    let mut out = chars_of(base);
    out.push('/');
    push_all(&mut out, rest);
    string_from_chars(out.as_slice())
}

/// The device path named by the partition definition `value`.
pub fn partition_def_to_path(value: &str) -> (r: String)
    ensures
        r@ == spec_partition_def_to_path(value@),
{
    let v = chars_of(value);
    let label = chars_of("LABEL=");
    let uuid = chars_of("UUID=");
    proof {
        reveal_strlit("LABEL=");
        reveal_strlit("UUID=");
    }
    if has_prefix(&v, &label) {
        return push_path("/dev/disk/by-label", &v, 6);
    }
    if has_prefix(&v, &uuid) {
        return push_path("/dev/disk/by-uuid", &v, 5);
    }
    string_from_chars(v.as_slice())
}

/// A `key` or `key=value` entry of the kernel command line.
pub open spec fn parse_pair(p: Seq<char>) -> (Seq<char>, Option<Seq<char>>) {
    let t = trim(p);
    match find(t, seq!['=']) {
        None => (t, None),
        Some(i) => (t.take(i), Some(t.skip(i + 1))),
    }
}

/// The entries of the command line `s`: its space-separated parts, empty parts skipped.
pub open spec fn parse_cmdline_spec(s: Seq<char>) -> Seq<(Seq<char>, Option<Seq<char>>)>
    decreases s.len(),
{
    match find(s, seq![' ']) {
        None => if s.len() == 0 {
            Seq::empty()
        } else {
            seq![parse_pair(s)]
        },
        Some(i) => {
            proof {
                lemma_find_from_bounds(s, seq![' '], 0);
            }
            let head = s.take(i);
            let here = if head.len() == 0 {
                Seq::empty()
            } else {
                seq![parse_pair(head)]
            };
            here.add(parse_cmdline_spec(s.skip(i + 1)))
        },
    }
}

/// The characters of an entry.
pub open spec fn entry_view(e: (String, Option<String>)) -> (Seq<char>, Option<Seq<char>>) {
    (
        e.0@,
        match e.1 {
            Some(v) => Some(v@),
            None => None,
        },
    )
}

/// The characters of a list of entries.
pub open spec fn entries_view(es: Seq<(String, Option<String>)>) -> Seq<(Seq<char>, Option<Seq<char>>)> {
    es.map_values(|e: (String, Option<String>)| entry_view(e))
}

/// The `key[=value]` pair held by `v[lo..hi]`.
fn parse_pair_range(v: &Vec<char>, lo: usize, hi: usize) -> (r: (String, Option<String>))
    requires
        lo <= hi <= v@.len(),
    ensures
        entry_view(r) == parse_pair(v@.subrange(lo as int, hi as int)),
{
    let (a, b) = trim_range(v, lo, hi);
    let ghost t = v@.subrange(a as int, b as int);
    let eq = ['='];
    assert(eq@ =~= seq!['=']);
    match find_in_range(v, a, b, &eq) {
        None => (string_from_chars(&v.as_slice()[a..b]), None),
        Some(i) => {
            proof {
                lemma_find_from_bounds(t, seq!['='], 0);
            }
            let key = string_from_chars(&v.as_slice()[a..a + i]);
            let value = string_from_chars(&v.as_slice()[a + i + 1..b]);
            assert(t.take(i as int) =~= v@.subrange(a as int, a + i));
            assert(t.skip(i + 1) =~= v@.subrange(a + i + 1, b as int));
            (key, Some(value))
        },
    }
}

/// The entries of the kernel command line `data`.
pub fn parse_cmdline(data: &str) -> (r: Vec<(String, Option<String>)>)
    ensures
        entries_view(r@) == parse_cmdline_spec(data@),
{
    let v = chars_of(data);
    let sp = [' '];
    assert(sp@ =~= seq![' ']);
    let mut out: Vec<(String, Option<String>)> = Vec::new();
    let mut pos: usize = 0;
    let n: usize = v.len();
    assert(v@.subrange(0, n as int) =~= data@);
    loop
        invariant
            0 <= pos <= n,
            n == v@.len(),
            sp@ == seq![' '],
            parse_cmdline_spec(data@) == entries_view(out@).add(
                parse_cmdline_spec(v@.subrange(pos as int, n as int)),
            ),
        decreases n - pos,
    {
        let ghost rest = v@.subrange(pos as int, n as int);
        let found = find_in_range(&v, pos, n, &sp);
        proof {
            lemma_find_from_bounds(rest, seq![' '], 0);
        }
        let end: usize = match found {
            Some(k) => pos + k,
            None => n,
        };
        let ghost before = entries_view(out@);
        if end > pos {
            let e = parse_pair_range(&v, pos, end);
            out.push(e);
        }
        proof {
            let head = v@.subrange(pos as int, end as int);
            assert(entries_view(out@) =~= before.add(
                if head.len() == 0 {
                    Seq::empty()
                } else {
                    seq![parse_pair(head)]
                },
            ));
            match found {
                Some(k) => {
                    assert(rest.take(k as int) =~= head);
                    assert(rest.skip(k + 1) =~= v@.subrange(end + 1, n as int));
                },
                None => {
                    assert(rest =~= head);
                },
            }
        }
        match found {
            None => {
                proof {
                    assert(parse_cmdline_spec(v@.subrange(n as int, n as int)) =~= Seq::empty());
                    assert(entries_view(out@).add(Seq::empty()) =~= entries_view(out@));
                }
                return out;
            },
            Some(_) => {
                pos = end + 1;
            },
        }
    }
}

/// Whether some entry of `ps` has the key `key`.
pub open spec fn cmdline_presence(ps: Seq<(Seq<char>, Option<Seq<char>>)>, key: Seq<char>) -> bool {
    exists|i: int| 0 <= i < ps.len() && ps[i].0 == key
}

/// The value of the first entry of `ps[k..]` with the key `key` (`None` where it has
/// none, or where no entry has the key).
pub open spec fn cmdline_value(ps: Seq<(Seq<char>, Option<Seq<char>>)>, key: Seq<char>, k: int) -> Option<
    Seq<char>,
>
    decreases ps.len() - k,
{
    if k < 0 || k >= ps.len() {
        None
    } else if ps[k].0 == key {
        ps[k].1
    } else {
        cmdline_value(ps, key, k + 1)
    }
}

/// Whether the command line `props` holds the key `key`.
pub fn get_cmdline_presence(props: &Vec<(String, Option<String>)>, key: &str) -> (r: bool)
    ensures
        r == cmdline_presence(entries_view(props@), key@),
{
    let mut i: usize = 0;
    while i < props.len()
        invariant
            0 <= i <= props@.len(),
            forall|j: int| 0 <= j < i ==> entries_view(props@)[j].0 != key@,
        decreases props@.len() - i,
    {
        if str_equals(props[i].0.as_str(), key) {
            assert(entries_view(props@)[i as int].0 == key@);
            return true;
        }
        i = i + 1;
    }
    false
}

/// The value of the first entry of `props` with the key `key`.
pub fn get_cmdline_value(props: &Vec<(String, Option<String>)>, key: &str) -> (r: Option<String>)
    ensures
        match r {
            Some(v) => cmdline_value(entries_view(props@), key@, 0) == Some(v@),
            None => cmdline_value(entries_view(props@), key@, 0) is None,
        },
{
    let mut i: usize = 0;
    while i < props.len()
        invariant
            0 <= i <= props@.len(),
            cmdline_value(entries_view(props@), key@, 0) == cmdline_value(
                entries_view(props@),
                key@,
                i as int,
            ),
        decreases props@.len() - i,
    {
        if str_equals(props[i].0.as_str(), key) {
            return match &props[i].1 {
                Some(v) => Some(v.clone()),
                None => None,
            };
        }
        i = i + 1;
    }
    None
}


/// One line of `/init.config`: `LINK <target> <source>` asks for a symbolic link,
/// `MKDIR <dir>` for a directory; other lines ask for nothing.
#[derive(Debug)]
pub enum InitDirective {
    Link { target: String, source: String },
    Mkdir { dir: String },
    Nothing,
}

/// What a line of `/init.config` holds, as characters.
pub enum InitDirectiveView {
    Link { target: Seq<char>, source: Seq<char> },
    Mkdir { dir: Seq<char> },
    Nothing,
}

/// The characters of a directive.
pub open spec fn directive_view(d: InitDirective) -> InitDirectiveView {
    match d {
        InitDirective::Link { target, source } => InitDirectiveView::Link {
            target: target@,
            source: source@,
        },
        InitDirective::Mkdir { dir } => InitDirectiveView::Mkdir { dir: dir@ },
        InitDirective::Nothing => InitDirectiveView::Nothing,
    }
}

/// Whether a `LINK` line names its two arguments (split at the first space
/// after the keyword).
pub open spec fn init_line_well_formed(line: Seq<char>) -> bool {
    starts_with(line, "LINK "@) ==> find(line.skip(5), seq![' ']) is Some
}

/// The directive of the line `line`.
pub open spec fn spec_init_directive(line: Seq<char>) -> InitDirectiveView {
    if starts_with(line, "LINK "@) {
        let rest = line.skip(5);
        let i = find(rest, seq![' ']).unwrap();
        InitDirectiveView::Link { target: rest.take(i), source: rest.skip(i + 1) }
    } else if starts_with(line, "MKDIR "@) {
        InitDirectiveView::Mkdir { dir: line.skip(6) }
    } else {
        InitDirectiveView::Nothing
    }
}

/// The directive of the line `line` of `/init.config`.
pub fn parse_init_line(line: &str) -> (r: InitDirective)
    requires
        init_line_well_formed(line@),
    ensures
        directive_view(r) == spec_init_directive(line@),
{
    proof {
        reveal_strlit("LINK ");
        reveal_strlit("MKDIR ");
    }
    let v = chars_of(line);
    let link = chars_of("LINK ");
    let mkdir = chars_of("MKDIR ");
    let n = v.len();
    if has_prefix(&v, &link) {
        let sp = [' '];
        assert(sp@ =~= seq![' ']);
        assert(v@.subrange(5, n as int) =~= line@.skip(5));
        match find_in_range(&v, 5, n, &sp) {
            Some(i) => {
                proof {
                    lemma_find_from_bounds(line@.skip(5), seq![' '], 0);
                }
                let target = string_from_chars(&v.as_slice()[5..5 + i]);
                let source = string_from_chars(&v.as_slice()[5 + i + 1..n]);
                assert(line@.skip(5).take(i as int) =~= v@.subrange(5, 5 + i));
                assert(line@.skip(5).skip(i + 1) =~= v@.subrange(5 + i + 1, n as int));
                return InitDirective::Link { target, source };
            },
            None => {
                return InitDirective::Nothing;
            },
        }
    }
    if has_prefix(&v, &mkdir) {
        let dir = string_from_chars(&v.as_slice()[6..n]);
        assert(v@.subrange(6, n as int) =~= line@.skip(6));
        return InitDirective::Mkdir { dir };
    }
    InitDirective::Nothing
}

/// How init switches to the real root: the log level, where `/dev/root` points,
/// which device holds the store, where the writable layer lives, the options of
/// the overlay mount, and the init program to run at the end.
#[derive(Debug)]
pub struct BootPlan {
    pub log_level: LevelFilter,
    pub root_link: Option<String>,
    pub persist: bool,
    pub root_device: String,
    pub rw_store_store: String,
    pub rw_store_work: String,
    pub overlay_options: String,
    pub init_path: Option<String>,
}

/// The debug level asked for on the command line: 3 for `boot.debugtrace`,
/// else 2 for `boot.trace`, else 0.
pub open spec fn spec_debug_level(ps: Seq<(Seq<char>, Option<Seq<char>>)>) -> u64 {
    if cmdline_presence(ps, "boot.debugtrace"@) {
        3
    } else if cmdline_presence(ps, "boot.trace"@) {
        2
    } else {
        0
    }
}

/// Law: a command line that holds the key `boot.debugtrace` logs at the
/// debug level (verbosity 3), whatever other keys it holds; one that holds
/// `boot.trace` and not `boot.debugtrace` at the info level (verbosity 2);
/// one that holds neither at the error level (verbosity 0).
pub proof fn lemma_trace_keys_level(ps: Seq<(Seq<char>, Option<Seq<char>>)>)
    ensures
        (exists|i: int| 0 <= i < ps.len() && ps[i].0 == "boot.debugtrace"@) ==> spec_level_for_verbosity(
            spec_debug_level(ps),
        ) == LevelFilter::Debug,
        !(exists|i: int| 0 <= i < ps.len() && ps[i].0 == "boot.debugtrace"@) && (exists|i: int|
            0 <= i < ps.len() && ps[i].0 == "boot.trace"@) ==> spec_level_for_verbosity(
            spec_debug_level(ps),
        ) == LevelFilter::Info,
        !(exists|i: int| 0 <= i < ps.len() && ps[i].0 == "boot.debugtrace"@) && !(exists|i: int|
            0 <= i < ps.len() && ps[i].0 == "boot.trace"@) ==> spec_level_for_verbosity(
            spec_debug_level(ps),
        ) == LevelFilter::Error,
{
}

/// Whether the command line gives the persistent personality.
pub open spec fn spec_persist(ps: Seq<(Seq<char>, Option<Seq<char>>)>) -> bool {
    cmdline_value(ps, "yscloud.personality"@, 0) == Some("persist"@)
}

/// The device whose squashfs holds the store.
pub open spec fn spec_root_device(ps: Seq<(Seq<char>, Option<Seq<char>>)>) -> Seq<char> {
    if spec_persist(ps) {
        "/dev/loop0"@
    } else {
        match cmdline_value(ps, "root"@, 0) {
            Some(v) => v,
            None => "/dev/root"@,
        }
    }
}

/// The directory that holds the writable layer of the store.
pub open spec fn spec_rw_store_base(persist: bool) -> Seq<char> {
    if persist {
        "/_next-root/persist/.rw-store"@
    } else {
        "/_next-root/nix/.rw-store"@
    }
}

/// The options of the overlay mount over the store.
pub open spec fn spec_overlay_options(store: Seq<char>, work: Seq<char>) -> Seq<char> {
    "lowerdir=/_next-root/nix/.ro-store,upperdir="@ + store + ",workdir="@ + work
}

/// The string `a` followed by `b`.
fn concat(a: &str, b: &str) -> (r: String)
    ensures
        r@ == a@ + b@,
{
    let mut v: Vec<char> = Vec::new();
    push_str(&mut v, a);
    push_str(&mut v, b);
    assert(v@ =~= a@ + b@);
    string_from_chars(v.as_slice())
}

/// The plan that init follows for the kernel command line `props`.
pub fn plan_boot(props: &Vec<(String, Option<String>)>) -> (r: BootPlan)
    ensures
        ({
            let ps = entries_view(props@);
            &&& r.log_level == spec_level_for_verbosity(spec_debug_level(ps))
            &&& (exists|i: int| 0 <= i < ps.len() && ps[i].0 == "boot.debugtrace"@) ==> r.log_level
                == LevelFilter::Debug
            &&& match r.root_link {
                Some(l) => cmdline_value(ps, "root"@, 0) matches Some(v)
                    && l@ == spec_partition_def_to_path(v),
                None => cmdline_value(ps, "root"@, 0) is None,
            }
            &&& r.persist == spec_persist(ps)
            &&& r.root_device@ == spec_root_device(ps)
            &&& r.rw_store_store@ == spec_rw_store_base(r.persist) + "/store"@
            &&& r.rw_store_work@ == spec_rw_store_base(r.persist) + "/work"@
            &&& r.overlay_options@ == spec_overlay_options(r.rw_store_store@, r.rw_store_work@)
            &&& match r.init_path {
                Some(p) => cmdline_value(ps, "nixos-system"@, 0) matches Some(v) && p@ == v
                    + "/init"@,
                None => cmdline_value(ps, "nixos-system"@, 0) is None,
            }
        }),
{
    let mut debug_level: u64 = 0;
    if get_cmdline_presence(props, "boot.trace") {
        debug_level = 2;
    }
    if get_cmdline_presence(props, "boot.debugtrace") {
        debug_level = 3;
    }
    let log_level = level_for_verbosity(debug_level);

    let root = get_cmdline_value(props, "root");
    let root_link = match &root {
        Some(v) => Some(partition_def_to_path(v.as_str())),
        None => None,
    };

    let persist = match get_cmdline_value(props, "yscloud.personality") {
        Some(p) => str_equals(p.as_str(), "persist"),
        None => false,
    };

    let root_device = if persist {
        "/dev/loop0".to_owned()
    } else {
        match root {
            Some(v) => v,
            None => "/dev/root".to_owned(),
        }
    };

    let base: &str = if persist {
        "/_next-root/persist/.rw-store"
    } else {
        "/_next-root/nix/.rw-store"
    };
    let rw_store_store = concat(base, "/store");
    let rw_store_work = concat(base, "/work");

    let mut opts: Vec<char> = Vec::new();
    push_str(&mut opts, "lowerdir=/_next-root/nix/.ro-store,upperdir=");
    push_str(&mut opts, rw_store_store.as_str());
    push_str(&mut opts, ",workdir=");
    push_str(&mut opts, rw_store_work.as_str());
    let overlay_options = string_from_chars(opts.as_slice());

    let init_path = match get_cmdline_value(props, "nixos-system") {
        Some(v) => Some(concat(v.as_str(), "/init")),
        None => None,
    };

    BootPlan {
        log_level,
        root_link,
        persist,
        root_device,
        rw_store_store,
        rw_store_work,
        overlay_options,
        init_path,
    }
}

} // verus!
