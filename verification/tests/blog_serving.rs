use yscloud::static_resolve::{
    is_dir_request, map_open_err, resolve_request, FileFacts, FilesystemResolveFuture, OpenErrorKind,
    OpenEvent, PollStep, ResolveResult, ResolveState, ThinMetadata,
};
use yscloud::static_vfs::{ErrorKind, ModifiedTime};
use yscloud::zip_resolve::{answer_lookup, ZipFailure, ZipLookup, ZipResolve, ZipResolver};

fn u16le(out: &mut Vec<u8>, v: u16) {
    out.extend_from_slice(&v.to_le_bytes());
}

fn u32le(out: &mut Vec<u8>, v: u32) {
    out.extend_from_slice(&v.to_le_bytes());
}

struct Member<'a> {
    name: &'a str,
    method: u16,
    data: &'a [u8],
}

// 2020-05-17 13:45:30 in MS-DOS form.
const DOS_DATE: u16 = ((2020 - 1980) << 9) | (5 << 5) | 17;
const DOS_TIME: u16 = (13 << 11) | (45 << 5) | (30 / 2);

fn header_fields(out: &mut Vec<u8>, m: &Member) {
    u16le(out, 20);
    u16le(out, 0);
    u16le(out, m.method);
    u16le(out, DOS_TIME);
    u16le(out, DOS_DATE);
    u32le(out, 0);
    u32le(out, m.data.len() as u32);
    u32le(out, m.data.len() as u32);
    u16le(out, m.name.len() as u16);
    u16le(out, 0);
}

fn build_zip(members: &[Member]) -> Vec<u8> {
    let mut out = Vec::new();
    let mut offsets = Vec::new();
    for m in members {
        offsets.push(out.len() as u32);
        u32le(&mut out, 0x04034b50);
        header_fields(&mut out, m);
        out.extend_from_slice(m.name.as_bytes());
        out.extend_from_slice(m.data);
    }
    let cd_start = out.len() as u32;
    for (m, off) in members.iter().zip(offsets.iter()) {
        u32le(&mut out, 0x02014b50);
        u16le(&mut out, 0x031e);
        header_fields(&mut out, m);
        u16le(&mut out, 0);
        u16le(&mut out, 0);
        u16le(&mut out, 0);
        u32le(&mut out, 0);
        u32le(&mut out, *off);
        out.extend_from_slice(m.name.as_bytes());
    }
    let cd_size = out.len() as u32 - cd_start;
    u32le(&mut out, 0x06054b50);
    u16le(&mut out, 0);
    u16le(&mut out, 0);
    u16le(&mut out, members.len() as u16);
    u16le(&mut out, members.len() as u16);
    u32le(&mut out, cd_size);
    u32le(&mut out, cd_start);
    u16le(&mut out, 0);
    out
}

fn sample_archive() -> Vec<u8> {
    build_zip(&[
        Member { name: "hello.txt", method: 0, data: b"hi there" },
        Member { name: "packed.bin", method: 8, data: b"\x03\x00" },
    ])
}

fn resolver() -> ZipResolver {
    ZipResolver::load(sample_archive()).unwrap()
}

#[test]
fn zip_found_entry_gives_its_bytes() {
    let z = resolver();
    match z.resolve("GET", false, false, "/hello.txt") {
        ZipResolve::Found { offset, limit, modified } => {
            assert_eq!(offset, 30 + 9);
            assert_eq!(limit, 8);
            assert_eq!(modified, (2020, 5, 17, 13, 45, 30));
            assert_eq!(&z.data()[offset..offset + limit], b"hi there");
        }
        other => panic!("unexpected {:?}", other),
    }
    assert!(matches!(z.resolve("HEAD", false, false, "/hello.txt"), ZipResolve::Found { .. }));
}

#[test]
fn zip_request_filters() {
    let z = resolver();
    assert!(matches!(z.resolve("POST", false, false, "/hello.txt"), ZipResolve::MethodNotMatched));
    assert!(matches!(z.resolve("get", false, false, "/hello.txt"), ZipResolve::MethodNotMatched));
    assert!(matches!(z.resolve("GET", true, false, "/hello.txt"), ZipResolve::UriNotMatched));
    assert!(matches!(z.resolve("GET", false, true, "/hello.txt"), ZipResolve::UriNotMatched));
    assert!(matches!(z.resolve("GET", false, false, ""), ZipResolve::IsDirectory));
}

#[test]
fn zip_missing_entry_is_not_found() {
    let z = resolver();
    assert!(matches!(z.resolve("GET", false, false, "/missing"), ZipResolve::NotFound));
    assert!(matches!(z.resolve("GET", false, false, "/"), ZipResolve::NotFound));
}

#[test]
fn zip_unsupported_method_is_an_error() {
    let z = resolver();
    match z.resolve("GET", false, false, "/packed.bin") {
        ZipResolve::Error(m) => assert_eq!(m, "Unsupported archive: compressed file"),
        other => panic!("unexpected {:?}", other),
    }
}

#[test]
fn zip_load_rejects_non_archive() {
    match ZipResolver::load(b"certainly not a zip archive".to_vec()) {
        Err(ZipFailure::InvalidArchive(m)) => assert_eq!(m, "Could not find central directory end"),
        other => panic!("unexpected {:?}", other.err()),
    }
}

#[test]
fn zip_lookup_answers() {
    let t = (2021, 1, 2, 3, 4, 6);
    assert!(matches!(
        answer_lookup(ZipLookup::Entry(true, 100, 20, t)),
        ZipResolve::Found { offset: 100, limit: 20, modified } if modified == t
    ));
    match answer_lookup(ZipLookup::Entry(false, 100, 20, t)) {
        ZipResolve::Error(m) => assert_eq!(m, "Unsupported archive: compressed file"),
        other => panic!("unexpected {:?}", other),
    }
    match answer_lookup(ZipLookup::Failed(ZipFailure::InvalidArchive("bad".to_string()))) {
        ZipResolve::Error(m) => assert_eq!(m, "Invalid archive: bad"),
        other => panic!("unexpected {:?}", other),
    }
    match answer_lookup(ZipLookup::Failed(ZipFailure::UnsupportedArchive("odd".to_string()))) {
        ZipResolve::Error(m) => assert_eq!(m, "Unsupported archive: odd"),
        other => panic!("unexpected {:?}", other),
    }
    match answer_lookup(ZipLookup::Failed(ZipFailure::Io("broken pipe".to_string()))) {
        ZipResolve::Error(m) => assert_eq!(m, "broken pipe"),
        other => panic!("unexpected {:?}", other),
    }
    assert!(matches!(
        answer_lookup(ZipLookup::Failed(ZipFailure::FileNotFound)),
        ZipResolve::NotFound
    ));
    if (usize::MAX as u64) < u64::MAX {
        match answer_lookup(ZipLookup::Entry(true, u64::MAX, 1, t)) {
            ZipResolve::Error(m) => assert_eq!(m, "Unsupported archive"),
            other => panic!("unexpected {:?}", other),
        }
    }
}

fn facts(is_dir: bool) -> FileFacts {
    FileFacts {
        is_dir,
        length: 42,
        modified: Some(ModifiedTime { seconds: 1_600_000_000, nanoseconds: 5 }),
    }
}

#[test]
fn thin_metadata_accessors() {
    let mut m = ThinMetadata::new(7);
    assert_eq!(m.len(), 7);
    let e = m.modified().unwrap_err();
    assert_eq!(e.kind, ErrorKind::Other);
    assert_eq!(e.message, "unsupported");
    let t = ModifiedTime { seconds: 10, nanoseconds: 0 };
    m.set_modified(Some(t));
    assert_eq!(m.modified().unwrap(), t);
    assert_eq!(m.len(), 7);
    let f = ThinMetadata::from_facts(facts(false));
    assert_eq!(f.len(), 42);
}

#[test]
fn open_errors_are_mapped() {
    assert!(matches!(
        map_open_err::<u8>(OpenErrorKind::NotFound, "x".to_string()),
        Ok(ResolveResult::NotFound)
    ));
    assert!(matches!(
        map_open_err::<u8>(OpenErrorKind::PermissionDenied, "x".to_string()),
        Ok(ResolveResult::PermissionDenied)
    ));
    match map_open_err::<u8>(OpenErrorKind::Other, "disk on fire".to_string()) {
        Err(t) => assert_eq!(t, "disk on fire"),
        _ => panic!("expected an error"),
    }
}

#[test]
fn request_start() {
    assert!(is_dir_request("/a/"));
    assert!(!is_dir_request("/a"));
    assert!(!is_dir_request(""));
    assert_eq!(
        resolve_request("PUT", false, false, "/a/"),
        FilesystemResolveFuture { is_dir_request: false, state: ResolveState::MethodNotMatched }
    );
    assert_eq!(
        resolve_request("GET", false, true, "/a/"),
        FilesystemResolveFuture { is_dir_request: false, state: ResolveState::UriNotMatched }
    );
    assert_eq!(
        resolve_request("HEAD", false, false, "/a/"),
        FilesystemResolveFuture { is_dir_request: true, state: ResolveState::WaitOpen }
    );
}

#[test]
fn file_request_steps() {
    let mut f = resolve_request("GET", false, false, "/notes.txt");
    assert!(matches!(f.poll_step::<&str>(OpenEvent::Pending), PollStep::NotReady));
    match f.poll_step(OpenEvent::Opened("handle", facts(false))) {
        PollStep::Ready(Ok(ResolveResult::Found(h, m))) => {
            assert_eq!(h, "handle");
            assert_eq!(m.len(), 42);
            assert_eq!(m.modified().unwrap().nanoseconds, 5);
        }
        _ => panic!("expected the file"),
    }
    let mut g = resolve_request("GET", false, false, "/docs");
    assert!(matches!(
        g.poll_step(OpenEvent::Opened("handle", facts(true))),
        PollStep::Ready(Ok(ResolveResult::IsDirectory))
    ));
    let mut h = resolve_request("GET", false, false, "/gone");
    assert!(matches!(
        h.poll_step::<&str>(OpenEvent::Failed(OpenErrorKind::NotFound, "no".to_string())),
        PollStep::Ready(Ok(ResolveResult::NotFound))
    ));
}

#[test]
fn directory_request_steps() {
    let mut f = resolve_request("GET", false, false, "/docs/");
    assert!(matches!(f.poll_step(OpenEvent::Opened("dir", facts(true))), PollStep::OpenIndex));
    assert_eq!(f.state, ResolveState::WaitOpenIndex);
    match f.poll_step(OpenEvent::Opened("index", facts(false))) {
        PollStep::Ready(Ok(ResolveResult::Found(h, _))) => assert_eq!(h, "index"),
        _ => panic!("expected the index"),
    }
    let mut g = resolve_request("GET", false, false, "/docs/");
    assert!(matches!(
        g.poll_step(OpenEvent::Opened("file", facts(false))),
        PollStep::Ready(Ok(ResolveResult::NotFound))
    ));
    let mut h = resolve_request("GET", false, false, "/docs/");
    assert!(matches!(h.poll_step(OpenEvent::Opened("dir", facts(true))), PollStep::OpenIndex));
    assert!(matches!(
        h.poll_step(OpenEvent::Opened("dir2", facts(true))),
        PollStep::Ready(Ok(ResolveResult::NotFound))
    ));
    let mut m = resolve_request("DELETE", false, false, "/docs/");
    assert!(matches!(
        m.poll_step::<&str>(OpenEvent::Pending),
        PollStep::Ready(Ok(ResolveResult::MethodNotMatched))
    ));
}

#[test]
fn zip64_offsets_are_refused() {
    let mut bytes = build_zip(&[
        Member { name: "hello.txt", method: 0, data: b"hi there" },
        Member { name: "ones.bin", method: 0, data: &[0xff; 8] },
    ]);
    let at = bytes.windows(4).position(|w| w == [0x50, 0x4b, 0x01, 0x02]).unwrap();
    for k in 42..46 {
        bytes[at + k] = 0xff;
    }
    match ZipResolver::load(bytes) {
        Err(ZipFailure::UnsupportedArchive(m)) => assert_eq!(m, "zip64 entry offsets"),
        other => panic!("unexpected {:?}", other.err()),
    }
}

#[test]
fn zip64_mark_without_large_offset_is_read() {
    let mut bytes = sample_archive();
    let at = bytes.windows(4).position(|w| w == [0x50, 0x4b, 0x01, 0x02]).unwrap();
    for k in 42..46 {
        bytes[at + k] = 0xff;
    }
    let z = ZipResolver::load(bytes).unwrap();
    assert!(matches!(z.resolve("GET", false, false, "/hello.txt"), ZipResolve::Error(_)));
    let ones = build_zip(&[Member { name: "ones.bin", method: 0, data: &[0xff; 8] }]);
    assert!(ZipResolver::load(ones).is_ok());
}
