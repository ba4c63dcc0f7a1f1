use std::collections::BTreeMap;

use yscloud::http_range::{
    content_range, get_ranges, http_span_check_no_overlaps, mime_for_path, multipart_content_type,
    multipart_part_header, multipart_trailer, plan_response, range_header_overflows, HttpRangeSpan,
    RangeError,
};
use yscloud::names::{compare_names, DirContents, NameMap, NameOrder};
use yscloud::piece_request::{
    align_floor, compute_offset_length, piece_position, piece_slice_bounds, PieceRequestError,
    PieceRequestMessage, TorrentId, PACKET_SIZE, TOKEN,
};
use yscloud::url_path::path_segments;
use yscloud::vfs::{
    build_inodes, have_final, parse_file_type, should_overwrite, walk_step, FetchContentRootResponse,
    FileRecord, FileType, InodeType, VfsEntry, VfsEntryData, VfsEntryDirectory, VfsEntryRegular,
    WalkStep,
};

fn span(start: i64, length: i64) -> (i64, i64) {
    (start, length)
}

fn spans_of(v: &[HttpRangeSpan]) -> Vec<(i64, i64)> {
    v.iter().map(|s| span(s.start, s.length)).collect()
}

#[test]
fn ranges_single_and_open() {
    assert_eq!(spans_of(&get_ranges("bytes=0-499", 1000).unwrap()), vec![(0, 500)]);
    assert_eq!(spans_of(&get_ranges("bytes=500-", 1000).unwrap()), vec![(500, 500)]);
    assert_eq!(
        spans_of(&get_ranges("bytes=0-9, 20-29", 1000).unwrap()),
        vec![(0, 10), (20, 10)]
    );
}

#[test]
fn ranges_errors() {
    assert_eq!(get_ranges("items=0-1", 1000).unwrap_err(), RangeError::Client);
    assert_eq!(get_ranges("bytes=1000-", 1000).unwrap_err(), RangeError::OutOfRange);
    assert_eq!(get_ranges("bytes=5-5", 1000).unwrap_err(), RangeError::OutOfRange);
    assert_eq!(get_ranges("bytes=-5", 1000).unwrap_err(), RangeError::BadNumber);
    assert_eq!(get_ranges("bytes=x-5", 1000).unwrap_err(), RangeError::BadNumber);
    assert_eq!(get_ranges("bytes=5", 1000).unwrap_err(), RangeError::Client);
    assert_eq!(get_ranges("bytes=1-y", 1000).unwrap_err(), RangeError::BadNumber);
    assert!(!range_header_overflows("bytes=0-1", 1000));
    assert!(range_header_overflows("bytes=0-9223372036854775807", 1000));
}

#[test]
fn span_limit() {
    let few = vec![HttpRangeSpan { start: 0, length: 1 }; 30];
    assert!(http_span_check_no_overlaps(&few).is_ok());
    let many = vec![HttpRangeSpan { start: 0, length: 1 }; 31];
    assert_eq!(http_span_check_no_overlaps(&many), Err(RangeError::Client));
}

#[test]
fn content_range_values() {
    let s = HttpRangeSpan { start: 10, length: 5 };
    assert_eq!(s.full_closed_end(), 14);
    assert_eq!(content_range(&s, 100), "bytes 10-14/100");
}

#[test]
fn response_plans() {
    let whole = plan_response(None, 42).unwrap();
    assert_eq!(whole.status, 200);
    assert_eq!(spans_of(&whole.spans), vec![(0, 42)]);
    assert_eq!(whole.content_length, Some(42));
    assert!(!whole.multipart);

    let one = plan_response(Some("bytes=2-5"), 42).unwrap();
    assert_eq!(one.status, 206);
    assert_eq!(one.content_range, Some("bytes 2-5/42".to_string()));
    assert_eq!(one.content_length, Some(4));
    assert!(!one.multipart);

    let two = plan_response(Some("bytes=0-1, 4-"), 42).unwrap();
    assert_eq!(two.status, 206);
    assert!(two.multipart);
    assert_eq!(two.content_range, None);
    assert_eq!(spans_of(&two.spans), vec![(0, 2), (4, 38)]);

    assert_eq!(plan_response(Some("bytes=50-"), 42).unwrap_err(), RangeError::OutOfRange);
}

#[test]
fn multipart_texts() {
    assert_eq!(multipart_content_type("XyZ"), "multipart/byteranges; boundary=XyZ");
    let s = HttpRangeSpan { start: 0, length: 2 };
    assert_eq!(
        multipart_part_header("XyZ", true, &s, 10, "image/png"),
        "--XyZ\r\nContent-Range: bytes 0-1/10\r\nContent-Type: image/png\r\n\r\n"
    );
    assert_eq!(
        multipart_part_header("XyZ", false, &s, 10, "image/png"),
        "\r\n--XyZ\r\nContent-Range: bytes 0-1/10\r\nContent-Type: image/png\r\n\r\n"
    );
    assert_eq!(multipart_trailer("XyZ"), "\r\n--XyZ--\r\n");
}

#[test]
fn mime_types() {
    assert_eq!(mime_for_path("a/b.jpg"), "image/jpeg");
    assert_eq!(mime_for_path("x.png"), "image/png");
    assert_eq!(mime_for_path("x.gif"), "image/gif");
    assert_eq!(mime_for_path("x.mp4"), "video/mp4");
    assert_eq!(mime_for_path("x.cue"), "text/plain; charset=utf-8");
    assert_eq!(mime_for_path("x.jpeg"), "application/octet-stream");
    assert_eq!(mime_for_path(""), "application/octet-stream");
}

#[test]
fn request_paths() {
    assert_eq!(
        path_segments("/a/b%20c//d/").unwrap(),
        vec!["a".to_string(), "b c".to_string(), "d".to_string()]
    );
    assert_eq!(path_segments("/").unwrap(), Vec::<String>::new());
    assert_eq!(path_segments("%41").unwrap(), vec!["A".to_string()]);
    // A segment that decodes to bytes that are not UTF-8.
    assert!(path_segments("/a/%ff").is_none());
    // A percent sign not followed by two hex digits stays as it is.
    assert_eq!(path_segments("/100%").unwrap(), vec!["100%".to_string()]);
}

#[test]
fn piece_request_roundtrip() {
    let msg = PieceRequestMessage {
        content_key: TorrentId([7; 20]),
        piece_sha: TorrentId([9; 20]),
        content_total_length: 0x0102_0304_0506_0708,
        piece_length_shift: 18,
        piece_index: 3,
        piece_fetch_offset: 16384,
        piece_fetch_length: 4096,
    };
    let buf = msg.to_buf_with_header();
    assert_eq!(buf.len(), 8 + PACKET_SIZE);
    assert_eq!(&buf[0..4], &TOKEN.to_be_bytes());
    assert_eq!(&buf[4..8], &[0, 0, 0, 64]);
    assert_eq!(&buf[8..28], &[7; 20]);
    assert_eq!(&buf[48..56], &0x0102_0304_0506_0708u64.to_be_bytes());
    let back = PieceRequestMessage::from_buf(&buf[8..]).unwrap();
    assert_eq!(back, msg);
}

#[test]
fn piece_request_errors() {
    assert_eq!(
        PieceRequestMessage::from_buf(&[0u8; 10]),
        Err(PieceRequestError::BadSize { got: 10 })
    );
    let mut buf = vec![0u8; 64];
    buf[48..52].copy_from_slice(&256u32.to_be_bytes());
    assert_eq!(PieceRequestMessage::from_buf(&buf), Err(PieceRequestError::ShiftOutOfRange));
    assert!(TorrentId::from_slice(&[1u8; 19]).is_none());
    assert_eq!(TorrentId::from_slice(&[1u8; 20]), Some(TorrentId([1u8; 20])));
    assert_eq!(TorrentId::zero(), TorrentId([0u8; 20]));
}

#[test]
fn piece_arithmetic() {
    assert_eq!(compute_offset_length(2, 100, 1000), (200, 100));
    assert_eq!(compute_offset_length(9, 100, 950), (900, 50));
    assert_eq!(align_floor(0x1234, 8), 0x1200);
    assert_eq!(align_floor(7, 0), 7);
    assert_eq!(piece_position(100, 924, 10), Some((1, 0)));
    assert_eq!(piece_position(0, 1500, 10), Some((1, 476)));
    assert_eq!(piece_position(-5, 2, 10), None);
    assert_eq!(piece_slice_bounds(100, 10, 50), (10, 50));
    assert_eq!(piece_slice_bounds(100, 10, 500), (10, 90));
}

#[test]
fn name_order_and_table() {
    assert_eq!(compare_names("a", "b"), NameOrder::Less);
    assert_eq!(compare_names("ab", "a"), NameOrder::Greater);
    assert_eq!(compare_names("x", "x"), NameOrder::Equal);

    let mut t: NameMap<i64> = NameMap::new();
    t.insert("b".to_string(), 2);
    t.insert("a".to_string(), 1);
    t.insert("b".to_string(), 3);
    assert_eq!(t.len(), 2);
    assert_eq!(t.get("b"), Some(&3));
    assert_eq!(t.get("c"), None);
    let names: Vec<&str> = t.entries().iter().map(|e| e.0.as_str()).collect();
    assert_eq!(names, vec!["a", "b"]);
    assert_eq!(t.remove("a"), Some(1));
    assert_eq!(t.remove("a"), None);
    assert_eq!(t.len(), 1);
}

fn record(inode: i64, parent: i64, name: &str, file_type: FileType) -> FileRecord {
    FileRecord {
        inode,
        parent_inode: parent,
        file_name: name.to_string(),
        file_type,
        global_offset: inode * 10,
        file_length: 5,
    }
}

#[test]
fn inodes_from_records() {
    let records = vec![
        record(2, 1, "docs", FileType::Directory),
        record(3, 2, "a.txt", FileType::Regular),
        record(4, 1, "b.txt", FileType::Regular),
    ];
    let resp = build_inodes(&records);
    let inodes: &BTreeMap<i64, VfsEntry> = &resp.inodes;
    assert_eq!(inodes.len(), 4);
    match &inodes[&1].data {
        VfsEntryData::Directory(d) => {
            assert!(d.is_complete);
            assert_eq!(d.contents.get("docs"), Some(&2));
            assert_eq!(d.contents.get("b.txt"), Some(&4));
            assert_eq!(d.contents.len(), 2);
        }
        other => panic!("unexpected {:?}", other),
    }
    match &inodes[&3].data {
        VfsEntryData::Regular(r) => {
            assert_eq!(r.global_offset, 30);
            assert_eq!(r.file_length, 5);
        }
        other => panic!("unexpected {:?}", other),
    }
    match &inodes[&2].data {
        VfsEntryData::Directory(d) => assert_eq!(d.contents.get("a.txt"), Some(&3)),
        other => panic!("unexpected {:?}", other),
    }
}

fn dir(inode: i64, names: &[(&str, i64)], complete: bool) -> VfsEntry {
    let mut contents: DirContents = NameMap::new();
    for (n, i) in names {
        contents.insert(n.to_string(), *i);
    }
    VfsEntry {
        inode,
        data: VfsEntryData::Directory(VfsEntryDirectory { contents, is_complete: complete }),
    }
}

#[test]
fn cache_decisions() {
    let complete = dir(1, &[("a", 2)], true);
    let partial = dir(1, &[], false);
    let file = VfsEntry {
        inode: 2,
        data: VfsEntryData::Regular(VfsEntryRegular { global_offset: 0, file_length: 1 }),
    };
    assert!(!should_overwrite(Some(&complete), &partial));
    assert!(should_overwrite(Some(&partial), &complete));
    assert!(should_overwrite(None, &partial));
    assert!(should_overwrite(Some(&file), &partial));

    assert_eq!(walk_step(Some(&complete), Some("a")), WalkStep::Descend(2));
    assert_eq!(walk_step(Some(&complete), Some("b")), WalkStep::Missing);
    assert_eq!(walk_step(Some(&complete), None), WalkStep::Stop);
    assert_eq!(walk_step(Some(&partial), Some("a")), WalkStep::Stop);
    assert_eq!(walk_step(None, Some("a")), WalkStep::Stop);

    assert!(have_final(Some(&complete)));
    assert!(!have_final(Some(&partial)));
    assert!(have_final(Some(&file)));
    assert!(!have_final(None));
}

#[test]
fn stored_names() {
    assert_eq!(parse_file_type("directory"), Some(FileType::Directory));
    assert_eq!(parse_file_type("regular"), Some(FileType::Regular));
    assert_eq!(parse_file_type("root"), None);
    assert_eq!(InodeType::Regular.as_db_str(), "regular");
    assert_eq!(InodeType::Directory.as_db_str(), "directory");
    assert_eq!(InodeType::Root.as_db_str(), "root");
    let root = FetchContentRootResponse::from_row(18, 1, 4096).unwrap();
    assert_eq!(root.piece_length_shift, 18);
    assert_eq!(root.root_inode, 1);
    assert_eq!(root.total_length, 4096);
    assert!(FetchContentRootResponse::from_row(256, 1, 4096).is_none());
    assert!(FetchContentRootResponse::from_row(-1, 1, 4096).is_none());
}

use yscloud::arc_cache::Cache;

fn file_entry(inode: i64, len: i64) -> VfsEntry {
    VfsEntry { inode, data: VfsEntryData::Regular(VfsEntryRegular { global_offset: 0, file_length: len }) }
}

fn cached_len(c: &Cache, k: i64) -> Option<i64> {
    match c.get_norefresh(&k).map(|e| &e.data) {
        Some(VfsEntryData::Regular(r)) => Some(r.file_length),
        Some(_) => Some(-1),
        None => None,
    }
}

#[test]
fn arc_cache_eviction_and_promotion() {
    let mut c = Cache::new(2);
    assert!(c.insert(1, file_entry(1, 10), None).is_none());
    assert!(c.insert(2, file_entry(2, 20), None).is_none());
    assert_eq!(cached_len(&c, 1), Some(10));
    // Over capacity: the oldest recent entry goes.
    assert!(c.insert(3, file_entry(3, 30), None).is_none());
    assert_eq!(cached_len(&c, 1), None);
    assert_eq!(cached_len(&c, 2), Some(20));
    // A refreshing lookup promotes the entry to the frequent list.
    assert_eq!(c.get_refresh(&2).map(|e| e.inode), Some(2));
    assert!(c.get_refresh(&9).is_none());
    // The key evicted earlier comes back as frequent, and the oldest
    // frequent entry is evicted and reported.
    let mut evicted = Vec::new();
    assert!(!c.insert_diverges(1));
    assert!(c.insert(1, file_entry(1, 11), Some(&mut evicted)).is_none());
    assert_eq!(evicted.len(), 1);
    assert_eq!(evicted[0].0, 2);
    assert_eq!(cached_len(&c, 1), Some(11));
    assert_eq!(cached_len(&c, 2), None);
    assert_eq!(cached_len(&c, 3), Some(30));
    // Replacing a cached value gives the old one back.
    let old = c.insert(3, file_entry(3, 33), None).unwrap();
    assert_eq!(old.inode, 3);
    assert_eq!(cached_len(&c, 3), Some(33));
}

#[test]
fn arc_cache_divergent_inserts() {
    assert!(Cache::new(0).insert_diverges(5));
    let mut c = Cache::new(1);
    c.insert(1, file_entry(1, 1), None);
    assert!(c.get_refresh(&1).is_some());
    c.insert(2, file_entry(2, 2), None);
    assert_eq!(cached_len(&c, 2), None);
    assert_eq!(cached_len(&c, 1), Some(1));
    // Key 2 waits among the recently evicted keys while the frequent list
    // is full and the recent one empty: inserting it would never finish.
    assert!(c.insert_diverges(2));
    assert!(!c.insert_diverges(1));
    assert!(!c.insert_diverges(3));
}

use yscloud::dir_listing::listing_entries;

#[test]
fn directory_listing_rows() {
    let rows = listing_entries(&vec![
        ("notes.txt".to_string(), file_entry(7, 1234)),
        ("sub".to_string(), dir(8, &[("x", 9)], true)),
    ]);
    assert_eq!(rows.len(), 2);
    assert_eq!(rows[0].file_name, "notes.txt");
    assert!(!rows[0].is_directory);
    assert_eq!(rows[0].file_type, "REG");
    assert_eq!(rows[0].file_size_bytes, 1234);
    assert_eq!(rows[1].file_name, "sub");
    assert!(rows[1].is_directory);
    assert_eq!(rows[1].file_type, "DIR");
    assert_eq!(rows[1].file_size_bytes, 0);
    assert!(listing_entries(&Vec::new()).is_empty());
}

use yscloud::web_response::{directory_action, file_response_headers, response_http_found, DirectoryAction};

#[test]
fn range_header_must_be_visible_ascii() {
    assert_eq!(get_ranges("bytes=0-1\x7f", 1000).unwrap_err(), RangeError::Client);
    assert_eq!(get_ranges("bytes=0-1\u{e9}", 1000).unwrap_err(), RangeError::Client);
    assert_eq!(get_ranges("bytes=0-1\n", 1000).unwrap_err(), RangeError::Client);
    assert_eq!(spans_of(&get_ranges("bytes=0-1", 1000).unwrap()), vec![(0, 2)]);
    assert_eq!(get_ranges("bytes=0-1\t", 1000).unwrap_err(), RangeError::BadNumber);
}

fn header<'a>(h: &'a [(String, String)], name: &str) -> Option<&'a str> {
    h.iter().find(|(n, _)| n == name).map(|(_, v)| v.as_str())
}

#[test]
fn file_response_headers_single_span() {
    let plan = plan_response(Some("bytes=10-19"), 100).unwrap();
    assert_eq!(plan.status, 206);
    let h = file_response_headers(&plan, "/a/clip.mp4", "unused");
    assert_eq!(header(&h, "server"), Some("Magnetite Webserver"));
    assert_eq!(header(&h, "accept-ranges"), Some("bytes"));
    assert_eq!(header(&h, "content-range"), Some("bytes 10-19/100"));
    assert_eq!(header(&h, "content-length"), Some("10"));
    assert_eq!(header(&h, "content-type"), Some("video/mp4"));

    let whole = plan_response(None, 100).unwrap();
    assert_eq!(whole.status, 200);
    let h = file_response_headers(&whole, "/a/notes.bin", "unused");
    assert_eq!(header(&h, "accept-ranges"), Some("bytes"));
    assert_eq!(header(&h, "content-range"), None);
    assert_eq!(header(&h, "content-length"), Some("100"));
    assert_eq!(header(&h, "content-type"), Some("application/octet-stream"));
}

#[test]
fn file_response_headers_multipart() {
    let plan = plan_response(Some("bytes=0-9, 20-29"), 100).unwrap();
    let h = file_response_headers(&plan, "/x.jpg", "BOUNDARY");
    assert_eq!(header(&h, "content-type"), Some("multipart/byteranges; boundary=BOUNDARY"));
    assert_eq!(header(&h, "content-length"), None);
    assert_eq!(header(&h, "accept-ranges"), Some("bytes"));
}

#[test]
fn directory_paths() {
    match directory_action("/movies", true) {
        DirectoryAction::Redirect(p) => assert_eq!(p, "/movies/"),
        other => panic!("unexpected {:?}", other),
    }
    assert!(matches!(directory_action("/movies/", true), DirectoryAction::Listing));
    assert!(matches!(directory_action("/movies/", false), DirectoryAction::NotFound));
    let r = response_http_found("/movies/");
    assert_eq!(r.status, 302);
    assert_eq!(header(&r.headers, "location"), Some("/movies/"));
    assert_eq!(r.body, "Redirecting you to <a href=\"/movies/\">/movies/</a>");
}

#[test]
fn formatted_range_header_reads_back() {
    for (s, e, total) in [(0i64, 1i64, 10i64), (3, 9, 10), (17, 4096, 100), (0, 499, 1000)] {
        let spans = get_ranges(&format!("bytes={}-{}", s, e), total).unwrap();
        assert_eq!(spans.len(), 1);
        assert_eq!(spans[0].start, s);
        assert_eq!(spans[0].full_closed_end(), e);
    }
    let spans = get_ranges("bytes=3-", 10).unwrap();
    assert_eq!(spans[0].start, 3);
    assert_eq!(spans[0].full_closed_end(), 9);
}
