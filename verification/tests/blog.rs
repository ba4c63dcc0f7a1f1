use yscloud::static_vfs::{
    split_at_char, Directory, Error, ErrorKind, Metadata, ModifiedTime, NodeData, NodeKind,
    Regular, StaticEntry,
};

fn file(name: &str, bytes: &[u8]) -> StaticEntry {
    StaticEntry {
        name: name.to_string(),
        data: NodeData::Regular(Regular {
            last_modified_time: ModifiedTime { seconds: 1_550_000_000, nanoseconds: 0 },
            etag: format!("\"{}\"", name),
            raw_data: bytes.to_vec(),
        }),
    }
}

fn dir(name: &str, entries: Vec<StaticEntry>) -> StaticEntry {
    StaticEntry { name: name.to_string(), data: NodeData::Directory(Directory { entries }) }
}

fn tree() -> Directory {
    Directory {
        entries: vec![
            file("index.html", b"<html>"),
            dir("static", vec![file("app.js", b"let x;"), dir("img", vec![file("a.png", b"png")])]),
        ],
    }
}

fn is_not_found(e: &Error) -> bool {
    e.kind == ErrorKind::NotFound && e.message == "not found"
}

#[test]
fn path_pieces() {
    assert_eq!(split_at_char("a/b//c", '/'), vec!["a", "b", "", "c"]);
    assert_eq!(split_at_char("", '/'), vec![""]);
    assert_eq!(split_at_char("/x/", '/'), vec!["", "x", ""]);
}

#[test]
fn stat_entries() {
    let t = tree();
    // The walk takes the name of a regular file and stops in its directory,
    // where the next piece is looked up.
    let m = t.stat("static/img/a.png/a.png").unwrap();
    assert_eq!(m.node_kind, NodeKind::Regular);
    assert_eq!(m.length, 3);
    assert_eq!(m.last_modified_time, Some(ModifiedTime { seconds: 1_550_000_000, nanoseconds: 0 }));
    let dir_meta = Metadata { node_kind: NodeKind::Directory, last_modified_time: None, length: 0 };
    assert_eq!(t.stat("static/img/a.png").unwrap(), dir_meta);
    assert_eq!(t.stat("static/img").unwrap(), dir_meta);
    assert_eq!(t.stat("static").unwrap(), dir_meta);
    assert!(is_not_found(&t.stat("static/nope").unwrap_err()));
    assert!(is_not_found(&t.stat("nope").unwrap_err()));
    assert!(is_not_found(&t.stat("").unwrap_err()));
    // `..` leaves a directory, and going above the root twice names nothing.
    assert_eq!(t.stat("static/../index.html/index.html").unwrap().length, 6);
    assert!(is_not_found(&t.stat("../..").unwrap_err()));
    assert_eq!(t.stat("./static/./app.js/app.js").unwrap().length, 6);
    // Trailing pieces after the entry name nothing.
    assert!(is_not_found(&t.stat("static/img/a.png/a.png/x").unwrap_err()));
    assert!(is_not_found(&t.stat("static/img/a.png/more").unwrap_err()));
}

#[test]
fn list_directories() {
    let t = tree();
    assert!(is_not_found(&t.list_dir("").unwrap_err()));
    let listed = t.list_dir("static/img/a.png").unwrap();
    let names: Vec<&str> = listed.iter().map(|e| e.0).collect();
    assert_eq!(names, vec!["a.png"]);
    assert_eq!(listed[0].1.length, 3);
    // A walk through directories only ends at the root.
    let root: Vec<&str> = t.list_dir("static").unwrap().iter().map(|e| e.0).collect();
    assert_eq!(root, vec!["index.html", "static"]);
    assert!(is_not_found(&t.list_dir("static/img/a.png/x").unwrap_err()));
}

#[test]
fn open_files() {
    let t = tree();
    assert_eq!(t.open_file("static/app.js/app.js").unwrap(), b"let x;");
    let e = t.open_file("static/img").unwrap_err();
    assert_eq!(e.kind, ErrorKind::Other);
    assert_eq!(e.message, "not a file");
    assert!(is_not_found(&t.open_file("static/nope").unwrap_err()));
}

#[test]
fn entry_metadata_and_errors() {
    assert_eq!(file("f", b"abcd").metadata().length, 4);
    assert_eq!(dir("d", vec![]).metadata().node_kind, NodeKind::Directory);
    let e = Error::new(ErrorKind::Other, "boom");
    assert_eq!(e.kind, ErrorKind::Other);
    assert_eq!(e.message, "boom");
    assert!(is_not_found(&Error::not_found()));
}
