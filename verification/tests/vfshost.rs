use yscloud::torrent::{TorrentMetaInfo, TorrentMetaInfoFile};
use yscloud::torrent_load::{root_inode_row, torrent_meta_row, DirectoryCache, FileWalk};
use yscloud::vfs::{CreateInode, InodeType};

fn file(path: &[&str], offset: u64, length: u64) -> TorrentMetaInfoFile {
    TorrentMetaInfoFile { length, global_offset: offset, path: path.iter().map(|s| s.to_string()).collect() }
}

/// Writes the rows of `files` as the loader does, numbering inodes from 2.
fn load(files: &[TorrentMetaInfoFile]) -> Vec<CreateInode> {
    let mut rows = Vec::new();
    let mut cache = DirectoryCache::new();
    let mut next_inode = 2;
    for f in files {
        let mut walk = FileWalk { current: 1, index: 0 };
        loop {
            let row = cache.next_row(&mut walk, f);
            let is_dir = row.file_type == InodeType::Directory;
            let name = row.file_name.clone();
            rows.push(row);
            if !is_dir {
                break;
            }
            cache.directory_created(&mut walk, name, next_inode);
            next_inode += 1;
        }
    }
    rows
}

#[test]
fn directories_are_made_once() {
    let rows = load(&[
        file(&["a", "b", "x.txt"], 0, 10),
        file(&["a", "b", "y.txt"], 10, 5),
        file(&["a", "z.txt"], 15, 1),
        file(&["top.txt"], 16, 2),
    ]);
    let summary: Vec<(Option<i64>, &str, InodeType)> =
        rows.iter().map(|r| (r.parent, r.file_name.as_str(), r.file_type)).collect();
    assert_eq!(
        summary,
        vec![
            (Some(1), "a", InodeType::Directory),
            (Some(2), "b", InodeType::Directory),
            (Some(3), "x.txt", InodeType::Regular),
            (Some(3), "y.txt", InodeType::Regular),
            (Some(2), "z.txt", InodeType::Regular),
            (Some(1), "top.txt", InodeType::Regular),
        ]
    );
    assert_eq!(rows[3].global_offset, 10);
    assert_eq!(rows[3].file_length, 5);
    assert_eq!(rows[0].global_offset, 0);
}

#[test]
fn cache_records_replace() {
    let mut cache = DirectoryCache::new();
    let mut walk = FileWalk { current: 1, index: 0 };
    cache.directory_created(&mut walk, "d".to_string(), 7);
    assert_eq!(walk.current, 7);
    assert_eq!(walk.index, 1);
    assert_eq!(cache.get(1, "d"), Some(7));
    let mut again = FileWalk { current: 1, index: 0 };
    cache.directory_created(&mut again, "d".to_string(), 9);
    assert_eq!(cache.get(1, "d"), Some(9));
    assert_eq!(cache.get(7, "d"), None);
}

#[test]
fn torrent_rows() {
    let root = root_inode_row();
    assert_eq!(root.parent, None);
    assert_eq!(root.file_name, "");
    assert_eq!(root.file_type, InodeType::Root);
    let info = TorrentMetaInfo {
        piece_length_shift: 18,
        pieces: vec![],
        name: "n".to_string(),
        files: vec![],
        length: 1234,
        private: None,
    };
    let meta = torrent_meta_row("abcd".to_string(), &info, 5);
    assert_eq!(meta.content_key, "abcd");
    assert_eq!(meta.piece_length_shift, 18);
    assert_eq!(meta.root_inode, 5);
    assert_eq!(meta.total_length, 1234);
}
