use yscloud::piece_request::TorrentId;
use yscloud::torrent::{
    visit_buf, visit_piece_length, InfoError, InfoField, InfoKey, TorrentMetaInfo,
    TorrentMetaInfoFile, TorrentRawBytes,
};

fn hashes(n: usize) -> Vec<u8> {
    (0..n * 20).map(|i| i as u8).collect()
}

#[test]
fn piece_lengths() {
    assert_eq!(visit_piece_length(1), Ok(0));
    assert_eq!(visit_piece_length(262144), Ok(18));
    assert_eq!(visit_piece_length(0x8000_0000), Ok(31));
    assert_eq!(visit_piece_length(3), Err(InfoError::InvalidPieceLength(3)));
    assert_eq!(visit_piece_length(0), Err(InfoError::InvalidPieceLength(0)));
}

#[test]
fn piece_hashes() {
    let ids = visit_buf(&hashes(2)).unwrap();
    assert_eq!(ids.len(), 2);
    assert_eq!(ids[1].0[0], 20);
    assert_eq!(visit_buf(&[0u8; 21]), Err(InfoError::InvalidPiecesLength(21)));
    assert_eq!(visit_buf(&[]), Err(InfoError::InvalidPiecesLength(0)));
    assert_eq!(TorrentRawBytes(ids).flatten(), hashes(2));
}

#[test]
fn single_file_info() {
    let fields = vec![
        InfoField::Length(1000),
        InfoField::Name("movie.mp4".to_string()),
        InfoField::PieceLength(16384),
        InfoField::Pieces(hashes(1)),
        InfoField::Private(true),
    ];
    let info = TorrentMetaInfo::from_fields(fields).unwrap();
    assert_eq!(info.piece_length_shift, 14);
    assert_eq!(info.name, "movie.mp4");
    assert_eq!(info.length, 1000);
    assert_eq!(info.private, Some(true));
    assert!(!info.is_multi_file());
    assert_eq!(info.pieces.len(), 1);
}

#[test]
fn multi_file_offsets_and_names() {
    let files = vec![
        TorrentMetaInfoFile { length: 10, global_offset: 99, path: vec!["a".to_string()] },
        TorrentMetaInfoFile { length: 5, global_offset: 99, path: vec!["d".to_string(), "b".to_string()] },
    ];
    let fields = vec![
        InfoField::Files(files),
        InfoField::NameUtf8("utf".to_string()),
        InfoField::Name("plain".to_string()),
        InfoField::PieceLength(16384),
        InfoField::Pieces(hashes(1)),
    ];
    let info = TorrentMetaInfo::from_fields(fields).unwrap();
    assert!(info.is_multi_file());
    assert_eq!(info.name, "utf");
    assert_eq!(info.length, 15);
    assert_eq!(info.files[0].global_offset, 0);
    assert_eq!(info.files[1].global_offset, 10);
    assert_eq!(info.private, None);
}

#[test]
fn info_errors() {
    let base = || vec![
        InfoField::Name("n".to_string()),
        InfoField::PieceLength(16384),
        InfoField::Pieces(hashes(1)),
    ];
    let mut dup = base();
    dup.push(InfoField::Name("again".to_string()));
    dup.push(InfoField::Length(1));
    assert_eq!(TorrentMetaInfo::from_fields(dup).unwrap_err(), InfoError::DuplicateField(InfoKey::Name));
    assert_eq!(TorrentMetaInfo::from_fields(base()).unwrap_err(), InfoError::NoFilesOrLength);
    let mut both = base();
    both.push(InfoField::Length(1));
    both.push(InfoField::Files(vec![]));
    assert_eq!(TorrentMetaInfo::from_fields(both).unwrap_err(), InfoError::FilesAndLength);
    let missing = vec![InfoField::Name("n".to_string()), InfoField::Length(1), InfoField::Pieces(hashes(1))];
    assert_eq!(
        TorrentMetaInfo::from_fields(missing).unwrap_err(),
        InfoError::MissingField(InfoKey::PieceLength)
    );
    let bad_len = vec![InfoField::PieceLength(100), InfoField::Name("n".to_string())];
    assert_eq!(TorrentMetaInfo::from_fields(bad_len).unwrap_err(), InfoError::InvalidPieceLength(100));
}

#[test]
fn overflowing_files() {
    let files = vec![
        TorrentMetaInfoFile { length: u64::MAX, global_offset: 0, path: vec![] },
        TorrentMetaInfoFile { length: 1, global_offset: 0, path: vec![] },
    ];
    let fields = vec![
        InfoField::Files(files),
        InfoField::Name("n".to_string()),
        InfoField::PieceLength(16384),
        InfoField::Pieces(hashes(1)),
    ];
    assert!(TorrentMetaInfo::from_fields_overflows(fields));
}

#[test]
fn entries_read_back() {
    let info = TorrentMetaInfo {
        piece_length_shift: 18,
        pieces: vec![TorrentId([3; 20]), TorrentId([4; 20])],
        name: "x".to_string(),
        files: vec![
            TorrentMetaInfoFile { length: 7, global_offset: 0, path: vec!["p".to_string()] },
            TorrentMetaInfoFile { length: 8, global_offset: 7, path: vec!["q".to_string()] },
        ],
        length: 15,
        private: Some(false),
    };
    let back = TorrentMetaInfo::from_fields(info.info_entries()).unwrap();
    assert_eq!(back.piece_length_shift, 18);
    assert_eq!(back.pieces, info.pieces);
    assert_eq!(back.name, "x");
    assert_eq!(back.length, 15);
    assert_eq!(back.files.len(), 2);
    assert_eq!(back.files[1].global_offset, 7);
    assert_eq!(back.files[1].path, vec!["q".to_string()]);
    assert_eq!(back.private, Some(false));
}

use yscloud::bytes_cow::BytesCow;

#[test]
fn bytes_cow_reads_and_owns() {
    let data = [1u8, 2, 3, 250];
    let b = BytesCow::Borrowed(&data[..]);
    assert_eq!(b.as_slice(), &[1, 2, 3, 250]);
    let owned = b.into_owned();
    assert!(matches!(owned, BytesCow::Owned(_)));
    assert_eq!(owned.as_slice(), &[1, 2, 3, 250]);
    let o = BytesCow::Owned(vec![9, 8]);
    assert_eq!(o.into_owned().as_slice(), &[9, 8]);
    assert!(BytesCow::Borrowed(&[]).as_slice().is_empty());
}
