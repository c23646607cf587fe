use http_dir::fs::include_dir::{DirEntry, DirNode, IncludeDirFilesystem};
use http_dir::fs::single_file::SingleFileFilesystem;
use http_dir::fs::{FileExt, Filesystem, FsError, SeekFrom};

fn tree() -> IncludeDirFilesystem {
    IncludeDirFilesystem::new(vec![
        DirEntry {
            path: "a.txt".to_string(),
            node: DirNode::File { contents: b"abcdef".to_vec(), modified: Some(7) },
        },
        DirEntry { path: "d".to_string(), node: DirNode::Directory },
    ])
}

#[test]
fn open_read_and_metadata() {
    let mut fs = tree();
    let mut f = fs.open(&"a.txt".to_string()).unwrap();
    let meta = f.metadata().unwrap();
    assert_eq!(meta.len, 6);
    assert_eq!(meta.modified, Some(7));
    assert_eq!(f._metadata().len, 6);
    let chunk = f.read_chunk(4).unwrap();
    assert_eq!(chunk, b"abcd".to_vec());
    let rest = f.read_chunk(100).unwrap();
    assert_eq!(rest, b"ef".to_vec());
    let eof = f.read_chunk(100).unwrap();
    assert!(eof.is_empty());
}

#[test]
fn seek_forms() {
    let mut fs = tree();
    let mut f = fs.open(&"a.txt".to_string()).unwrap();
    assert_eq!(f.seek(SeekFrom::Start(2)).unwrap(), 2);
    assert_eq!(f.read_chunk(2).unwrap(), b"cd".to_vec());
    assert_eq!(f.seek(SeekFrom::End(-1)).unwrap(), 5);
    assert_eq!(f.read_chunk(10).unwrap(), b"f".to_vec());
    assert_eq!(f.seek(SeekFrom::Start(1)).unwrap(), 1);
    assert_eq!(f.seek(SeekFrom::Current(2)).unwrap(), 3);
    assert_eq!(f.read_chunk(1).unwrap(), b"d".to_vec());
    assert_eq!(f.seek(SeekFrom::End(-9)), Err(FsError::InvalidInput));
    // A seek past the end or to a negative position is refused and the
    // cursor stays where it was.
    assert_eq!(f.seek(SeekFrom::Start(100)), Err(FsError::InvalidInput));
    assert_eq!(f.seek(SeekFrom::End(1)), Err(FsError::InvalidInput));
    assert_eq!(f.seek(SeekFrom::Current(1000)), Err(FsError::InvalidInput));
    assert_eq!(f.read_chunk(1).unwrap(), b"e".to_vec());
    // Seeking exactly to the end is allowed; reads there report end-of-file.
    assert_eq!(f.seek(SeekFrom::Start(6)).unwrap(), 6);
    assert!(f.read_chunk(1).unwrap().is_empty());
}

#[test]
fn lookups() {
    let mut fs = tree();
    assert_eq!(fs.is_dir(&"d".to_string()), Ok(true));
    assert_eq!(fs.is_dir(&"a.txt".to_string()), Ok(false));
    assert_eq!(fs.is_dir(&"missing".to_string()), Err(FsError::NotFound));
    assert!(matches!(fs.open(&"d".to_string()), Err(FsError::NotFound)));
    assert!(matches!(fs.metadata(&"d".to_string()), Err(FsError::NotFound)));
    assert_eq!(fs.metadata(&"a.txt".to_string()).unwrap().len, 6);
}

#[test]
fn single_file_gate() {
    let mut fs = SingleFileFilesystem::new("a.txt".to_string(), tree());
    assert!(fs.open(&"a.txt".to_string()).is_ok());
    assert!(matches!(fs.open(&"d".to_string()), Err(FsError::NotFound)));
    assert!(matches!(
        fs.metadata(&"missing".to_string()),
        Err(FsError::NotFound)
    ));
    assert_eq!(fs.is_dir(&"a.txt".to_string()), Ok(false));
}

#[test]
fn first_entry_wins_on_duplicate_paths() {
    let mut fs = IncludeDirFilesystem::new(vec![
        DirEntry {
            path: "x".to_string(),
            node: DirNode::File { contents: b"first".to_vec(), modified: None },
        },
        DirEntry {
            path: "x".to_string(),
            node: DirNode::File { contents: b"second".to_vec(), modified: None },
        },
    ]);
    let mut f = fs.open(&"x".to_string()).unwrap();
    assert_eq!(f.read_chunk(10).unwrap(), b"first".to_vec());
}
