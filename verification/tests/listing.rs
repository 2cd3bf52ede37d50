use simplefs::attr::{FileKind, Timestamp};
use simplefs::dir::DirEntry;
use simplefs::error::FsError;
use simplefs::fs::SimpleFs;

fn at(secs: u64) -> Timestamp {
    Timestamp { before_epoch: false, secs, nanos: 0 }
}

fn line(ino: u64, next_offset: u64, kind: FileKind, name: &str) -> DirEntry {
    DirEntry { ino, next_offset, kind, name: name.to_string() }
}

#[test]
fn readdir_lists_dot_dotdot_and_the_children() {
    let fs = SimpleFs::new();
    assert_eq!(
        fs.readdir(1, 0),
        Ok(vec![
            line(1, 1, FileKind::Directory, "."),
            line(1, 2, FileKind::Directory, ".."),
            line(2, 3, FileKind::RegularFile, "fuse.txt"),
        ])
    );
}

#[test]
fn readdir_starts_at_the_offset() {
    let fs = SimpleFs::new();
    assert_eq!(
        fs.readdir(1, 1),
        Ok(vec![
            line(1, 2, FileKind::Directory, ".."),
            line(2, 3, FileKind::RegularFile, "fuse.txt"),
        ])
    );
    assert_eq!(fs.readdir(1, 2), Ok(vec![line(2, 3, FileKind::RegularFile, "fuse.txt")]));
    assert_eq!(fs.readdir(1, 3), Ok(vec![]));
    assert_eq!(fs.readdir(1, 4), Ok(vec![]));
    assert_eq!(fs.readdir(1, u64::MAX), Ok(vec![]));
}

#[test]
fn readdir_of_what_is_no_directory_is_not_found() {
    let fs = SimpleFs::new();
    assert_eq!(fs.readdir(2, 0), Err(FsError::NotFound));
    assert_eq!(fs.readdir(3, 0), Err(FsError::NotFound));
    assert_eq!(fs.readdir(0, 5), Err(FsError::NotFound));
}

#[test]
fn readdir_follows_creation_and_removal_in_order_of_id() {
    let mut fs = SimpleFs::new();
    fs.create_at(1, "zeta", 0o644, 0, 0, at(1)).unwrap();
    fs.create_at(1, "alpha", 0o644, 0, 0, at(2)).unwrap();
    fs.create_at(1, "mid", 0o644, 0, 0, at(3)).unwrap();
    fs.unlink(1, "alpha").unwrap();
    assert_eq!(
        fs.readdir(1, 0),
        Ok(vec![
            line(1, 1, FileKind::Directory, "."),
            line(1, 2, FileKind::Directory, ".."),
            line(2, 3, FileKind::RegularFile, "fuse.txt"),
            line(3, 4, FileKind::RegularFile, "zeta"),
            line(5, 5, FileKind::RegularFile, "mid"),
        ])
    );
    fs.unlink(1, "fuse.txt").unwrap();
    assert_eq!(
        fs.readdir(1, 2),
        Ok(vec![
            line(3, 3, FileKind::RegularFile, "zeta"),
            line(5, 4, FileKind::RegularFile, "mid"),
        ])
    );
}

#[test]
fn readdir_in_pages_yields_every_line_once() {
    let mut fs = SimpleFs::new();
    for name in ["a", "b", "c", "d", "e", "f", "g"] {
        fs.create_at(1, name, 0o644, 0, 0, at(1)).unwrap();
    }
    let whole = fs.readdir(1, 0).unwrap();
    assert_eq!(whole.len(), 10);
    for page in 1..5usize {
        let mut seen: Vec<DirEntry> = Vec::new();
        let mut offset: u64 = 0;
        loop {
            let rest = fs.readdir(1, offset).unwrap();
            if rest.is_empty() {
                break;
            }
            for entry in rest.into_iter().take(page) {
                offset = entry.next_offset;
                seen.push(entry);
            }
        }
        assert_eq!(seen, whole);
    }
    for start in 0..12u64 {
        let rest = fs.readdir(1, start).unwrap();
        let from = (start as usize).min(whole.len());
        assert_eq!(rest, whole[from..].to_vec());
        for (k, entry) in rest.iter().enumerate() {
            assert_eq!(entry.next_offset, start + k as u64 + 1);
        }
    }
}

#[test]
fn readdir_line_gives_one_line_at_a_time() {
    let mut fs = SimpleFs::new();
    fs.create_at(1, "x", 0o644, 0, 0, at(1)).unwrap();
    fs.create_at(1, "y", 0o644, 0, 0, at(1)).unwrap();
    fs.unlink(1, "x").unwrap();
    assert_eq!(fs.readdir_line(1, 0), Ok(Some(line(1, 1, FileKind::Directory, "."))));
    assert_eq!(fs.readdir_line(1, 1), Ok(Some(line(1, 2, FileKind::Directory, ".."))));
    assert_eq!(fs.readdir_line(1, 2), Ok(Some(line(2, 3, FileKind::RegularFile, "fuse.txt"))));
    assert_eq!(fs.readdir_line(1, 3), Ok(Some(line(4, 4, FileKind::RegularFile, "y"))));
    assert_eq!(fs.readdir_line(1, 4), Ok(None));
    assert_eq!(fs.readdir_line(1, 5), Ok(None));
    assert_eq!(fs.readdir_line(1, u64::MAX), Ok(None));
    assert_eq!(fs.readdir_line(2, 0), Err(FsError::NotFound));
    assert_eq!(fs.readdir_line(9, 3), Err(FsError::NotFound));
}

#[test]
fn readdir_line_walks_the_whole_listing() {
    let mut fs = SimpleFs::new();
    for name in ["one", "two", "three"] {
        fs.create_at(1, name, 0o644, 0, 0, at(1)).unwrap();
    }
    fs.unlink(1, "fuse.txt").unwrap();
    let whole = fs.readdir(1, 0).unwrap();
    let mut walked: Vec<DirEntry> = Vec::new();
    let mut offset: u64 = 0;
    while let Some(entry) = fs.readdir_line(1, offset).unwrap() {
        assert_eq!(entry.next_offset, offset + 1);
        offset = entry.next_offset;
        walked.push(entry);
    }
    assert_eq!(walked, whole);
    assert_eq!(walked.len(), 5);
}
