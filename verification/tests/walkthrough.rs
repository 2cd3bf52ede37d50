use simplefs::attr::{Attributes, FileKind, Timestamp};
use simplefs::error::FsError;
use simplefs::fs::SimpleFs;

fn at(secs: u64) -> Timestamp {
    Timestamp { before_epoch: false, secs, nanos: 0 }
}

#[test]
fn seeded_file_walkthrough() {
    let mut fs = SimpleFs::new();

    let found = fs.lookup(1, "fuse.txt").unwrap();
    assert_eq!(found.ino, 2);
    assert_eq!(found.size, "This is a new file\n".len() as u64);
    assert_eq!(found.size, 19);

    assert_eq!(fs.read(2, 0, 4), Ok(&b"This"[..]));

    assert_eq!(fs.write_at(2, 20, b"!!", at(9)), Ok(2));
    assert_eq!(fs.getattr(2).unwrap().size, 22);
    assert_eq!(fs.read(2, 20, 2), Ok(&b"!!"[..]));
    assert_eq!(fs.read(2, 0, 100), Ok(&b"This is a new file\n\0!!"[..]));

    assert_eq!(fs.create_at(1, "fuse.txt", 0o644, 0, 0, at(10)), Err(FsError::AlreadyExists));

    assert_eq!(fs.unlink(1, "fuse.txt"), Ok(()));
    assert_eq!(fs.lookup(1, "fuse.txt"), Err(FsError::NotFound));
}

#[test]
fn new_filesystem_holds_root_and_sample() {
    let fs = SimpleFs::new();
    let epoch = Timestamp { before_epoch: false, secs: 0, nanos: 0 };
    assert_eq!(
        fs.getattr(1),
        Ok(Attributes {
            ino: 1,
            size: 0,
            atime: epoch,
            mtime: epoch,
            ctime: epoch,
            crtime: epoch,
            kind: FileKind::Directory,
            perm: 0o755,
            nlink: 2,
            uid: 1000,
            gid: 1000,
            blksize: 512,
        })
    );
    assert_eq!(
        fs.getattr(2),
        Ok(Attributes {
            ino: 2,
            size: 19,
            atime: epoch,
            mtime: epoch,
            ctime: epoch,
            crtime: epoch,
            kind: FileKind::RegularFile,
            perm: 0o644,
            nlink: 1,
            uid: 1000,
            gid: 1000,
            blksize: 512,
        })
    );
    assert_eq!(fs.read(2, 0, 1000), Ok(&b"This is a new file\n"[..]));
    assert_eq!(fs.next_inode(), 3);
    assert_eq!(fs.getattr(3), Err(FsError::NotFound));
}

#[test]
fn getattr_of_missing_inode_is_not_found() {
    let fs = SimpleFs::new();
    assert_eq!(fs.getattr(0), Err(FsError::NotFound));
    assert_eq!(fs.getattr(77), Err(FsError::NotFound));
    assert_eq!(fs.getattr(u64::MAX), Err(FsError::NotFound));
}
