use simplefs::attr::{Attributes, FileKind, Timestamp};
use simplefs::error::FsError;
use simplefs::fs::SimpleFs;

fn at(secs: u64, nanos: u32) -> Timestamp {
    Timestamp { before_epoch: false, secs, nanos }
}

#[test]
fn created_file_is_looked_up_with_its_attributes() {
    let mut fs = SimpleFs::new();
    let now = at(1_700_000_000, 5);
    let created = fs.create_at(1, "notes", 0o100640, 501, 20, now).unwrap();
    assert_eq!(
        created,
        Attributes {
            ino: 3,
            size: 0,
            atime: now,
            mtime: now,
            ctime: now,
            crtime: now,
            kind: FileKind::RegularFile,
            perm: 0o640,
            nlink: 1,
            uid: 501,
            gid: 20,
            blksize: 512,
        }
    );
    assert_eq!(fs.lookup(1, "notes"), Ok(created));
    assert_eq!(fs.getattr(3), Ok(created));
    assert_eq!(fs.resolve(1, "notes"), Some(3));
    assert_eq!(fs.read(3, 0, 10), Ok(&b""[..]));
}

#[test]
fn lookup_follows_the_current_attributes() {
    let mut fs = SimpleFs::new();
    let born = at(100, 0);
    let changed = at(200, 7);
    fs.create_at(1, "log", 0o600, 1, 2, born).unwrap();
    fs.create_at(1, "other", 0o600, 1, 2, born).unwrap();
    assert_eq!(fs.write_at(3, 0, b"hello", changed), Ok(5));
    fs.unlink(1, "other").unwrap();
    let seen = fs.lookup(1, "log").unwrap();
    assert_eq!(seen.ino, 3);
    assert_eq!(seen.size, 5);
    assert_eq!(seen.mtime, changed);
    assert_eq!(seen.ctime, changed);
    assert_eq!(seen.atime, born);
    assert_eq!(seen.crtime, born);
    assert_eq!(seen.perm, 0o600);
    assert_eq!(fs.lookup(1, "fuse.txt").unwrap().ino, 2);
}

#[test]
fn lookup_matches_the_exact_name_only() {
    let mut fs = SimpleFs::new();
    fs.create_at(1, "a", 0o644, 0, 0, at(1, 0)).unwrap();
    assert_eq!(fs.lookup(1, "a").unwrap().ino, 3);
    assert_eq!(fs.lookup(1, "A"), Err(FsError::NotFound));
    assert_eq!(fs.lookup(1, "ab"), Err(FsError::NotFound));
    assert_eq!(fs.lookup(1, ""), Err(FsError::NotFound));
    assert_eq!(fs.lookup(1, "fuse"), Err(FsError::NotFound));
    assert_eq!(fs.lookup(1, "fuse.txt ").is_err(), true);
    assert_eq!(fs.lookup(1, "."), Err(FsError::NotFound));
    assert_eq!(fs.lookup(1, ".."), Err(FsError::NotFound));
}

#[test]
fn lookup_under_a_parent_that_is_no_directory_is_not_found() {
    let fs = SimpleFs::new();
    assert_eq!(fs.lookup(2, "fuse.txt"), Err(FsError::NotFound));
    assert_eq!(fs.lookup(9, "fuse.txt"), Err(FsError::NotFound));
    assert_eq!(fs.resolve(2, "fuse.txt"), None);
    assert_eq!(fs.resolve(0, "fuse.txt"), None);
    assert_eq!(fs.is_directory(1), true);
    assert_eq!(fs.is_directory(2), false);
    assert_eq!(fs.is_directory(3), false);
}

#[test]
fn create_twice_fails_and_another_name_succeeds() {
    let mut fs = SimpleFs::new();
    let first = fs.create_at(1, "one", 0o644, 0, 0, at(1, 0)).unwrap();
    assert_eq!(first.ino, 3);
    assert_eq!(fs.create_at(1, "one", 0o600, 9, 9, at(2, 0)), Err(FsError::AlreadyExists));
    assert_eq!(fs.next_inode(), 4);
    let second = fs.create_at(1, "two", 0o644, 0, 0, at(3, 0)).unwrap();
    assert_eq!(second.ino, 4);
    assert_eq!(fs.lookup(1, "one").unwrap().ino, 3);
    assert_eq!(fs.lookup(1, "two").unwrap().ino, 4);
    assert_eq!(fs.lookup(1, "one"), Ok(first));
}

#[test]
fn create_under_a_parent_that_is_no_directory_is_not_found() {
    let mut fs = SimpleFs::new();
    assert_eq!(fs.create_at(2, "x", 0o644, 0, 0, at(1, 0)), Err(FsError::NotFound));
    assert_eq!(fs.create_at(40, "x", 0o644, 0, 0, at(1, 0)), Err(FsError::NotFound));
    assert_eq!(fs.create_at(2, "fuse.txt", 0o644, 0, 0, at(1, 0)), Err(FsError::NotFound));
    assert_eq!(fs.next_inode(), 3);
    assert_eq!(fs.readdir(1, 0).unwrap().len(), 3);
}

#[test]
fn create_keeps_the_low_nine_bits_of_the_mode() {
    let mut fs = SimpleFs::new();
    assert_eq!(fs.create_at(1, "a", 0o100755, 0, 0, at(1, 0)).unwrap().perm, 0o755);
    assert_eq!(fs.create_at(1, "b", 0o7777, 0, 0, at(1, 0)).unwrap().perm, 0o777);
    assert_eq!(fs.create_at(1, "c", 0, 0, 0, at(1, 0)).unwrap().perm, 0);
    assert_eq!(fs.create_at(1, "d", u32::MAX, 0, 0, at(1, 0)).unwrap().perm, 0o777);
    assert_eq!(Attributes::perm_bits(0o100644), 0o644);
    assert_eq!(Attributes::perm_bits(0o1000), 0);
}

#[test]
fn unlink_then_lookup_is_not_found() {
    let mut fs = SimpleFs::new();
    fs.create_at(1, "gone", 0o644, 0, 0, at(1, 0)).unwrap();
    assert_eq!(fs.unlink(1, "gone"), Ok(()));
    assert_eq!(fs.lookup(1, "gone"), Err(FsError::NotFound));
    assert_eq!(fs.getattr(3), Err(FsError::NotFound));
    assert_eq!(fs.read(3, 0, 1), Err(FsError::NotFound));
    assert_eq!(fs.lookup(1, "fuse.txt").unwrap().ino, 2);
}

#[test]
fn unlink_of_a_missing_name_changes_nothing() {
    let mut fs = SimpleFs::new();
    fs.create_at(1, "kept", 0o644, 0, 0, at(1, 0)).unwrap();
    let before = fs.readdir(1, 0).unwrap();
    assert_eq!(fs.unlink(1, "nope"), Err(FsError::NotFound));
    assert_eq!(fs.unlink(2, "kept"), Err(FsError::NotFound));
    assert_eq!(fs.unlink(5, "kept"), Err(FsError::NotFound));
    assert_eq!(fs.unlink(1, "."), Err(FsError::NotFound));
    assert_eq!(fs.readdir(1, 0).unwrap(), before);
    assert_eq!(fs.lookup(1, "kept").unwrap().ino, 3);
    assert_eq!(fs.getattr(1).unwrap().kind, FileKind::Directory);
    assert_eq!(fs.next_inode(), 4);
}

#[test]
fn the_empty_name_stands_for_nothing() {
    let mut fs = SimpleFs::new();
    assert_eq!(fs.resolve(1, ""), None);
    assert_eq!(fs.lookup(1, ""), Err(FsError::NotFound));
    assert_eq!(fs.unlink(1, ""), Err(FsError::NotFound));
    assert_eq!(fs.readdir(1, 0).unwrap().len(), 3);
    assert_eq!(fs.getattr(1).unwrap().ino, 1);
}

#[test]
fn unlinked_name_can_be_created_again_under_a_new_id() {
    let mut fs = SimpleFs::new();
    fs.unlink(1, "fuse.txt").unwrap();
    let again = fs.create_at(1, "fuse.txt", 0o644, 0, 0, at(5, 0)).unwrap();
    assert_eq!(again.ino, 3);
    assert_eq!(again.size, 0);
    assert_eq!(fs.getattr(2), Err(FsError::NotFound));
    fs.unlink(1, "fuse.txt").unwrap();
    assert_eq!(fs.create_at(1, "fuse.txt", 0o644, 0, 0, at(6, 0)).unwrap().ino, 4);
    assert_eq!(fs.getattr(3), Err(FsError::NotFound));
}

#[test]
fn create_stamps_the_time_of_the_system_clock() {
    let mut fs = SimpleFs::new();
    let made = fs.create(1, "now", 0o644, 1, 1).unwrap();
    assert_eq!(made.ino, 3);
    assert_eq!(made.size, 0);
    assert_eq!(made.atime, made.mtime);
    assert_eq!(made.mtime, made.ctime);
    assert_eq!(made.ctime, made.crtime);
    assert!(made.crtime.nanos < 1_000_000_000);
    assert!(!made.crtime.before_epoch);
    assert!(made.crtime.secs > 1_500_000_000);
    assert_eq!(fs.lookup(1, "now"), Ok(made));
    assert_eq!(fs.create(1, "now", 0o644, 1, 1), Err(FsError::AlreadyExists));
    assert_eq!(fs.create(3, "x", 0o644, 1, 1), Err(FsError::NotFound));
}
