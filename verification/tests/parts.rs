use simplefs::allocator::InodeAllocator;
use simplefs::attr::{Attributes, FileKind, Timestamp, BLOCK_SIZE, ROOT_INO, TTL_SECS};
use simplefs::inode::Inode;
use simplefs::store::Store;

fn file(ino: u64, name: &str, content: &[u8]) -> Inode {
    let now = Timestamp { before_epoch: false, secs: 3, nanos: 4 };
    let mut attr = Attributes::fresh(ino, 0o644, 1, 2, now);
    attr.size = content.len() as u64;
    Inode { attr, parent: Some(ROOT_INO), name: name.to_string(), content: content.to_vec() }
}

#[test]
fn store_starts_empty() {
    let store = Store::new();
    assert_eq!(store.len(), 0);
    assert_eq!(store.get(1), None);
    assert_eq!(store.row(0), None);
    assert_eq!(store.position(1), Err(0));
}

#[test]
fn store_keeps_rows_in_ascending_order_of_id() {
    let mut store = Store::new();
    assert_eq!(store.insert(7, file(7, "seven", b"7")), None);
    assert_eq!(store.insert(3, file(3, "three", b"3")), None);
    assert_eq!(store.insert(9, file(9, "nine", b"9")), None);
    assert_eq!(store.insert(5, file(5, "five", b"5")), None);
    assert_eq!(store.len(), 4);
    let ids: Vec<u64> = (0..4).map(|i| store.row(i).unwrap().0).collect();
    assert_eq!(ids, vec![3, 5, 7, 9]);
    assert_eq!(store.row(1).unwrap().1, &file(5, "five", b"5"));
    assert_eq!(store.row(4), None);
    assert_eq!(store.position(3), Ok(0));
    assert_eq!(store.position(9), Ok(3));
    assert_eq!(store.position(1), Err(0));
    assert_eq!(store.position(4), Err(1));
    assert_eq!(store.position(8), Err(3));
    assert_eq!(store.position(10), Err(4));
}

#[test]
fn store_get_insert_remove() {
    let mut store = Store::new();
    store.insert(2, file(2, "two", b"22"));
    store.insert(1, file(1, "one", b"1"));
    assert_eq!(store.get(2), Some(&file(2, "two", b"22")));
    assert_eq!(store.get(1), Some(&file(1, "one", b"1")));
    assert_eq!(store.get(3), None);
    assert_eq!(store.insert(2, file(2, "deux", b"")), Some(file(2, "two", b"22")));
    assert_eq!(store.len(), 2);
    assert_eq!(store.get(2), Some(&file(2, "deux", b"")));
    assert_eq!(store.remove(1), Some(file(1, "one", b"1")));
    assert_eq!(store.remove(1), None);
    assert_eq!(store.len(), 1);
    assert_eq!(store.get(1), None);
    assert_eq!(store.row(0).unwrap().0, 2);
}

#[test]
fn store_get_mut_changes_the_row_in_place() {
    let mut store = Store::new();
    store.insert(4, file(4, "four", b"abc"));
    store.insert(6, file(6, "six", b"xyz"));
    match store.get_mut(4) {
        Some(inode) => {
            inode.content.push(b'd');
            inode.attr.size = 4;
        },
        None => panic!("row 4 is there"),
    }
    assert!(store.get_mut(5).is_none());
    assert_eq!(store.get(4).unwrap().content, b"abcd");
    assert_eq!(store.get(4).unwrap().attr.size, 4);
    assert_eq!(store.get(6), Some(&file(6, "six", b"xyz")));
    assert_eq!(store.len(), 2);
}

#[test]
fn allocator_issues_each_id_once_in_ascending_order() {
    let mut ids = InodeAllocator::new(3);
    assert_eq!(ids.peek(), 3);
    assert_eq!(ids.next(), 3);
    assert_eq!(ids.next(), 4);
    assert_eq!(ids.peek(), 5);
    assert_eq!(ids.next(), 5);
    let mut last = InodeAllocator::new(u64::MAX - 1);
    assert_eq!(last.next(), u64::MAX - 1);
    assert_eq!(last.peek(), u64::MAX);
}

#[test]
fn blocks_round_the_size_up() {
    let now = Timestamp::unix_epoch();
    let mut attr = Attributes::fresh(3, 0o644, 0, 0, now);
    assert_eq!(attr.blocks(), 0);
    attr.size = 1;
    assert_eq!(attr.blocks(), 1);
    attr.size = 19;
    assert_eq!(attr.blocks(), 1);
    attr.size = 512;
    assert_eq!(attr.blocks(), 1);
    attr.size = 513;
    assert_eq!(attr.blocks(), 2);
    attr.size = 1024;
    assert_eq!(attr.blocks(), 2);
    attr.size = u64::MAX;
    assert_eq!(attr.blocks(), 36028797018963968);
}

#[test]
fn fresh_attributes_and_constants() {
    let now = Timestamp { before_epoch: true, secs: 8, nanos: 9 };
    let attr = Attributes::fresh(12, 0o100600, 4, 5, now);
    assert_eq!(attr.ino, 12);
    assert_eq!(attr.size, 0);
    assert_eq!(attr.kind, FileKind::RegularFile);
    assert_eq!(attr.perm, 0o600);
    assert_eq!(attr.nlink, 1);
    assert_eq!(attr.uid, 4);
    assert_eq!(attr.gid, 5);
    assert_eq!(attr.blksize, 512);
    assert_eq!(attr.atime, now);
    assert_eq!(attr.crtime, now);
    assert_eq!(Timestamp::unix_epoch(), Timestamp { before_epoch: false, secs: 0, nanos: 0 });
    assert_eq!(ROOT_INO, 1);
    assert_eq!(BLOCK_SIZE, 512);
    assert_eq!(TTL_SECS, 1);
}
