//! Inode attributes: kind, timestamps and the attribute record.

use vstd::prelude::*;

verus! {

/// The id of the root directory.
pub const ROOT_INO: u64 = 1;

/// The block size that every inode advertises.
pub const BLOCK_SIZE: u32 = 512;

/// How many seconds a caller may keep a returned attribute record before it
/// asks again.
pub const TTL_SECS: u64 = 1;

/// One second in nanoseconds.
pub const NANOS_PER_SEC: u32 = 1_000_000_000;

/// The permission bits of a file mode.
pub const PERM_MASK: u32 = 0o777;

/// What kind of object an inode is.
#[derive(Clone, Copy, Debug, PartialEq, Eq, Structural)]
pub enum FileKind {
    Directory,
    RegularFile,
}

/// A point in time, as a distance from the Unix epoch: `secs` whole seconds
/// and `nanos` nanoseconds, counted backwards where `before_epoch` is set.
#[derive(Clone, Copy, Debug, PartialEq, Eq, Structural)]
pub struct Timestamp {
    pub before_epoch: bool,
    pub secs: u64,
    pub nanos: u32,
}

impl Timestamp {
    /// The nanoseconds are a fraction of one second.
    pub open spec fn wf(self) -> bool {
        self.nanos < NANOS_PER_SEC
    }

    /// The Unix epoch itself.
    pub open spec fn epoch() -> Timestamp {
        Timestamp { before_epoch: false, secs: 0, nanos: 0 }
    }

    /// Returns the Unix epoch.
    pub fn unix_epoch() -> (t: Timestamp)
        ensures
            t == Timestamp::epoch(),
    {
        Timestamp { before_epoch: false, secs: 0, nanos: 0 }
    }
}

/// The attribute record of one inode.
#[derive(Clone, Copy, Debug, PartialEq, Eq, Structural)]
pub struct Attributes {
    /// The inode's id.
    pub ino: u64,
    /// Length of the content in bytes.
    pub size: u64,
    /// Last access.
    pub atime: Timestamp,
    /// Last change of the content.
    pub mtime: Timestamp,
    /// Last change of the attributes.
    pub ctime: Timestamp,
    /// Creation.
    pub crtime: Timestamp,
    pub kind: FileKind,
    /// Permission bits.
    pub perm: u16,
    /// Number of hard links.
    pub nlink: u32,
    pub uid: u32,
    pub gid: u32,
    pub blksize: u32,
}

/// The number of 512-byte blocks that `size` bytes take up.
pub open spec fn blocks_of(size: u64) -> int {
    (size + 511) / 512
}

/// The permission bits of `mode`: its low nine bits.
pub open spec fn perm_of(mode: u32) -> u16 {
    (mode & PERM_MASK) as u16
}

/// The attributes of the root directory as the filesystem starts with it.
pub open spec fn root_attributes() -> Attributes {
    Attributes {
        ino: ROOT_INO,
        size: 0,
        atime: Timestamp::epoch(),
        mtime: Timestamp::epoch(),
        ctime: Timestamp::epoch(),
        crtime: Timestamp::epoch(),
        kind: FileKind::Directory,
        perm: 0o755,
        nlink: 2,
        uid: 1000,
        gid: 1000,
        blksize: BLOCK_SIZE,
    }
}

/// The attributes of a regular file that was just created with id `ino` at
/// time `now`: empty, one link, every timestamp `now`.
pub open spec fn fresh_attributes(
    ino: u64,
    mode: u32,
    uid: u32,
    gid: u32,
    now: Timestamp,
) -> Attributes {
    Attributes {
        ino,
        size: 0,
        atime: now,
        mtime: now,
        ctime: now,
        crtime: now,
        kind: FileKind::RegularFile,
        perm: perm_of(mode),
        nlink: 1,
        uid,
        gid,
        blksize: BLOCK_SIZE,
    }
}

impl Attributes {
    /// Returns the permission bits of `mode`.
    pub fn perm_bits(mode: u32) -> (perm: u16)
        ensures
            perm == perm_of(mode),
            perm <= 0o777,
    {
        let low: u32 = mode & PERM_MASK;
        assert(low <= 0o777) by (bit_vector)
            requires
                low == mode & 0o777,
        ;
        low as u16
    }

    /// Returns the attributes of a regular file created with id `ino` at `now`.
    pub fn fresh(ino: u64, mode: u32, uid: u32, gid: u32, now: Timestamp) -> (attr: Attributes)
        ensures
            attr == fresh_attributes(ino, mode, uid, gid, now),
    {
        Attributes {
            ino,
            size: 0,
            atime: now,
            mtime: now,
            ctime: now,
            crtime: now,
            kind: FileKind::RegularFile,
            perm: Attributes::perm_bits(mode),
            nlink: 1,
            uid,
            gid,
            blksize: BLOCK_SIZE,
        }
    }

    /// Returns how many 512-byte blocks the content takes up.
    pub fn blocks(&self) -> (n: u64)
        ensures
            n == blocks_of(self.size),
    {
        let whole: u64 = self.size / 512;
        if self.size % 512 == 0 {
            whole
        } else {
            whole + 1
        }
    }
}

} // verus!
