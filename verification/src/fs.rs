//! The filesystem engine.

use vstd::prelude::*;
use vstd::string::StrSliceExecFns;
use crate::allocator::InodeAllocator;
use crate::attr::{Attributes, FileKind, Timestamp, BLOCK_SIZE, ROOT_INO};
use crate::clock::current_time;
use crate::content::{read_bytes, write_bytes};
use crate::dir::{from_offset, lemma_from_offset_push, lines_view, DirEntry, DirEntryView};
use crate::error::FsError;
use crate::inode::Inode;
use crate::model::{
    child_line, create_outcome, held_by, lemma_child_index, lemma_children_of_root,
    lemma_create_wf, lemma_directory_is_root, lemma_initial_wf, lemma_len_below_next_id,
    lemma_sample_text, lemma_unlink_wf, lemma_write_wf, listing_of, unlink_outcome,
    write_outcome, FsView, Op, FIRST_FREE_INO, SAMPLE_INO, SAMPLE_NAME, SAMPLE_TEXT,
};
use crate::store::{has_id, index_of, is_rank, lemma_index_of, lemma_rank, Row, Store};

verus! {

/// An in-memory filesystem: the table of inodes and the allocator of their ids.
pub struct SimpleFs {
    store: Store,
    allocator: InodeAllocator,
}

impl View for SimpleFs {
    type V = FsView;

    closed spec fn view(&self) -> FsView {
        FsView { rows: self.store@, next_id: self.allocator@ }
    }
}

impl SimpleFs {
    /// The filesystem is in a state that the operations reach.
    pub open spec fn wf(&self) -> bool {
        self@.wf()
    }

    /// Returns a filesystem that holds the root directory and the sample file.
    pub fn new() -> (fs: SimpleFs)
        ensures
            fs.wf(),
            fs@ == FsView::initial(),
    {
        let epoch = Timestamp::unix_epoch();
        let mut store = Store::new();
        let root = Inode {
            attr: Attributes {
                ino: ROOT_INO,
                size: 0,
                atime: epoch,
                mtime: epoch,
                ctime: epoch,
                crtime: epoch,
                kind: FileKind::Directory,
                perm: 0o755,
                nlink: 2,
                uid: 1000,
                gid: 1000,
                blksize: BLOCK_SIZE,
            },
            parent: None,
            name: String::new(),
            content: Vec::new(),
        };
        proof {
            lemma_rank(store@, ROOT_INO, 0);
        }
        store.insert(ROOT_INO, root);
        let content = SAMPLE_TEXT.as_bytes_vec();
        proof {
            lemma_sample_text();
        }
        let sample = Inode {
            attr: Attributes {
                ino: SAMPLE_INO,
                size: content.len() as u64,
                atime: epoch,
                mtime: epoch,
                ctime: epoch,
                crtime: epoch,
                kind: FileKind::RegularFile,
                perm: 0o644,
                nlink: 1,
                uid: 1000,
                gid: 1000,
                blksize: BLOCK_SIZE,
            },
            parent: Some(ROOT_INO),
            name: SAMPLE_NAME.to_owned(),
            content,
        };
        proof {
            assert(is_rank(store@, SAMPLE_INO, 1));
            lemma_rank(store@, SAMPLE_INO, 1);
        }
        store.insert(SAMPLE_INO, sample);
        let fs = SimpleFs { store, allocator: InodeAllocator::new(FIRST_FREE_INO) };
        proof {
            assert(fs@.rows =~= FsView::initial().rows);
            assert(fs@ =~= FsView::initial());
            lemma_initial_wf();
        }
        fs
    }

    /// Returns the id that the next created file gets.
    pub fn next_inode(&self) -> (id: u64)
        ensures
            id == self@.next_id,
    {
        self.allocator.peek()
    }

    /// Returns the attributes of the inode `id`, or `NotFound` where there is
    /// no such inode.
    pub fn getattr(&self, id: u64) -> (found: Result<Attributes, FsError>)
        requires
            self.wf(),
        ensures
            found == self@.getattr(id),
    {
        match self.store.get(id) {
            Some(inode) => Ok(inode.attr),
            None => Err(FsError::NotFound),
        }
    }

    /// Returns whether `id` is the id of a directory.
    pub fn is_directory(&self, id: u64) -> (yes: bool)
        requires
            self.wf(),
        ensures
            yes == self@.is_directory(id),
    {
        match self.store.get(id) {
            Some(inode) => inode.attr.kind == FileKind::Directory,
            None => false,
        }
    }

    /// Returns the id of the child of `parent` whose name is exactly `name`,
    /// or `None` where `parent` is no directory or has no such child.
    pub fn resolve(&self, parent: u64, name: &str) -> (found: Option<u64>)
        requires
            self.wf(),
        ensures
            found == self@.resolve(parent, name@),
    {
        if !self.is_directory(parent) {
            return None;
        }
        let wanted: String = name.to_owned();
        let mut i: usize = 0;
        while i < self.store.len()
            invariant
                self.wf(),
                self@.is_directory(parent),
                wanted@ == name@,
                i <= self@.rows.len(),
                forall|j: int|
                    0 <= j < i ==> !(#[trigger] self@.rows[j]).inode.is_child(parent, name@),
            decreases self@.rows.len() - i,
        {
            match self.store.row(i) {
                Some((id, inode)) => {
                    if is_held_by(inode, parent) && inode.name == wanted {
                        proof {
                            lemma_child_index(self@, parent, name@, i as int);
                        }
                        return Some(id);
                    }
                },
                None => {},
            }
            i += 1;
        }
        None
    }

    /// Returns the attributes of the child of `parent` whose name is exactly
    /// `name`, or `NotFound` where `parent` is no directory or has no such
    /// child.
    pub fn lookup(&self, parent: u64, name: &str) -> (found: Result<Attributes, FsError>)
        requires
            self.wf(),
        ensures
            found == self@.lookup(parent, name@),
    {
        match self.resolve(parent, name) {
            Some(id) => self.getattr(id),
            None => Err(FsError::NotFound),
        }
    }

    /// Returns the bytes of the file `id` from `offset` on, `size` of them or
    /// as many as there are before the end; none where `offset` is at or
    /// past the end. `NotFound` where there is no such inode, `IsADirectory`
    /// where it is a directory.
    pub fn read(&self, id: u64, offset: u64, size: u32) -> (bytes: Result<&[u8], FsError>)
        requires
            self.wf(),
        ensures
            match bytes {
                Ok(out) => self@.read(id, offset, size) == Ok::<Seq<u8>, FsError>(out@),
                Err(e) => self@.read(id, offset, size) == Err::<Seq<u8>, FsError>(e),
            },
    {
        match self.store.get(id) {
            None => Err(FsError::NotFound),
            Some(inode) => {
                if inode.attr.kind == FileKind::Directory {
                    Err(FsError::IsADirectory)
                } else {
                    Ok(read_bytes(inode.content.as_slice(), offset, size))
                }
            },
        }
    }

    /// Returns the directory that stands above the directory `id`, or `None`
    /// where `id` is no directory.
    fn above(&self, id: u64) -> (found: Option<u64>)
        requires
            self.wf(),
        ensures
            match found {
                Some(up) => self@.is_directory(id) && up == self@.above(id),
                None => !self@.is_directory(id),
            },
    {
        match self.store.get(id) {
            None => None,
            Some(dir) => {
                if dir.attr.kind != FileKind::Directory {
                    None
                } else {
                    match dir.parent {
                        Some(up) => Some(up),
                        None => Some(id),
                    }
                }
            },
        }
    }

    /// Returns the listing of the directory `parent` from the line at offset
    /// `start` on: `.` at offset 0, `..` at offset 1, then the children in
    /// ascending order of id. Each line gives the offset of the line after
    /// it, from which a later call goes on. `NotFound` where `parent` is no
    /// directory.
    pub fn readdir(&self, parent: u64, start: u64) -> (listed: Result<Vec<DirEntry>, FsError>)
        requires
            self.wf(),
        ensures
            match listed {
                Ok(lines) => self@.readdir(parent, start) == Ok::<Seq<DirEntryView>, FsError>(
                    lines_view(lines@),
                ),
                Err(e) => self@.readdir(parent, start) == Err::<Seq<DirEntryView>, FsError>(e),
            },
    {
        let above: u64 = match self.above(parent) {
            Some(id) => id,
            None => {
                return Err(FsError::NotFound);
            },
        };
        let mut lines: Vec<DirEntry> = Vec::new();
        if start == 0 {
            lines.push(
                DirEntry {
                    ino: parent,
                    next_offset: 1,
                    kind: FileKind::Directory,
                    name: ".".to_owned(),
                },
            );
        }
        if start <= 1 {
            lines.push(
                DirEntry {
                    ino: above,
                    next_offset: 2,
                    kind: FileKind::Directory,
                    name: "..".to_owned(),
                },
            );
        }
        let ghost held: Seq<Row> = Seq::empty();
        proof {
            lemma_len_below_next_id(self@);
            assert(self@.rows.take(0) =~= Seq::<Row>::empty());
            assert(self@.rows.take(0).filter(held_by(parent)) =~= held) by {
                reveal(Seq::filter);
            }
            assert(lines_view(lines@) =~= from_offset(listing_of(parent, above, held), start));
        }
        let mut offset: u64 = 2;
        let mut i: usize = 0;
        while i < self.store.len()
            invariant
                self.wf(),
                i <= self@.rows.len(),
                self@.rows.len() < self@.next_id,
                held == self@.rows.take(i as int).filter(held_by(parent)),
                offset == 2 + held.len(),
                i == 0 ==> held.len() == 0,
                i > 0 ==> held.len() < i,
                lines_view(lines@) == from_offset(listing_of(parent, above, held), start),
            decreases self@.rows.len() - i,
        {
            let ghost row = self@.rows[i as int];
            proof {
                assert(self@.rows.take(i + 1) =~= self@.rows.take(i as int).push(row));
                self@.rows.take(i as int).lemma_filter_push(row, held_by(parent));
                assert(!held_by(parent)(self@.rows[0]));
            }
            let ghost shown = lines@;
            match self.store.row(i) {
                Some((id, inode)) => {
                    if is_held_by(inode, parent) {
                        if offset >= start {
                            lines.push(
                                DirEntry {
                                    ino: id,
                                    next_offset: offset + 1,
                                    kind: inode.attr.kind,
                                    name: inode.name.clone(),
                                },
                            );
                        }
                        proof {
                            let longer = held.push(row);
                            let line = child_line(row, held.len() as int);
                            assert(listing_of(parent, above, longer) =~= listing_of(
                                parent,
                                above,
                                held,
                            ).push(line));
                            lemma_from_offset_push(listing_of(parent, above, held), line, start);
                            if offset >= start {
                                assert(lines_view(lines@) =~= lines_view(shown).push(line));
                            }
                            held = longer;
                        }
                        offset += 1;
                    }
                },
                None => {},
            }
            i += 1;
        }
        proof {
            assert(self@.rows.take(i as int) =~= self@.rows);
            lemma_index_of(self@.rows, index_of(self@.rows, parent));
        }
        Ok(lines)
    }

    /// Returns the line at offset `at` of the listing of the directory
    /// `parent`, or `None` where the listing ends before it: the listing
    /// one line at a time. `NotFound` where `parent` is no directory.
    pub fn readdir_line(&self, parent: u64, at: u64) -> (listed: Result<Option<DirEntry>, FsError>)
        requires
            self.wf(),
        ensures
            match listed {
                Ok(Some(line)) => self@.readdir_line(parent, at) == Ok::<
                    Option<DirEntryView>,
                    FsError,
                >(Some(line@)),
                Ok(None) => self@.readdir_line(parent, at) == Ok::<Option<DirEntryView>, FsError>(
                    None,
                ),
                Err(e) => self@.readdir_line(parent, at) == Err::<Option<DirEntryView>, FsError>(
                    e,
                ),
            },
    {
        let above: u64 = match self.above(parent) {
            Some(id) => id,
            None => {
                return Err(FsError::NotFound);
            },
        };
        proof {
            lemma_directory_is_root(self@, parent);
            lemma_children_of_root(self@);
            lemma_len_below_next_id(self@);
        }
        if at == 0 {
            return Ok(
                Some(
                    DirEntry {
                        ino: parent,
                        next_offset: 1,
                        kind: FileKind::Directory,
                        name: ".".to_owned(),
                    },
                ),
            );
        }
        if at == 1 {
            return Ok(
                Some(
                    DirEntry {
                        ino: above,
                        next_offset: 2,
                        kind: FileKind::Directory,
                        name: "..".to_owned(),
                    },
                ),
            );
        }
        if at > self.store.len() as u64 {
            return Ok(None);
        }
        match self.store.row((at - 1) as usize) {
            Some((id, inode)) => Ok(
                Some(
                    DirEntry {
                        ino: id,
                        next_offset: at + 1,
                        kind: inode.attr.kind,
                        name: inode.name.clone(),
                    },
                ),
            ),
            None => Ok(None),
        }
    }

    /// Creates an empty regular file `name` in the directory `parent`, at
    /// time `now`, and returns its attributes. The file gets the next id,
    /// the permission bits of `mode`, the owner `uid` and `gid`, one link,
    /// and `now` for each of its times. `NotFound` where `parent` is no
    /// directory, `AlreadyExists` where it has a child of exactly that name;
    /// the filesystem is then unchanged. The name must not be empty, and an
    /// id must be left after the one that the file takes.
    pub fn create_at(
        &mut self,
        parent: u64,
        name: &str,
        mode: u32,
        uid: u32,
        gid: u32,
        now: Timestamp,
    ) -> (created: Result<Attributes, FsError>)
        requires
            old(self).wf(),
            old(self)@.can_create(name@),
        ensures
            final(self).wf(),
            create_outcome(old(self)@, parent, name@, mode, uid, gid, now, final(self)@, created),
            final(self)@ == old(self)@.step(
                Op::Create { parent, name: name@, mode, uid, gid, now },
            ),
    {
        if !self.is_directory(parent) {
            return Err(FsError::NotFound);
        }
        if self.resolve(parent, name).is_some() {
            return Err(FsError::AlreadyExists);
        }
        let ghost before = self@;
        let id = self.allocator.next();
        let attr = Attributes::fresh(id, mode, uid, gid, now);
        let inode = Inode {
            attr,
            parent: Some(parent),
            name: name.to_owned(),
            content: Vec::new(),
        };
        proof {
            assert(is_rank(before.rows, id, before.rows.len() as int));
            lemma_rank(before.rows, id, before.rows.len() as int);
            if has_id(before.rows, id) {
                let i = index_of(before.rows, id);
                assert(before.rows[i].id < before.next_id);
            }
        }
        self.store.insert(id, inode);
        proof {
            let after = before.create(parent, name@, mode, uid, gid, now)->Ok_0;
            assert(self@.rows =~= after.rows);
            assert(self@ =~= after);
            lemma_create_wf(before, parent, name@, mode, uid, gid, now);
        }
        Ok(attr)
    }

    /// Creates an empty regular file as `create_at` does, at the time that
    /// the system clock gives.
    pub fn create(&mut self, parent: u64, name: &str, mode: u32, uid: u32, gid: u32) -> (created:
        Result<Attributes, FsError>)
        requires
            old(self).wf(),
            old(self)@.can_create(name@),
        ensures
            final(self).wf(),
            exists|now: Timestamp|
                now.wf() && #[trigger] create_outcome(
                    old(self)@,
                    parent,
                    name@,
                    mode,
                    uid,
                    gid,
                    now,
                    final(self)@,
                    created,
                ),
    {
        let now = current_time();
        let created = self.create_at(parent, name, mode, uid, gid, now);
        proof {
            assert(create_outcome(old(self)@, parent, name@, mode, uid, gid, now, self@, created));
        }
        created
    }

    /// Writes `data` into the file `id` at `offset`, at time `now`, and
    /// returns the number of bytes written, which is all of them. Bytes of
    /// the file outside the written range stay; a gap between the old end
    /// and `offset` is filled with zeros. The size follows the content, and
    /// the times of the last change become `now`. `NotFound` where there is
    /// no such inode, `IsADirectory` where it is a directory; the filesystem
    /// is then unchanged.
    pub fn write_at(&mut self, id: u64, offset: u64, data: &[u8], now: Timestamp) -> (written:
        Result<usize, FsError>)
        requires
            old(self).wf(),
            offset + data@.len() <= usize::MAX,
        ensures
            final(self).wf(),
            write_outcome(old(self)@, id, offset, data@, now, final(self)@, written),
            final(self)@ == old(self)@.step(Op::Write { id, offset, data: data@, now }),
    {
        let ghost before = self@;
        let result = match self.store.get_mut(id) {
            None => Err(FsError::NotFound),
            Some(inode) => {
                if inode.attr.kind == FileKind::Directory {
                    Err(FsError::IsADirectory)
                } else {
                    write_bytes(&mut inode.content, offset as usize, data);
                    inode.attr.size = inode.content.len() as u64;
                    inode.attr.mtime = now;
                    inode.attr.ctime = now;
                    Ok(data.len())
                }
            },
        };
        proof {
            if before.contains(id) {
                let i = index_of(before.rows, id);
                lemma_index_of(before.rows, i);
                if result is Ok {
                    let after = before.write(id, offset, data@, now)->Ok_0;
                    assert(self@.rows =~= after.rows);
                    assert(self@ =~= after);
                    lemma_write_wf(before, id, offset, data@, now);
                } else {
                    assert(self@.rows =~= before.rows);
                    assert(self@ =~= before);
                }
            }
        }
        result
    }

    /// Writes `data` into the file `id` at `offset` as `write_at` does, at the
    /// time that the system clock gives.
    pub fn write(&mut self, id: u64, offset: u64, data: &[u8]) -> (written: Result<usize, FsError>)
        requires
            old(self).wf(),
            offset + data@.len() <= usize::MAX,
        ensures
            final(self).wf(),
            exists|now: Timestamp|
                now.wf() && #[trigger] write_outcome(
                    old(self)@,
                    id,
                    offset,
                    data@,
                    now,
                    final(self)@,
                    written,
                ),
    {
        let now = current_time();
        let written = self.write_at(id, offset, data, now);
        proof {
            assert(write_outcome(old(self)@, id, offset, data@, now, self@, written));
        }
        written
    }

    /// Removes the child of `parent` whose name is exactly `name`: its inode
    /// leaves the table and its name is free again. `NotFound` where
    /// `parent` is no directory or has no such child; the filesystem is then
    /// unchanged.
    pub fn unlink(&mut self, parent: u64, name: &str) -> (removed: Result<(), FsError>)
        requires
            old(self).wf(),
        ensures
            final(self).wf(),
            unlink_outcome(old(self)@, parent, name@, final(self)@, removed),
            final(self)@ == old(self)@.step(Op::Unlink { parent, name: name@ }),
    {
        let ghost before = self@;
        match self.resolve(parent, name) {
            None => Err(FsError::NotFound),
            Some(id) => {
                proof {
                    lemma_unlink_wf(before, parent, name@);
                    lemma_index_of(before.rows, before.child_index(parent, name@));
                }
                self.store.remove(id);
                proof {
                    let after = before.unlink(parent, name@)->Ok_0;
                    assert(self@.rows =~= after.rows);
                    assert(self@ =~= after);
                }
                Ok(())
            },
        }
    }
}

/// Returns whether the directory `parent` holds the inode.
fn is_held_by(inode: &Inode, parent: u64) -> (yes: bool)
    ensures
        yes == (inode@.parent == Some(parent)),
{
    match inode.parent {
        Some(id) => id == parent,
        None => false,
    }
}

} // verus!
