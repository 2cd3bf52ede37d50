//! The filesystem as a mathematical value, and what each operation makes of it.

use vstd::prelude::*;
use vstd::string::StringSliceAdditionalSpecFns;
use crate::attr::{
    fresh_attributes, root_attributes, Attributes, FileKind, Timestamp, BLOCK_SIZE, ROOT_INO,
};
use crate::content::{read_range, written};
use crate::dir::{from_offset, DirEntryView};
use crate::error::FsError;
use crate::inode::InodeView;
use crate::store::{ascending, has_id, index_of, lemma_index_of, Row};

verus! {

/// The id of the sample file that a new filesystem holds.
pub const SAMPLE_INO: u64 = 2;

/// The name of the sample file.
pub const SAMPLE_NAME: &'static str = "fuse.txt";

/// The text of the sample file.
pub const SAMPLE_TEXT: &'static str = "This is a new file\n";

/// The first id that a new filesystem gives to a created file: the one above
/// the ids of the root and of the sample file.
pub const FIRST_FREE_INO: u64 = 3;

/// The attributes of the sample file as the filesystem starts with it. Its
/// size is the length of its text in bytes.
pub open spec fn sample_attributes() -> Attributes {
    Attributes {
        ino: SAMPLE_INO,
        size: SAMPLE_TEXT.spec_bytes().len() as u64,
        atime: Timestamp::epoch(),
        mtime: Timestamp::epoch(),
        ctime: Timestamp::epoch(),
        crtime: Timestamp::epoch(),
        kind: FileKind::RegularFile,
        perm: 0o644,
        nlink: 1,
        uid: 1000,
        gid: 1000,
        blksize: BLOCK_SIZE,
    }
}

/// The state of the filesystem: the table of inodes in ascending order of id,
/// and the id that the next created file gets.
#[verifier::ext_equal]
pub struct FsView {
    pub rows: Seq<Row>,
    pub next_id: u64,
}

/// An operation that may change the filesystem.
pub enum Op {
    Create { parent: u64, name: Seq<char>, mode: u32, uid: u32, gid: u32, now: Timestamp },
    Write { id: u64, offset: u64, data: Seq<u8>, now: Timestamp },
    Unlink { parent: u64, name: Seq<char> },
}

/// The rows that the directory `parent` holds.
pub open spec fn held_by(parent: u64) -> spec_fn(Row) -> bool {
    |row: Row| row.inode.parent == Some(parent)
}

/// The line that lists `row` as the child number `k` of its directory. The
/// two lines before the children take the offsets 0 and 1.
pub open spec fn child_line(row: Row, k: int) -> DirEntryView {
    DirEntryView {
        ino: row.id,
        next_offset: (k + 3) as u64,
        kind: row.inode.attr.kind,
        name: row.inode.name,
    }
}

/// The listing of the directory `dir` that stands under `above` and holds
/// `rows`: `.`, then `..`, then a line for each row. Each line gives the
/// offset of the line after it.
pub open spec fn listing_of(dir: u64, above: u64, rows: Seq<Row>) -> Seq<DirEntryView> {
    seq![
        DirEntryView { ino: dir, next_offset: 1, kind: FileKind::Directory, name: "."@ },
        DirEntryView { ino: above, next_offset: 2, kind: FileKind::Directory, name: ".."@ },
    ] + Seq::new(rows.len(), |k: int| child_line(rows[k], k))
}

/// The row agrees with itself: the inode carries the id it is held under, its
/// size is the length of its content, and a directory has no content.
pub open spec fn row_wf(row: Row) -> bool {
    &&& row.inode.attr.ino == row.id
    &&& row.inode.attr.size == row.inode.content.len()
    &&& row.inode.attr.kind == FileKind::Directory ==> row.inode.content.len() == 0
}

impl FsView {
    /// The state that a new filesystem starts in: the root directory and,
    /// in it, the sample file.
    pub open spec fn initial() -> FsView {
        FsView {
            rows: seq![
                Row {
                    id: ROOT_INO,
                    inode: InodeView {
                        attr: root_attributes(),
                        parent: None,
                        name: Seq::empty(),
                        content: Seq::empty(),
                    },
                },
                Row {
                    id: SAMPLE_INO,
                    inode: InodeView {
                        attr: sample_attributes(),
                        parent: Some(ROOT_INO),
                        name: SAMPLE_NAME@,
                        content: SAMPLE_TEXT.spec_bytes(),
                    },
                },
            ],
            next_id: FIRST_FREE_INO,
        }
    }

    /// What holds of every state that the operations reach: the ids ascend;
    /// the first row is the root directory, which has no parent; every other
    /// row is a regular file held by the root; no two children of one parent
    /// share a name, and no child has the empty name; and every id in use
    /// lies below the next one to be given.
    pub open spec fn wf(self) -> bool {
        &&& ascending(self.rows)
        &&& self.rows.len() > 0
        &&& self.rows[0].id == ROOT_INO
        &&& self.rows[0].inode.attr.kind == FileKind::Directory
        &&& self.rows[0].inode.parent is None
        &&& forall|i: int| 0 <= i < self.rows.len() ==> row_wf(#[trigger] self.rows[i])
        &&& forall|i: int|
            1 <= i < self.rows.len() ==> {
                &&& (#[trigger] self.rows[i]).inode.attr.kind == FileKind::RegularFile
                &&& self.rows[i].inode.parent == Some(ROOT_INO)
            }
        &&& forall|i: int, j: int|
            #![trigger self.rows[i], self.rows[j]]
            0 <= i < j < self.rows.len() && self.rows[i].inode.parent is Some
                && self.rows[i].inode.parent == self.rows[j].inode.parent
                ==> self.rows[i].inode.name != self.rows[j].inode.name
        &&& forall|i: int|
            0 <= i < self.rows.len() && (#[trigger] self.rows[i]).inode.parent is Some
                ==> self.rows[i].inode.name.len() > 0
        &&& forall|i: int|
            0 <= i < self.rows.len() ==> (#[trigger] self.rows[i]).id < self.next_id
    }

    /// An inode has the id.
    pub open spec fn contains(self, id: u64) -> bool {
        has_id(self.rows, id)
    }

    /// The inode that has the id.
    pub open spec fn inode(self, id: u64) -> InodeView
        recommends
            self.contains(id),
    {
        self.rows[index_of(self.rows, id)].inode
    }

    /// The id is that of a directory.
    pub open spec fn is_directory(self, id: u64) -> bool {
        self.contains(id) && self.inode(id).attr.kind == FileKind::Directory
    }

    /// Some inode is held by `parent` under `name`.
    pub open spec fn has_child(self, parent: u64, name: Seq<char>) -> bool {
        exists|i: int|
            0 <= i < self.rows.len() && (#[trigger] self.rows[i]).inode.is_child(
                parent,
                name,
            )
    }

    /// The index of the row that `parent` holds under `name`, where there is one.
    pub open spec fn child_index(self, parent: u64, name: Seq<char>) -> int {
        choose|i: int|
            0 <= i < self.rows.len() && (#[trigger] self.rows[i]).inode.is_child(
                parent,
                name,
            )
    }

    /// The id that `name` stands for in the directory `parent`: that of the
    /// child with exactly this name. There is none where `parent` is no
    /// inode or no directory, or has no such child.
    pub open spec fn resolve(self, parent: u64, name: Seq<char>) -> Option<u64> {
        if self.is_directory(parent) && self.has_child(parent, name) {
            Some(self.rows[self.child_index(parent, name)].id)
        } else {
            None
        }
    }

    /// The attributes of the child of `parent` named `name`.
    pub open spec fn lookup(self, parent: u64, name: Seq<char>) -> Result<Attributes, FsError> {
        match self.resolve(parent, name) {
            Some(id) => Ok(self.inode(id).attr),
            None => Err(FsError::NotFound),
        }
    }

    /// The attributes of the inode `id`.
    pub open spec fn getattr(self, id: u64) -> Result<Attributes, FsError> {
        if self.contains(id) {
            Ok(self.inode(id).attr)
        } else {
            Err(FsError::NotFound)
        }
    }

    /// The bytes that a read of `size` bytes at `offset` returns from the file `id`.
    pub open spec fn read(self, id: u64, offset: u64, size: u32) -> Result<Seq<u8>, FsError> {
        if !self.contains(id) {
            Err(FsError::NotFound)
        } else if self.inode(id).attr.kind == FileKind::Directory {
            Err(FsError::IsADirectory)
        } else {
            Ok(read_range(self.inode(id).content, offset as int, size as int))
        }
    }

    /// The rows that `parent` holds, in ascending order of id.
    pub open spec fn children(self, parent: u64) -> Seq<Row> {
        self.rows.filter(held_by(parent))
    }

    /// The directory that stands above the directory `id`; above the root
    /// stands the root itself.
    pub open spec fn above(self, id: u64) -> u64
        recommends
            self.is_directory(id),
    {
        match self.inode(id).parent {
            Some(parent) => parent,
            None => id,
        }
    }

    /// The whole listing of the directory `parent`: the directory itself as
    /// `.`, the directory above it as `..`, then its children in ascending
    /// order of id.
    pub open spec fn listing(self, parent: u64) -> Seq<DirEntryView>
        recommends
            self.is_directory(parent),
    {
        listing_of(parent, self.above(parent), self.children(parent))
    }

    /// The listing of the directory `parent` from the line at offset `start`
    /// on. `NotFound` where `parent` is no directory.
    pub open spec fn readdir(self, parent: u64, start: u64) -> Result<Seq<DirEntryView>, FsError> {
        if !self.is_directory(parent) {
            Err(FsError::NotFound)
        } else {
            Ok(from_offset(self.listing(parent), start))
        }
    }

    /// The line at offset `at` of the listing of the directory `parent`, or
    /// none where the listing ends before it. `NotFound` where `parent` is
    /// no directory.
    pub open spec fn readdir_line(self, parent: u64, at: u64) -> Result<
        Option<DirEntryView>,
        FsError,
    > {
        if !self.is_directory(parent) {
            Err(FsError::NotFound)
        } else if at < self.listing(parent).len() {
            Ok(Some(self.listing(parent)[at as int]))
        } else {
            Ok(None)
        }
    }

    /// A file of this name can be created: the name is not empty, and an id
    /// is left after the one that the file takes.
    pub open spec fn can_create(self, name: Seq<char>) -> bool {
        name.len() > 0 && self.next_id < u64::MAX
    }

    /// The state after a regular file `name` was created in `parent` at time
    /// `now`: one more row, under the next id, and the next id moved on by
    /// one. `NotFound` where `parent` is no directory, `AlreadyExists` where
    /// it has a child of that name.
    pub open spec fn create(
        self,
        parent: u64,
        name: Seq<char>,
        mode: u32,
        uid: u32,
        gid: u32,
        now: Timestamp,
    ) -> Result<FsView, FsError> {
        if !self.is_directory(parent) {
            Err(FsError::NotFound)
        } else if self.resolve(parent, name) is Some {
            Err(FsError::AlreadyExists)
        } else {
            Ok(
                FsView {
                    rows: self.rows.push(
                        Row {
                            id: self.next_id,
                            inode: InodeView {
                                attr: fresh_attributes(self.next_id, mode, uid, gid, now),
                                parent: Some(parent),
                                name,
                                content: Seq::empty(),
                            },
                        },
                    ),
                    next_id: (self.next_id + 1) as u64,
                },
            )
        }
    }

    /// The state after `data` was written into the file `id` at `offset` at
    /// time `now`: the content is overwritten and grown as `written` says,
    /// the size follows it, and the times of the last change are `now`.
    pub open spec fn write(self, id: u64, offset: u64, data: Seq<u8>, now: Timestamp) -> Result<
        FsView,
        FsError,
    > {
        if !self.contains(id) {
            Err(FsError::NotFound)
        } else if self.inode(id).attr.kind == FileKind::Directory {
            Err(FsError::IsADirectory)
        } else {
            let inode = self.inode(id);
            let content = written(inode.content, offset as int, data);
            Ok(
                FsView {
                    rows: self.rows.update(
                        index_of(self.rows, id),
                        Row {
                            id,
                            inode: InodeView {
                                attr: Attributes {
                                    size: content.len() as u64,
                                    mtime: now,
                                    ctime: now,
                                    ..inode.attr
                                },
                                content,
                                ..inode
                            },
                        },
                    ),
                    ..self
                },
            )
        }
    }

    /// The operation is one that the filesystem takes in this state: a
    /// creation names a file that can be created, and a write ends at an
    /// offset that the machine can address.
    pub open spec fn admits(self, op: Op) -> bool {
        match op {
            Op::Create { name, .. } => self.can_create(name),
            Op::Write { offset, data, .. } => offset + data.len() <= usize::MAX,
            Op::Unlink { .. } => true,
        }
    }

    /// The state after the operation: the one it leads to where it succeeds,
    /// and this one where it fails.
    pub open spec fn step(self, op: Op) -> FsView {
        match op {
            Op::Create { parent, name, mode, uid, gid, now } => match self.create(
                parent,
                name,
                mode,
                uid,
                gid,
                now,
            ) {
                Ok(after) => after,
                Err(_) => self,
            },
            Op::Write { id, offset, data, now } => match self.write(id, offset, data, now) {
                Ok(after) => after,
                Err(_) => self,
            },
            Op::Unlink { parent, name } => match self.unlink(parent, name) {
                Ok(after) => after,
                Err(_) => self,
            },
        }
    }

    /// The state after the operations, one after the other.
    pub open spec fn run(self, ops: Seq<Op>) -> FsView
        decreases ops.len(),
    {
        if ops.len() == 0 {
            self
        } else {
            self.run(ops.drop_last()).step(ops.last())
        }
    }

    /// The filesystem takes each of the operations in the state that those
    /// before it lead to.
    pub open spec fn admits_all(self, ops: Seq<Op>) -> bool {
        forall|k: int| 0 <= k < ops.len() ==> self.run(#[trigger] ops.take(k)).admits(ops[k])
    }

    /// The state after the child of `parent` named `name` was removed.
    pub open spec fn unlink(self, parent: u64, name: Seq<char>) -> Result<FsView, FsError> {
        if self.resolve(parent, name) is Some {
            Ok(FsView { rows: self.rows.remove(self.child_index(parent, name)), ..self })
        } else {
            Err(FsError::NotFound)
        }
    }
}

/// A write of `data` into the file `id` at `offset` at time `now` took the
/// state `before` to `after` and returned `written`: the state that `write`
/// gives and the length of `data`, or the error that `write` gives and the
/// state as it was.
pub open spec fn write_outcome(
    before: FsView,
    id: u64,
    offset: u64,
    data: Seq<u8>,
    now: Timestamp,
    after: FsView,
    written: Result<usize, FsError>,
) -> bool {
    match before.write(id, offset, data, now) {
        Ok(state) => after == state && written == Ok::<usize, FsError>(data.len() as usize),
        Err(e) => after == before && written == Err::<usize, FsError>(e),
    }
}

/// The creation of a regular file `name` in `parent` at time `now` took the
/// state `before` to `after` and returned `created`: the state that `create`
/// gives and the attributes of the new file, whose id is the next id of
/// `before`; or the error that `create` gives and the state as it was.
pub open spec fn create_outcome(
    before: FsView,
    parent: u64,
    name: Seq<char>,
    mode: u32,
    uid: u32,
    gid: u32,
    now: Timestamp,
    after: FsView,
    created: Result<Attributes, FsError>,
) -> bool {
    match before.create(parent, name, mode, uid, gid, now) {
        Ok(state) => after == state && created == Ok::<Attributes, FsError>(
            fresh_attributes(before.next_id, mode, uid, gid, now),
        ),
        Err(e) => after == before && created == Err::<Attributes, FsError>(e),
    }
}

/// The removal of the child of `parent` named `name` took the state `before`
/// to `after` and returned `removed`: the state that `unlink` gives, or the
/// error that `unlink` gives and the state as it was.
pub open spec fn unlink_outcome(
    before: FsView,
    parent: u64,
    name: Seq<char>,
    after: FsView,
    removed: Result<(), FsError>,
) -> bool {
    match before.unlink(parent, name) {
        Ok(state) => after == state && removed == Ok::<(), FsError>(()),
        Err(e) => after == before && removed == Err::<(), FsError>(e),
    }
}

/// The creation of a file that can be created keeps the state well formed.
pub proof fn lemma_create_wf(
    state: FsView,
    parent: u64,
    name: Seq<char>,
    mode: u32,
    uid: u32,
    gid: u32,
    now: Timestamp,
)
    requires
        state.wf(),
        state.can_create(name),
        state.create(parent, name, mode, uid, gid, now) is Ok,
    ensures
        state.create(parent, name, mode, uid, gid, now)->Ok_0.wf(),
{
    let after = state.create(parent, name, mode, uid, gid, now)->Ok_0;
    let n = state.rows.len() as int;
    lemma_directory_is_root(state, parent);
    assert forall|k: int| 0 <= k < after.rows.len() implies row_wf(
        #[trigger] after.rows[k],
    ) by {
        if k < n {
            assert(row_wf(state.rows[k]));
        }
    }
    assert forall|a: int, b: int| 0 <= a < b < after.rows.len() implies after.rows[a].id
        < after.rows[b].id by {
        if b < n {
            assert(state.rows[a].id < state.rows[b].id);
        } else {
            assert(state.rows[a].id < state.next_id);
        }
    }
    assert forall|a: int, b: int|
        #![trigger after.rows[a], after.rows[b]]
        0 <= a < b < after.rows.len() && after.rows[a].inode.parent is Some
            && after.rows[a].inode.parent
            == after.rows[b].inode.parent implies after.rows[a].inode.name
            != after.rows[b].inode.name by {
        if b < n {
            assert(state.rows[a].inode.name != state.rows[b].inode.name);
        } else {
            assert(!state.rows[a].inode.is_child(parent, name));
        }
    }
    assert forall|k: int| 1 <= k < after.rows.len() implies {
        &&& (#[trigger] after.rows[k]).inode.attr.kind == FileKind::RegularFile
        &&& after.rows[k].inode.parent == Some(ROOT_INO)
    } by {
        if k < n {
            assert(state.rows[k].inode.parent == Some(ROOT_INO));
        }
    }
    assert forall|k: int|
        0 <= k < after.rows.len() && (#[trigger] after.rows[k]).inode.parent is Some implies
        after.rows[k].inode.name.len() > 0 by {
        if k < n {
            assert(state.rows[k].inode.parent is Some);
        }
    }
    assert forall|k: int| 0 <= k < after.rows.len() implies (#[trigger] after.rows[k]).id
        < after.next_id by {
        if k < n {
            assert(state.rows[k].id < state.next_id);
        }
    }
}

/// A removal keeps the state well formed.
pub proof fn lemma_unlink_wf(state: FsView, parent: u64, name: Seq<char>)
    requires
        state.wf(),
        state.unlink(parent, name) is Ok,
    ensures
        state.unlink(parent, name)->Ok_0.wf(),
        1 <= state.child_index(parent, name) < state.rows.len(),
{
    let after = state.unlink(parent, name)->Ok_0;
    let i = state.child_index(parent, name);
    assert(0 <= i < state.rows.len() && state.rows[i].inode.is_child(parent, name));
    let back = |k: int| if k < i { k } else { k + 1 };
    assert forall|k: int| 0 <= k < after.rows.len() implies row_wf(
        #[trigger] after.rows[k],
    ) by {
        assert(row_wf(state.rows[back(k)]));
    }
    assert forall|a: int, b: int| 0 <= a < b < after.rows.len() implies after.rows[a].id
        < after.rows[b].id by {
        assert(state.rows[back(a)].id < state.rows[back(b)].id);
    }
    assert forall|a: int, b: int|
        #![trigger after.rows[a], after.rows[b]]
        0 <= a < b < after.rows.len() && after.rows[a].inode.parent is Some
            && after.rows[a].inode.parent
            == after.rows[b].inode.parent implies after.rows[a].inode.name
            != after.rows[b].inode.name by {
        assert(state.rows[back(a)].inode.name != state.rows[back(b)].inode.name);
    }
    assert forall|k: int| 1 <= k < after.rows.len() implies {
        &&& (#[trigger] after.rows[k]).inode.attr.kind == FileKind::RegularFile
        &&& after.rows[k].inode.parent == Some(ROOT_INO)
    } by {
        assert(state.rows[back(k)].inode.parent == Some(ROOT_INO));
    }
    assert forall|k: int|
        0 <= k < after.rows.len() && (#[trigger] after.rows[k]).inode.parent is Some implies
        after.rows[k].inode.name.len() > 0 by {
        assert(state.rows[back(k)].inode.parent is Some);
    }
    assert forall|k: int| 0 <= k < after.rows.len() implies (#[trigger] after.rows[k]).id
        < after.next_id by {
        assert(state.rows[back(k)].id < state.next_id);
    }
}

/// A write keeps the state well formed, as long as the content still fits
/// the size.
pub proof fn lemma_write_wf(state: FsView, id: u64, offset: u64, data: Seq<u8>, now: Timestamp)
    requires
        state.wf(),
        offset + data.len() <= u64::MAX,
        state.write(id, offset, data, now) is Ok,
    ensures
        state.write(id, offset, data, now)->Ok_0.wf(),
{
    let after = state.write(id, offset, data, now)->Ok_0;
    let i = index_of(state.rows, id);
    lemma_index_of(state.rows, i);
    assert forall|k: int| 0 <= k < after.rows.len() implies row_wf(
        #[trigger] after.rows[k],
    ) by {
        if k != i {
            assert(row_wf(state.rows[k]));
        }
    }
    assert forall|a: int, b: int| 0 <= a < b < after.rows.len() implies after.rows[a].id
        < after.rows[b].id by {
        assert(state.rows[a].id < state.rows[b].id);
    }
    assert forall|a: int, b: int|
        #![trigger after.rows[a], after.rows[b]]
        0 <= a < b < after.rows.len() && after.rows[a].inode.parent is Some
            && after.rows[a].inode.parent
            == after.rows[b].inode.parent implies after.rows[a].inode.name
            != after.rows[b].inode.name by {
        assert(state.rows[a].inode.name != state.rows[b].inode.name);
    }
    assert forall|k: int| 1 <= k < after.rows.len() implies {
        &&& (#[trigger] after.rows[k]).inode.attr.kind == FileKind::RegularFile
        &&& after.rows[k].inode.parent == Some(ROOT_INO)
    } by {
        assert(state.rows[k].inode.parent == Some(ROOT_INO));
    }
    assert forall|k: int|
        0 <= k < after.rows.len() && (#[trigger] after.rows[k]).inode.parent is Some implies
        after.rows[k].inode.name.len() > 0 by {
        assert(state.rows[k].inode.parent is Some);
    }
    assert forall|k: int| 0 <= k < after.rows.len() implies (#[trigger] after.rows[k]).id
        < after.next_id by {
        assert(state.rows[k].id < state.next_id);
    }
}

/// The text of the sample file is the 19 bytes that its characters stand for.
pub proof fn lemma_sample_text()
    ensures
        SAMPLE_TEXT.spec_bytes().len() == 19,
        forall|i: int| 0 <= i < 19 ==> SAMPLE_TEXT.spec_bytes()[i] == SAMPLE_TEXT@[i] as u8,
{
    broadcast use vstd::string::is_ascii_spec_bytes;

    reveal_strlit("This is a new file\n");
    assert(vstd::string::is_ascii(SAMPLE_TEXT));
}

/// The state that a new filesystem starts in is well formed.
pub proof fn lemma_initial_wf()
    ensures
        FsView::initial().wf(),
{
    lemma_sample_text();
    reveal_strlit("fuse.txt");
}

/// In a well-formed state the row `i` is the only one that its parent holds
/// under its name.
pub proof fn lemma_child_index(state: FsView, parent: u64, name: Seq<char>, i: int)
    requires
        state.wf(),
        0 <= i < state.rows.len(),
        state.rows[i].inode.is_child(parent, name),
    ensures
        state.has_child(parent, name),
        state.child_index(parent, name) == i,
{
    let j = state.child_index(parent, name);
    assert(0 <= j < state.rows.len() && state.rows[j].inode.is_child(parent, name));
}

/// A well-formed state has fewer rows than its next id: the ids ascend from
/// that of the root and stay below the next id.
pub proof fn lemma_len_below_next_id(state: FsView)
    requires
        state.wf(),
    ensures
        state.rows.len() < state.next_id,
{
    lemma_ids_grow(state, state.rows.len() - 1);
}

/// In a well-formed state the id of the row `i` is above `i`.
proof fn lemma_ids_grow(state: FsView, i: int)
    requires
        state.wf(),
        0 <= i < state.rows.len(),
    ensures
        state.rows[i].id > i,
    decreases i,
{
    if i > 0 {
        lemma_ids_grow(state, i - 1);
        assert(state.rows[i - 1].id < state.rows[i].id);
    }
}

/// In a well-formed state a directory holds fewer rows than the table has:
/// the root is held by none. So the offsets of a listing fit their type.
pub proof fn lemma_children_len(state: FsView, parent: u64)
    requires
        state.wf(),
    ensures
        state.children(parent).len() < state.rows.len(),
        state.children(parent).len() + 2 <= u64::MAX,
{
    let first = state.rows.take(1);
    let rest = state.rows.skip(1);
    assert(state.rows =~= first + rest);
    Seq::filter_distributes_over_add(first, rest, held_by(parent));
    assert(first.filter(held_by(parent)).len() == 0) by {
        reveal_with_fuel(Seq::filter, 2);
        assert(first.drop_last() =~= Seq::<Row>::empty());
        assert(!held_by(parent)(first.last()));
    }
    rest.lemma_filter_len(held_by(parent));
    lemma_len_below_next_id(state);
}

/// In a well-formed state the root holds every row but itself.
pub proof fn lemma_children_of_root(state: FsView)
    requires
        state.wf(),
    ensures
        state.children(ROOT_INO) == state.rows.skip(1),
{
    let first = state.rows.take(1);
    let rest = state.rows.skip(1);
    assert(state.rows =~= first + rest);
    Seq::filter_distributes_over_add(first, rest, held_by(ROOT_INO));
    assert(first.filter(held_by(ROOT_INO)) =~= Seq::<Row>::empty()) by {
        reveal_with_fuel(Seq::filter, 2);
        assert(first.drop_last() =~= Seq::<Row>::empty());
        assert(!held_by(ROOT_INO)(first.last()));
    }
    lemma_filter_all(rest, held_by(ROOT_INO));
    assert(Seq::<Row>::empty() + rest =~= rest);
}

/// A filter that every element passes keeps the sequence as it is.
proof fn lemma_filter_all(rows: Seq<Row>, pred: spec_fn(Row) -> bool)
    requires
        forall|i: int| 0 <= i < rows.len() ==> pred(#[trigger] rows[i]),
    ensures
        rows.filter(pred) == rows,
    decreases rows.len(),
{
    reveal(Seq::filter);
    if rows.len() > 0 {
        lemma_filter_all(rows.drop_last(), pred);
        assert(rows.drop_last().push(rows.last()) =~= rows);
    }
}

/// In a well-formed state the root is a directory, and the only one.
pub proof fn lemma_directory_is_root(state: FsView, id: u64)
    requires
        state.wf(),
    ensures
        state.is_directory(id) <==> id == ROOT_INO,
        state.contains(ROOT_INO),
        index_of(state.rows, ROOT_INO) == 0,
{
    lemma_index_of(state.rows, 0);
    if state.contains(id) {
        let i = index_of(state.rows, id);
        lemma_index_of(state.rows, i);
    }
}

} // verus!
