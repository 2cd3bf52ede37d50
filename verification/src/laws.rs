//! Laws that relate the operations to each other. Each is stated of the
//! states and results that the contracts of the operations speak of.

use vstd::prelude::*;
use crate::attr::{fresh_attributes, Attributes, Timestamp, ROOT_INO};
use crate::content::{
    lemma_read_back, lemma_write_keeps_rest, lemma_write_past_end, read_range, written,
};
use crate::dir::{from_offset, DirEntryView};
use crate::error::FsError;
use crate::inode::InodeView;
use crate::model::{
    lemma_child_index, lemma_children_len, lemma_create_wf, lemma_directory_is_root,
    lemma_unlink_wf, lemma_write_wf, row_wf, FsView, Op,
};
use crate::store::{ascending, index_of, lemma_index_of};

verus! {

/// What a write does to the table: the file written to has the new content,
/// the size of it, and `now` as the times of its last change, and keeps its
/// other attributes, its parent and its name; every other inode is as it
/// was; and the same ids are in use.
pub proof fn law_write_effect(
    state: FsView,
    id: u64,
    offset: u64,
    data: Seq<u8>,
    now: Timestamp,
    other: u64,
)
    requires
        state.wf(),
        state.write(id, offset, data, now) is Ok,
    ensures
        ({
            let after = state.write(id, offset, data, now)->Ok_0;
            let content = written(state.inode(id).content, offset as int, data);
            &&& after.next_id == state.next_id
            &&& after.contains(other) == state.contains(other)
            &&& state.contains(other) && other != id ==> after.inode(other) == state.inode(other)
            &&& after.inode(id) == InodeView {
                attr: Attributes {
                    size: content.len() as u64,
                    mtime: now,
                    ctime: now,
                    ..state.inode(id).attr
                },
                content,
                ..state.inode(id)
            }
        }),
{
    let after = state.write(id, offset, data, now)->Ok_0;
    let i = index_of(state.rows, id);
    lemma_index_of(state.rows, i);
    assert(ascending(after.rows)) by {
        assert forall|a: int, b: int| 0 <= a < b < after.rows.len() implies after.rows[a].id
            < after.rows[b].id by {
            assert(state.rows[a].id < state.rows[b].id);
        }
    }
    lemma_index_of(after.rows, i);
    if state.contains(other) {
        let k = index_of(state.rows, other);
        lemma_index_of(state.rows, k);
        lemma_index_of(after.rows, k);
    }
    if after.contains(other) {
        let k = index_of(after.rows, other);
        lemma_index_of(after.rows, k);
        lemma_index_of(state.rows, k);
    }
}

/// What a creation does to the table: the new file is held under the id
/// that was next, empty, with the attributes of a fresh file, in `parent`
/// under `name`; every inode that was there is as it was; and the next id
/// has moved on by one.
pub proof fn law_create_effect(
    state: FsView,
    parent: u64,
    name: Seq<char>,
    mode: u32,
    uid: u32,
    gid: u32,
    now: Timestamp,
    other: u64,
)
    requires
        state.wf(),
        state.can_create(name),
        state.create(parent, name, mode, uid, gid, now) is Ok,
    ensures
        ({
            let after = state.create(parent, name, mode, uid, gid, now)->Ok_0;
            &&& after.next_id == state.next_id + 1
            &&& !state.contains(state.next_id)
            &&& after.contains(other) == (state.contains(other) || other == state.next_id)
            &&& state.contains(other) ==> after.inode(other) == state.inode(other)
            &&& after.inode(state.next_id) == InodeView {
                attr: fresh_attributes(state.next_id, mode, uid, gid, now),
                parent: Some(parent),
                name,
                content: Seq::empty(),
            }
        }),
{
    let after = state.create(parent, name, mode, uid, gid, now)->Ok_0;
    let n = state.rows.len() as int;
    lemma_create_wf(state, parent, name, mode, uid, gid, now);
    lemma_index_of(after.rows, n);
    if state.contains(state.next_id) {
        let k = index_of(state.rows, state.next_id);
        assert(state.rows[k].id < state.next_id);
    }
    if state.contains(other) {
        let k = index_of(state.rows, other);
        lemma_index_of(state.rows, k);
        lemma_index_of(after.rows, k);
    }
    if after.contains(other) {
        let k = index_of(after.rows, other);
        lemma_index_of(after.rows, k);
        if k < n {
            lemma_index_of(state.rows, k);
        }
    }
}

/// What a removal does to the table: the inode that `name` stood for in
/// `parent` is gone, and every other inode is as it was.
pub proof fn law_unlink_effect(state: FsView, parent: u64, name: Seq<char>, other: u64)
    requires
        state.wf(),
        state.unlink(parent, name) is Ok,
    ensures
        ({
            let after = state.unlink(parent, name)->Ok_0;
            let gone = state.resolve(parent, name)->Some_0;
            &&& after.next_id == state.next_id
            &&& state.contains(gone)
            &&& after.contains(other) == (state.contains(other) && other != gone)
            &&& after.contains(other) ==> after.inode(other) == state.inode(other)
        }),
{
    let after = state.unlink(parent, name)->Ok_0;
    let i = state.child_index(parent, name);
    lemma_unlink_wf(state, parent, name);
    lemma_index_of(state.rows, i);
    if state.contains(other) {
        let k = index_of(state.rows, other);
        lemma_index_of(state.rows, k);
        if k < i {
            lemma_index_of(after.rows, k);
        } else if k > i {
            lemma_index_of(after.rows, k - 1);
        }
    }
    if after.contains(other) {
        let k = index_of(after.rows, other);
        lemma_index_of(after.rows, k);
        if k < i {
            lemma_index_of(state.rows, k);
        } else {
            lemma_index_of(state.rows, k + 1);
        }
    }
}

/// A write changes what no name stands for.
pub proof fn law_write_keeps_names(
    state: FsView,
    id: u64,
    offset: u64,
    data: Seq<u8>,
    now: Timestamp,
    parent: u64,
    name: Seq<char>,
)
    requires
        state.wf(),
        offset + data.len() <= u64::MAX,
        state.write(id, offset, data, now) is Ok,
    ensures
        state.write(id, offset, data, now)->Ok_0.resolve(parent, name) == state.resolve(
            parent,
            name,
        ),
{
    let after = state.write(id, offset, data, now)->Ok_0;
    lemma_write_wf(state, id, offset, data, now);
    lemma_directory_is_root(state, parent);
    lemma_directory_is_root(after, parent);
    if state.has_child(parent, name) {
        let k = state.child_index(parent, name);
        assert(after.rows[k].inode.is_child(parent, name));
        lemma_child_index(after, parent, name, k);
    }
    if after.has_child(parent, name) {
        let k = after.child_index(parent, name);
        assert(state.rows[k].inode.is_child(parent, name));
        lemma_child_index(state, parent, name, k);
    }
}

/// After a creation the new name stands for the new file, and every other
/// name for what it stood for before.
pub proof fn law_create_names(
    state: FsView,
    parent: u64,
    name: Seq<char>,
    mode: u32,
    uid: u32,
    gid: u32,
    now: Timestamp,
    parent2: u64,
    name2: Seq<char>,
)
    requires
        state.wf(),
        state.can_create(name),
        state.create(parent, name, mode, uid, gid, now) is Ok,
    ensures
        state.create(parent, name, mode, uid, gid, now)->Ok_0.resolve(parent2, name2) == if parent2
            == parent && name2 == name {
            Some(state.next_id)
        } else {
            state.resolve(parent2, name2)
        },
{
    let after = state.create(parent, name, mode, uid, gid, now)->Ok_0;
    let n = state.rows.len() as int;
    lemma_create_wf(state, parent, name, mode, uid, gid, now);
    lemma_directory_is_root(state, parent);
    lemma_directory_is_root(state, parent2);
    lemma_directory_is_root(after, parent2);
    if parent2 == parent && name2 == name {
        assert(after.rows[n].inode.is_child(parent, name));
        lemma_child_index(after, parent, name, n);
    } else {
        if state.has_child(parent2, name2) {
            let k = state.child_index(parent2, name2);
            assert(after.rows[k].inode.is_child(parent2, name2));
            lemma_child_index(after, parent2, name2, k);
        }
        if after.has_child(parent2, name2) {
            let k = after.child_index(parent2, name2);
            assert(k < n);
            assert(state.rows[k].inode.is_child(parent2, name2));
            lemma_child_index(state, parent2, name2, k);
        }
    }
}

/// After a removal the removed name stands for nothing, and every other
/// name for what it stood for before.
pub proof fn law_unlink_names(
    state: FsView,
    parent: u64,
    name: Seq<char>,
    parent2: u64,
    name2: Seq<char>,
)
    requires
        state.wf(),
        state.unlink(parent, name) is Ok,
    ensures
        state.unlink(parent, name)->Ok_0.resolve(parent2, name2) == if parent2 == parent && name2
            == name {
            None
        } else {
            state.resolve(parent2, name2)
        },
{
    let after = state.unlink(parent, name)->Ok_0;
    let i = state.child_index(parent, name);
    lemma_unlink_wf(state, parent, name);
    lemma_child_index(state, parent, name, i);
    lemma_directory_is_root(state, parent2);
    lemma_directory_is_root(after, parent2);
    if state.has_child(parent2, name2) {
        let k = state.child_index(parent2, name2);
        lemma_child_index(state, parent2, name2, k);
        if k < i {
            assert(after.rows[k].inode.is_child(parent2, name2));
            lemma_child_index(after, parent2, name2, k);
        } else if k > i {
            assert(after.rows[k - 1].inode.is_child(parent2, name2));
            lemma_child_index(after, parent2, name2, k - 1);
        }
    }
    if after.has_child(parent2, name2) {
        let k = after.child_index(parent2, name2);
        let k0 = if k < i { k } else { k + 1 };
        assert(state.rows[k0].inode.is_child(parent2, name2));
        lemma_child_index(state, parent2, name2, k0);
    }
}

/// A file that was created is found under its name, with the attributes it
/// was created with.
pub proof fn law_lookup_created(
    state: FsView,
    parent: u64,
    name: Seq<char>,
    mode: u32,
    uid: u32,
    gid: u32,
    now: Timestamp,
)
    requires
        state.wf(),
        state.can_create(name),
        state.create(parent, name, mode, uid, gid, now) is Ok,
    ensures
        state.create(parent, name, mode, uid, gid, now)->Ok_0.lookup(parent, name) == Ok::<
            Attributes,
            FsError,
        >(fresh_attributes(state.next_id, mode, uid, gid, now)),
{
    law_create_names(state, parent, name, mode, uid, gid, now, parent, name);
    law_create_effect(state, parent, name, mode, uid, gid, now, state.next_id);
}

/// The creation of one file changes what no other name is looked up as.
pub proof fn law_lookup_after_create(
    state: FsView,
    parent: u64,
    name: Seq<char>,
    mode: u32,
    uid: u32,
    gid: u32,
    now: Timestamp,
    parent2: u64,
    name2: Seq<char>,
)
    requires
        state.wf(),
        state.can_create(name),
        state.create(parent, name, mode, uid, gid, now) is Ok,
        parent2 != parent || name2 != name,
    ensures
        state.create(parent, name, mode, uid, gid, now)->Ok_0.lookup(parent2, name2)
            == state.lookup(parent2, name2),
{
    law_create_names(state, parent, name, mode, uid, gid, now, parent2, name2);
    if state.resolve(parent2, name2) is Some {
        let child = state.resolve(parent2, name2)->Some_0;
        lemma_index_of(state.rows, state.child_index(parent2, name2));
        law_create_effect(state, parent, name, mode, uid, gid, now, child);
    }
}

/// The removal of one file changes what no other name is looked up as.
pub proof fn law_lookup_after_unlink(
    state: FsView,
    parent: u64,
    name: Seq<char>,
    parent2: u64,
    name2: Seq<char>,
)
    requires
        state.wf(),
        state.unlink(parent, name) is Ok,
        parent2 != parent || name2 != name,
    ensures
        state.unlink(parent, name)->Ok_0.lookup(parent2, name2) == state.lookup(parent2, name2),
{
    law_unlink_names(state, parent, name, parent2, name2);
    if state.resolve(parent2, name2) is Some {
        let child = state.resolve(parent2, name2)->Some_0;
        let k = state.child_index(parent2, name2);
        lemma_index_of(state.rows, k);
        lemma_child_index(state, parent, name, state.child_index(parent, name));
        lemma_index_of(state.rows, state.child_index(parent, name));
        law_unlink_effect(state, parent, name, child);
    }
}

/// After a write every name is looked up as the file it stood for, with the
/// attributes that the file now has: those it had, but for the size and the
/// times of the last change where it is the file written to.
pub proof fn law_lookup_after_write(
    state: FsView,
    id: u64,
    offset: u64,
    data: Seq<u8>,
    now: Timestamp,
    parent: u64,
    name: Seq<char>,
)
    requires
        state.wf(),
        offset + data.len() <= u64::MAX,
        state.write(id, offset, data, now) is Ok,
    ensures
        ({
            let after = state.write(id, offset, data, now)->Ok_0;
            match state.resolve(parent, name) {
                Some(child) => after.lookup(parent, name) == Ok::<Attributes, FsError>(
                    after.inode(child).attr,
                ) && (child != id ==> after.lookup(parent, name) == state.lookup(parent, name)),
                None => after.lookup(parent, name) == Err::<Attributes, FsError>(
                    FsError::NotFound,
                ),
            }
        }),
{
    law_write_keeps_names(state, id, offset, data, now, parent, name);
    if state.resolve(parent, name) is Some {
        let child = state.resolve(parent, name)->Some_0;
        lemma_index_of(state.rows, state.child_index(parent, name));
        law_write_effect(state, id, offset, data, now, child);
    }
}

/// A read of the range just written returns the data written.
pub proof fn law_read_your_write(state: FsView, id: u64, offset: u64, data: Seq<u8>, now: Timestamp)
    requires
        state.wf(),
        data.len() <= u32::MAX,
        state.write(id, offset, data, now) is Ok,
    ensures
        state.write(id, offset, data, now)->Ok_0.read(id, offset, data.len() as u32) == Ok::<
            Seq<u8>,
            FsError,
        >(data),
{
    law_write_effect(state, id, offset, data, now, id);
    lemma_read_back(state.inode(id).content, offset as int, data);
}

/// A write changes no byte outside the range it covers: a read of a range
/// that lies behind the written one, or before it and within the old
/// content, returns what it returned before the write.
pub proof fn law_write_keeps_other_bytes(
    state: FsView,
    id: u64,
    offset: u64,
    data: Seq<u8>,
    now: Timestamp,
    at: u64,
    size: u32,
)
    requires
        state.wf(),
        state.write(id, offset, data, now) is Ok,
        offset + data.len() <= at || (at + size <= offset && at + size
            <= state.inode(id).content.len()),
    ensures
        state.write(id, offset, data, now)->Ok_0.read(id, at, size) == state.read(id, at, size),
{
    law_write_effect(state, id, offset, data, now, id);
    lemma_write_keeps_rest(state.inode(id).content, offset as int, data, at as int, size as int);
}

/// A write changes no byte that was there and that it does not cover: such
/// a byte is read after the write as it was read before.
pub proof fn law_write_keeps_byte(
    state: FsView,
    id: u64,
    offset: u64,
    data: Seq<u8>,
    now: Timestamp,
    at: u64,
)
    requires
        state.wf(),
        state.write(id, offset, data, now) is Ok,
        at < state.inode(id).content.len(),
        at < offset || offset + data.len() <= at,
    ensures
        state.read(id, at, 1) == Ok::<Seq<u8>, FsError>(seq![state.inode(id).content[at as int]]),
        state.write(id, offset, data, now)->Ok_0.read(id, at, 1) == state.read(id, at, 1),
{
    law_write_effect(state, id, offset, data, now, id);
    let before = state.inode(id).content;
    let after = written(before, offset as int, data);
    assert(read_range(before, at as int, 1) =~= seq![before[at as int]]);
    assert(read_range(after, at as int, 1) =~= seq![before[at as int]]);
}

/// A write to one file changes neither the content nor the attributes of
/// another.
pub proof fn law_write_keeps_other_files(
    state: FsView,
    id: u64,
    offset: u64,
    data: Seq<u8>,
    now: Timestamp,
    other: u64,
    at: u64,
    size: u32,
)
    requires
        state.wf(),
        state.write(id, offset, data, now) is Ok,
        other != id,
    ensures
        state.write(id, offset, data, now)->Ok_0.read(other, at, size) == state.read(
            other,
            at,
            size,
        ),
        state.write(id, offset, data, now)->Ok_0.getattr(other) == state.getattr(other),
{
    law_write_effect(state, id, offset, data, now, other);
}

/// A write at or past the end of a file fills the gap with zeros: a read of
/// the whole file then returns the old content, a zero for each byte between
/// the old end and the offset, and the data.
pub proof fn law_write_past_end(state: FsView, id: u64, offset: u64, data: Seq<u8>, now: Timestamp)
    requires
        state.wf(),
        state.write(id, offset, data, now) is Ok,
        state.inode(id).attr.size <= offset,
        offset + data.len() <= u32::MAX,
    ensures
        state.write(id, offset, data, now)->Ok_0.read(id, 0, (offset + data.len()) as u32) == Ok::<
            Seq<u8>,
            FsError,
        >(
            state.inode(id).content + Seq::new(
                (offset - state.inode(id).attr.size) as nat,
                |i: int| 0u8,
            ) + data,
        ),
        state.write(id, offset, data, now)->Ok_0.getattr(id)->Ok_0.size == offset + data.len(),
{
    let i = index_of(state.rows, id);
    lemma_index_of(state.rows, i);
    assert(row_wf(state.rows[i]));
    law_write_effect(state, id, offset, data, now, id);
    lemma_write_past_end(state.inode(id).content, offset as int, data);
}

/// A name that was created cannot be created again: the second creation
/// fails with `AlreadyExists`, whatever else it asks for.
pub proof fn law_create_twice(
    state: FsView,
    parent: u64,
    name: Seq<char>,
    mode: u32,
    uid: u32,
    gid: u32,
    now: Timestamp,
    mode2: u32,
    uid2: u32,
    gid2: u32,
    now2: Timestamp,
)
    requires
        state.wf(),
        state.can_create(name),
        state.create(parent, name, mode, uid, gid, now) is Ok,
    ensures
        state.create(parent, name, mode, uid, gid, now)->Ok_0.create(
            parent,
            name,
            mode2,
            uid2,
            gid2,
            now2,
        ) == Err::<FsView, FsError>(FsError::AlreadyExists),
{
    let after = state.create(parent, name, mode, uid, gid, now)->Ok_0;
    law_create_names(state, parent, name, mode, uid, gid, now, parent, name);
    lemma_create_wf(state, parent, name, mode, uid, gid, now);
    lemma_directory_is_root(state, parent);
    lemma_directory_is_root(after, parent);
}

/// After one name was created, another name that the directory does not
/// hold can be created in it too. The two files get different ids, and each
/// name stands for its own file.
pub proof fn law_create_other_name(
    state: FsView,
    parent: u64,
    name: Seq<char>,
    mode: u32,
    uid: u32,
    gid: u32,
    now: Timestamp,
    name2: Seq<char>,
    mode2: u32,
    uid2: u32,
    gid2: u32,
    now2: Timestamp,
)
    requires
        state.wf(),
        state.can_create(name),
        state.create(parent, name, mode, uid, gid, now)->Ok_0.can_create(name2),
        state.create(parent, name, mode, uid, gid, now) is Ok,
        name2 != name,
        state.resolve(parent, name2) is None,
    ensures
        ({
            let first = state.create(parent, name, mode, uid, gid, now)->Ok_0;
            let second = first.create(parent, name2, mode2, uid2, gid2, now2);
            &&& second is Ok
            &&& second->Ok_0.resolve(parent, name) == Some(state.next_id)
            &&& second->Ok_0.resolve(parent, name2) == Some((state.next_id + 1) as u64)
        }),
{
    let first = state.create(parent, name, mode, uid, gid, now)->Ok_0;
    lemma_create_wf(state, parent, name, mode, uid, gid, now);
    lemma_directory_is_root(state, parent);
    lemma_directory_is_root(first, parent);
    law_create_names(state, parent, name, mode, uid, gid, now, parent, name2);
    law_create_names(state, parent, name, mode, uid, gid, now, parent, name);
    law_create_names(first, parent, name2, mode2, uid2, gid2, now2, parent, name);
    law_create_names(first, parent, name2, mode2, uid2, gid2, now2, parent, name2);
}

/// A name that was removed is not found any more.
pub proof fn law_unlink_then_lookup(state: FsView, parent: u64, name: Seq<char>)
    requires
        state.wf(),
        state.unlink(parent, name) is Ok,
    ensures
        state.unlink(parent, name)->Ok_0.lookup(parent, name) == Err::<Attributes, FsError>(
            FsError::NotFound,
        ),
{
    law_unlink_names(state, parent, name, parent, name);
}

/// A name can be removed if and only if it is found; the removal of a name
/// that is not found fails with `NotFound` and leaves the state as it was.
pub proof fn law_unlink_missing(state: FsView, parent: u64, name: Seq<char>)
    ensures
        state.unlink(parent, name) is Ok <==> state.lookup(parent, name) is Ok,
        state.lookup(parent, name) is Err ==> {
            &&& state.unlink(parent, name) == Err::<FsView, FsError>(FsError::NotFound)
            &&& state.step(Op::Unlink { parent, name }) == state
        },
{
}

/// A listing can be taken up again after any of its lines: line `k` of the
/// listing from `start` gives the offset `start + k + 1`, and the listing
/// from that offset is the rest after line `k`, no line left out and none
/// twice.
pub proof fn law_readdir_resumes(state: FsView, parent: u64, start: u64, k: int)
    requires
        state.wf(),
        state.readdir(parent, start) is Ok,
        0 <= k < state.readdir(parent, start)->Ok_0.len(),
    ensures
        ({
            let lines = state.readdir(parent, start)->Ok_0;
            &&& lines[k].next_offset == start + k + 1
            &&& state.readdir(parent, lines[k].next_offset) == Ok::<Seq<DirEntryView>, FsError>(
                lines.skip(k + 1),
            )
        }),
{
    let lines = state.readdir(parent, start)->Ok_0;
    let whole = state.listing(parent);
    lemma_children_len(state, parent);
    assert(lines[k] == whole[start + k]);
    assert(from_offset(whole, (start + k + 1) as u64) =~= lines.skip(k + 1));
}

/// The listing can be read one line at a time: the line at offset `at` is
/// the first line of the listing from `at`, and gives `at + 1` as the offset
/// to go on from; past the last line there is none.
pub proof fn law_readdir_line(state: FsView, parent: u64, at: u64)
    requires
        state.wf(),
        state.is_directory(parent),
    ensures
        match state.readdir_line(parent, at) {
            Ok(Some(line)) => {
                &&& state.readdir(parent, at)->Ok_0.len() > 0
                &&& line == state.readdir(parent, at)->Ok_0[0]
                &&& line.next_offset == at + 1
            },
            Ok(None) => state.readdir(parent, at) == Ok::<Seq<DirEntryView>, FsError>(Seq::empty()),
            Err(_) => false,
        },
{
    lemma_children_len(state, parent);
}

/// The listing from offset 0 is the whole listing, and the listing from any
/// offset `a` is the lines from `a` up to a later offset `b` followed by the
/// listing from `b`.
pub proof fn law_readdir_pages(state: FsView, parent: u64, a: u64, b: u64)
    requires
        state.is_directory(parent),
        a <= b <= state.listing(parent).len(),
    ensures
        state.readdir(parent, 0) == Ok::<Seq<DirEntryView>, FsError>(state.listing(parent)),
        state.readdir(parent, a)->Ok_0 == state.listing(parent).subrange(a as int, b as int)
            + state.readdir(parent, b)->Ok_0,
{
    let whole = state.listing(parent);
    assert(from_offset(whole, 0) =~= whole);
    assert(from_offset(whole, a) =~= whole.subrange(a as int, b as int) + from_offset(whole, b));
}

/// Every inode has an id of its own: a positive one, which the inode carries
/// in its attributes and which no other inode has.
pub proof fn law_ids(state: FsView, i: int, j: int)
    requires
        state.wf(),
        0 <= i < state.rows.len(),
        0 <= j < state.rows.len(),
    ensures
        state.rows[i].id >= ROOT_INO > 0,
        state.rows[i].inode.attr.ino == state.rows[i].id,
        state.rows[i].id == state.rows[j].id ==> i == j,
{
    assert(row_wf(state.rows[i]));
    if 0 < i {
        assert(state.rows[0].id < state.rows[i].id);
    }
    if i < j {
        assert(state.rows[i].id < state.rows[j].id);
    } else if j < i {
        assert(state.rows[j].id < state.rows[i].id);
    }
}

/// An operation that the filesystem takes keeps the state well formed. The
/// next id moves on by one where the operation is a creation that succeeds,
/// and stays where it is otherwise.
pub proof fn law_step_wf(state: FsView, op: Op)
    requires
        state.wf(),
        state.admits(op),
    ensures
        state.step(op).wf(),
        state.step(op).next_id == if op is Create && state.step(op) != state {
            state.next_id + 1
        } else {
            state.next_id as int
        },
{
    match op {
        Op::Create { parent, name, mode, uid, gid, now } => {
            if state.create(parent, name, mode, uid, gid, now) is Ok {
                lemma_create_wf(state, parent, name, mode, uid, gid, now);
            }
        },
        Op::Write { id, offset, data, now } => {
            if state.write(id, offset, data, now) is Ok {
                lemma_write_wf(state, id, offset, data, now);
            }
        },
        Op::Unlink { parent, name } => {
            if state.unlink(parent, name) is Ok {
                lemma_unlink_wf(state, parent, name);
            }
        },
    }
}

/// Every state that operations lead to from a well-formed state is well
/// formed: the root directory is there, and the only directory. The next id
/// is never below the one they started from.
pub proof fn law_run_wf(state: FsView, ops: Seq<Op>)
    requires
        state.wf(),
        state.admits_all(ops),
    ensures
        state.run(ops).wf(),
        state.run(ops).is_directory(ROOT_INO),
        forall|id: u64| state.run(ops).is_directory(id) ==> id == ROOT_INO,
        state.next_id <= state.run(ops).next_id,
    decreases ops.len(),
{
    if ops.len() > 0 {
        let front = ops.drop_last();
        lemma_admits_front(state, ops);
        law_run_wf(state, front);
        assert(ops.take(ops.len() - 1) =~= front);
        law_step_wf(state.run(front), ops.last());
    }
    assert forall|id: u64| state.run(ops).is_directory(id) implies id == ROOT_INO by {
        lemma_directory_is_root(state.run(ops), id);
    }
    lemma_directory_is_root(state.run(ops), ROOT_INO);
}

/// Where the filesystem takes each of the operations in turn, it takes those
/// before the last, and then the last.
proof fn lemma_admits_front(state: FsView, ops: Seq<Op>)
    requires
        state.admits_all(ops),
        ops.len() > 0,
    ensures
        state.admits_all(ops.drop_last()),
        state.run(ops.drop_last()).admits(ops.last()),
{
    let front = ops.drop_last();
    assert forall|k: int| 0 <= k < front.len() implies state.run(#[trigger] front.take(k)).admits(
        front[k],
    ) by {
        assert(front.take(k) =~= ops.take(k));
    }
    assert(ops.take(ops.len() - 1) =~= front);
}

/// A name stands for the same file for as long as it is not removed:
/// whatever is created, written or removed under other names, the name is
/// looked up as that file, with the attributes that the file then has.
pub proof fn law_lookup_until_unlinked(
    state: FsView,
    ops: Seq<Op>,
    parent: u64,
    name: Seq<char>,
)
    requires
        state.wf(),
        state.admits_all(ops),
        state.resolve(parent, name) is Some,
        forall|k: int| 0 <= k < ops.len() ==> ops[k] != (Op::Unlink { parent, name }),
    ensures
        state.run(ops).resolve(parent, name) == state.resolve(parent, name),
        state.run(ops).lookup(parent, name) == Ok::<Attributes, FsError>(
            state.run(ops).inode(state.resolve(parent, name)->Some_0).attr,
        ),
    decreases ops.len(),
{
    if ops.len() > 0 {
        let front = ops.drop_last();
        let before = state.run(front);
        lemma_admits_front(state, ops);
        law_run_wf(state, front);
        law_lookup_until_unlinked(state, front, parent, name);
        match ops.last() {
            Op::Create { parent: parent2, name: name2, mode, uid, gid, now } => {
                if before.create(parent2, name2, mode, uid, gid, now) is Ok {
                    if parent2 == parent && name2 == name {
                        lemma_directory_is_root(before, parent);
                    }
                    law_create_names(before, parent2, name2, mode, uid, gid, now, parent, name);
                }
            },
            Op::Write { id, offset, data, now } => {
                if before.write(id, offset, data, now) is Ok {
                    law_write_keeps_names(before, id, offset, data, now, parent, name);
                }
            },
            Op::Unlink { parent: parent2, name: name2 } => {
                if before.unlink(parent2, name2) is Ok {
                    assert(ops[ops.len() - 1] != (Op::Unlink { parent, name }));
                    assert(parent2 != parent || name2 != name);
                    law_unlink_names(before, parent2, name2, parent, name);
                }
            },
        }
    }
}

/// An id is given once: an id below the next one that no inode has is one
/// that was given before, and no operation brings it back.
pub proof fn law_id_not_reused(state: FsView, ops: Seq<Op>, id: u64)
    requires
        state.wf(),
        state.admits_all(ops),
        id < state.next_id,
        !state.contains(id),
    ensures
        !state.run(ops).contains(id),
    decreases ops.len(),
{
    if ops.len() > 0 {
        let front = ops.drop_last();
        let before = state.run(front);
        lemma_admits_front(state, ops);
        law_run_wf(state, front);
        law_id_not_reused(state, front, id);
        match ops.last() {
            Op::Create { parent, name, mode, uid, gid, now } => {
                if before.create(parent, name, mode, uid, gid, now) is Ok {
                    law_create_effect(before, parent, name, mode, uid, gid, now, id);
                }
            },
            Op::Write { id: target, offset, data, now } => {
                if before.write(target, offset, data, now) is Ok {
                    law_write_effect(before, target, offset, data, now, id);
                }
            },
            Op::Unlink { parent, name } => {
                if before.unlink(parent, name) is Ok {
                    law_unlink_effect(before, parent, name, id);
                }
            },
        }
    }
}

} // verus!
