//! Byte-range reads and writes on the content of one file.

use vstd::prelude::*;

verus! {

/// What a read of `size` bytes at `offset` returns from `content`: the bytes
/// from `offset` up to `offset + size` or the end of the content, whichever
/// comes first, and nothing when `offset` is at or past the end.
pub open spec fn read_range(content: Seq<u8>, offset: int, size: int) -> Seq<u8>
    recommends
        0 <= offset,
        0 <= size,
{
    if offset >= content.len() {
        Seq::empty()
    } else if offset + size >= content.len() {
        content.subrange(offset, content.len() as int)
    } else {
        content.subrange(offset, offset + size)
    }
}

/// The length of `content` after `len` bytes were written at `offset`.
pub open spec fn written_len(content_len: int, offset: int, len: int) -> int {
    if offset + len > content_len {
        offset + len
    } else {
        content_len
    }
}

/// The content after `data` was written at `offset`: `data` stands at
/// `offset`, every other byte of the old content is kept, and a gap between
/// the old end and `offset` holds zeros.
pub open spec fn written(content: Seq<u8>, offset: int, data: Seq<u8>) -> Seq<u8>
    recommends
        0 <= offset,
{
    Seq::new(
        written_len(content.len() as int, offset, data.len() as int) as nat,
        |i: int|
            if offset <= i < offset + data.len() {
                data[i - offset]
            } else if i < content.len() {
                content[i]
            } else {
                0u8
            },
    )
}

/// Returns the part of `content` that a read of `size` bytes at `offset` sees.
pub fn read_bytes(content: &[u8], offset: u64, size: u32) -> (out: &[u8])
    ensures
        out@ == read_range(content@, offset as int, size as int),
{
    let len: usize = content.len();
    if offset >= len as u64 {
        return vstd::slice::slice_subrange(content, 0, 0);
    }
    let start: usize = offset as usize;
    let rest: usize = len - start;
    let end: usize = if size as u64 >= rest as u64 {
        len
    } else {
        start + size as usize
    };
    vstd::slice::slice_subrange(content, start, end)
}

/// Writes `data` into `content` at `offset`, filling a gap with zeros and
/// growing the content as far as the write reaches.
pub fn write_bytes(content: &mut Vec<u8>, offset: usize, data: &[u8])
    requires
        offset + data@.len() <= usize::MAX,
    ensures
        final(content)@ == written(old(content)@, offset as int, data@),
{
    let ghost before: Seq<u8> = content@;
    while content.len() < offset
        invariant
            before.len() <= content@.len(),
            content@.len() <= offset || content@.len() == before.len(),
            forall|i: int| 0 <= i < before.len() ==> content@[i] == before[i],
            forall|i: int| before.len() <= i < content@.len() ==> content@[i] == 0u8,
        decreases offset - content@.len(),
    {
        content.push(0u8);
    }
    let ghost filled: Seq<u8> = content@;
    let mut k: usize = 0;
    while k < data.len()
        invariant
            k <= data@.len(),
            offset + data@.len() <= usize::MAX,
            filled.len() >= offset,
            content@.len() == written_len(filled.len() as int, offset as int, k as int),
            forall|i: int|
                0 <= i < content@.len() ==> content@[i] == if offset <= i < offset + k {
                    data@[i - offset]
                } else {
                    filled[i]
                },
        decreases data@.len() - k,
    {
        let at: usize = offset + k;
        if at < content.len() {
            content[at] = data[k];
        } else {
            content.push(data[k]);
        }
        k += 1;
    }
    assert(content@ =~= written(before, offset as int, data@));
}

/// A read of the bytes just written returns them.
pub proof fn lemma_read_back(content: Seq<u8>, offset: int, data: Seq<u8>)
    requires
        0 <= offset,
    ensures
        read_range(written(content, offset, data), offset, data.len() as int) == data,
{
    assert(read_range(written(content, offset, data), offset, data.len() as int) =~= data);
}

/// A write changes no byte outside the range it covers: a read of a range
/// that lies behind the written one, or before it and within the old
/// content, returns what it returned before the write.
pub proof fn lemma_write_keeps_rest(
    content: Seq<u8>,
    offset: int,
    data: Seq<u8>,
    at: int,
    size: int,
)
    requires
        0 <= offset,
        0 <= at,
        0 <= size,
        offset + data.len() <= at || (at + size <= offset && at + size <= content.len()),
    ensures
        read_range(written(content, offset, data), at, size) == read_range(content, at, size),
{
    assert(read_range(written(content, offset, data), at, size) =~= read_range(content, at, size));
}

/// A write past the end leaves zeros between the old end and its offset: the
/// content is then the old content, the zeros, and the data.
pub proof fn lemma_write_past_end(content: Seq<u8>, offset: int, data: Seq<u8>)
    requires
        content.len() <= offset,
    ensures
        written(content, offset, data) == content + Seq::new(
            (offset - content.len()) as nat,
            |i: int| 0u8,
        ) + data,
        read_range(written(content, offset, data), 0, offset + data.len()) == written(
            content,
            offset,
            data,
        ),
{
    let after = written(content, offset, data);
    assert(after =~= content + Seq::new((offset - content.len()) as nat, |i: int| 0u8) + data);
    assert(read_range(after, 0, offset + data.len()) =~= after);
}

} // verus!
