//! The lines of a directory listing.

use vstd::prelude::*;
use crate::attr::FileKind;

verus! {

/// One line of a directory listing: an inode and the name it is listed under.
#[derive(Clone, Debug, PartialEq, Eq)]
pub struct DirEntry {
    pub ino: u64,
    /// The offset at which a listing goes on after this line.
    pub next_offset: u64,
    pub kind: FileKind,
    pub name: String,
}

/// A line of a directory listing as a mathematical value.
pub struct DirEntryView {
    pub ino: u64,
    pub next_offset: u64,
    pub kind: FileKind,
    pub name: Seq<char>,
}

impl View for DirEntry {
    type V = DirEntryView;

    open spec fn view(&self) -> DirEntryView {
        DirEntryView {
            ino: self.ino,
            next_offset: self.next_offset,
            kind: self.kind,
            name: self.name@,
        }
    }
}

/// The lines as mathematical values.
pub open spec fn lines_view(lines: Seq<DirEntry>) -> Seq<DirEntryView> {
    Seq::new(lines.len(), |i: int| lines[i]@)
}

/// The sequence from the offset `start` on; empty where `start` is at or
/// past its end.
pub open spec fn from_offset<A>(lines: Seq<A>, start: u64) -> Seq<A> {
    if start >= lines.len() {
        Seq::empty()
    } else {
        lines.skip(start as int)
    }
}

/// One more line at the end shows from every offset up to the old end, and
/// from no offset past it.
pub proof fn lemma_from_offset_push<A>(lines: Seq<A>, line: A, start: u64)
    ensures
        from_offset(lines.push(line), start) == if start <= lines.len() {
            from_offset(lines, start).push(line)
        } else {
            Seq::empty()
        },
{
    if start <= lines.len() {
        assert(from_offset(lines.push(line), start) =~= from_offset(lines, start).push(line));
    }
}

} // verus!
