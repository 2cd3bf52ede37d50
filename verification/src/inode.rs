//! The inode: attributes, place in the namespace, and content.

use vstd::prelude::*;
use crate::attr::Attributes;

verus! {

/// One filesystem object.
#[derive(Clone, Debug, PartialEq, Eq)]
pub struct Inode {
    pub attr: Attributes,
    /// The directory that holds this inode; `None` for the root.
    pub parent: Option<u64>,
    /// The name under which the parent holds this inode.
    pub name: String,
    /// The bytes of a regular file; empty for a directory.
    pub content: Vec<u8>,
}

/// An inode as a mathematical value.
pub struct InodeView {
    pub attr: Attributes,
    pub parent: Option<u64>,
    pub name: Seq<char>,
    pub content: Seq<u8>,
}

impl View for Inode {
    type V = InodeView;

    open spec fn view(&self) -> InodeView {
        InodeView {
            attr: self.attr,
            parent: self.parent,
            name: self.name@,
            content: self.content@,
        }
    }
}

impl InodeView {
    /// The directory `parent` holds this inode under `name`.
    pub open spec fn is_child(self, parent: u64, name: Seq<char>) -> bool {
        self.parent == Some(parent) && self.name == name
    }
}

} // verus!
