//! The category a diagnostic is filed under.

use vstd::prelude::*;

verus! {

#[derive(Debug, Clone, Copy, PartialEq, Eq, Structural, PartialOrd, Ord, Hash)]
pub enum Tag {
    /// Where a folder sits.
    Folder,
    /// What a file or folder is called.
    Naming,
    /// What a file exports.
    Content,
    /// How long a file is.
    Size,
    /// A tracked file whose language contradicts its root's declaration.
    Root,
}

impl Tag {
    pub open spec fn label(self) -> Seq<char> {
        match self {
            Tag::Folder => "folder"@,
            Tag::Naming => "naming"@,
            Tag::Content => "content"@,
            Tag::Size => "size"@,
            Tag::Root => "root"@,
        }
    }

    /// The position of a tag in declaration order, which is the order
    /// diagnostics on the same line are sorted in.
    pub open spec fn rank(self) -> int {
        match self {
            Tag::Folder => 0,
            Tag::Naming => 1,
            Tag::Content => 2,
            Tag::Size => 3,
            Tag::Root => 4,
        }
    }

    pub fn as_str(self) -> (res: &'static str)
        ensures
            res@ == self.label(),
    {
        match self {
            Tag::Folder => "folder",
            Tag::Naming => "naming",
            Tag::Content => "content",
            Tag::Size => "size",
            Tag::Root => "root",
        }
    }

    /// The position of this tag in declaration order.
    pub fn index(self) -> (res: u8)
        ensures
            res == self.rank(),
    {
        match self {
            Tag::Folder => 0,
            Tag::Naming => 1,
            Tag::Content => 2,
            Tag::Size => 3,
            Tag::Root => 4,
        }
    }
}

} // verus!
