//! The image of a directory tree that a walk works on.
//!
//! Reading the disk is the caller's business. What was read is handed over
//! as a tree of [`Entry`] values, names only; contracts speak of its
//! mathematical image, a tree of [`Node`] values.

use vstd::prelude::*;

verus! {

/// One entry of a directory.
#[derive(Debug, PartialEq, Eq)]
pub enum Entry {
    /// Anything that is not a directory.
    File { name: String },
    /// A directory with what it holds, or `None` where it could not be
    /// opened.
    Dir { name: String, contents: Option<Vec<Entry>> },
}

/// The mathematical image of an [`Entry`].
pub enum Node {
    File { name: Seq<char> },
    Dir { name: Seq<char>, contents: Option<Seq<Node>> },
}

impl Node {
    pub open spec fn name(self) -> Seq<char> {
        match self {
            Node::File { name } => name,
            Node::Dir { name, .. } => name,
        }
    }
}

/// The images of `entries`, in the same order.
pub open spec fn nodes(entries: Seq<Entry>) -> Seq<Node>
    decreases entries,
{
    Seq::new(
        entries.len(),
        |i: int|
            if 0 <= i < entries.len() {
                entries[i]@
            } else {
                arbitrary()
            },
    )
}

impl View for Entry {
    type V = Node;

    open spec fn view(&self) -> Node
        decreases self,
    {
        match self {
            Entry::File { name } => Node::File { name: name@ },
            Entry::Dir { name, contents } => Node::Dir {
                name: name@,
                contents: match contents {
                    Some(inner) => Some(nodes(inner@)),
                    None => None,
                },
            },
        }
    }
}

/// The image of what a scan of a directory found: `None` where the
/// directory could not be opened.
pub open spec fn scan_view(found: Option<Vec<Entry>>) -> Option<Seq<Node>> {
    match found {
        Some(entries) => Some(nodes(entries@)),
        None => None,
    }
}

impl Entry {
    /// The entry's own name, without the directories that lead to it.
    pub fn name(&self) -> (r: &str)
        ensures
            r@ == self@.name(),
    {
        match self {
            Entry::File { name } => name.as_str(),
            Entry::Dir { name, .. } => name.as_str(),
        }
    }
}

} // verus!
