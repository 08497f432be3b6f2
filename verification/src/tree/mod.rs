//! Command tree: commands and directories, const-initialisable and
//! stored in ROM.

pub mod completion;
pub mod path;

use vstd::prelude::*;
use crate::auth::AccessLevel;
use crate::text::str_eq;

verus! {

/// Command kind marker (sync or async).
#[derive(Debug, Copy, Clone, PartialEq, Eq)]
pub enum CommandKind {
    /// Synchronous command
    Sync,
    /// Asynchronous command (cannot run from the synchronous entry points)
    Async,
}

/// Command metadata (const-initialisable, no execution logic).
///
/// Execution goes through `CommandHandler`, which dispatches on `id`, so
/// names may repeat across directories.
#[derive(Debug, Clone)]
pub struct CommandMeta<L: AccessLevel> {
    /// Unique identifier for handler dispatch
    pub id: &'static str,
    /// Command name (display name, can duplicate across directories)
    pub name: &'static str,
    /// Command description (shown by ls command)
    pub description: &'static str,
    /// Minimum access level required
    pub access_level: L,
    /// Command kind (sync or async marker)
    pub kind: CommandKind,
    /// Minimum number of arguments
    pub min_args: usize,
    /// Maximum number of arguments
    pub max_args: usize,
}

/// Directory node containing child nodes.
#[derive(Debug, Clone)]
pub struct Directory<L: AccessLevel> {
    /// Directory name
    pub name: &'static str,
    /// Child nodes (commands and subdirectories)
    pub children: &'static [Node<L>],
    /// Minimum access level required to access this directory
    pub access_level: L,
}

/// Tree node (command or directory).
#[derive(Debug, Clone)]
pub enum Node<L: AccessLevel> {
    /// Command node (metadata only)
    Command(&'static CommandMeta<L>),
    /// Directory node
    Directory(&'static Directory<L>),
}

impl<L: AccessLevel> Node<L> {
    /// The node's name.
    pub open spec fn spec_name(&self) -> Seq<char> {
        match self {
            Node::Command(cmd) => cmd.name@,
            Node::Directory(dir) => dir.name@,
        }
    }

    /// The node's access level.
    pub open spec fn spec_level(&self) -> L {
        match self {
            Node::Command(cmd) => cmd.access_level,
            Node::Directory(dir) => dir.access_level,
        }
    }

    /// Check if this node is a command.
    pub fn is_command(&self) -> (r: bool)
        ensures
            r == (self is Command),
    {
        match self {
            Node::Command(_) => true,
            Node::Directory(_) => false,
        }
    }

    /// Check if this node is a directory.
    pub fn is_directory(&self) -> (r: bool)
        ensures
            r == (self is Directory),
    {
        match self {
            Node::Command(_) => false,
            Node::Directory(_) => true,
        }
    }

    /// Get node name.
    pub fn name(&self) -> (r: &'static str)
        ensures
            r@ == self.spec_name(),
    {
        match self {
            Node::Command(cmd) => cmd.name,
            Node::Directory(dir) => dir.name,
        }
    }

    /// Get node access level.
    pub fn access_level(&self) -> (r: L)
        ensures
            r == self.spec_level(),
    {
        match self {
            Node::Command(cmd) => cmd.access_level,
            Node::Directory(dir) => dir.access_level,
        }
    }
}

/// `i` is the first position in `children` whose node is named `name`.
pub open spec fn first_named<L: AccessLevel>(children: Seq<Node<L>>, name: Seq<char>, i: int) -> bool {
    &&& 0 <= i < children.len()
    &&& children[i].spec_name() == name
    &&& forall|j: int| 0 <= j < i ==> #[trigger] children[j].spec_name() != name
}

impl<L: AccessLevel> Directory<L> {
    /// Find child node by name (no access control).
    pub fn find_child(&self, name: &str) -> (r: Option<&Node<L>>)
        ensures
            match r {
                Some(n) => exists|i: int|
                    first_named(self.children@, name@, i) && *n == self.children@[i],
                None => forall|i: int|
                    0 <= i < self.children@.len() ==> #[trigger] self.children@[i].spec_name()
                        != name@,
            },
    {
        let mut i: usize = 0;
        while i < self.children.len()
            invariant
                i <= self.children@.len(),
                forall|j: int| 0 <= j < i ==> #[trigger] self.children@[j].spec_name() != name@,
            decreases self.children.len() - i,
        {
            let child = &self.children[i];
            if str_eq(child.name(), name) {
                assert(first_named(self.children@, name@, i as int));
                return Some(child);
            }
            i = i + 1;
        }
        None
    }
}

} // verus!
