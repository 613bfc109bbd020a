//! The module hierarchy as a mathematical tree, and what building and writing it mean.
//!
//! A flat file name such as `a.b.c.rs` encodes the path `a`, `b`, `c`. Building puts each file's
//! content at its path, creating the modules on the way; writing turns every module but the root
//! into a file that declares its submodules and then carries the module's own content.

use crate::response::{FileView, ResponseView};
use crate::text::{join, split, strip_once};
use vstd::prelude::*;

verus! {

/// One module of the hierarchy: the model of a [`ModuleTree`](crate::tree::ModuleTree).
pub struct Node {
    /// The module's own name: one segment of its path. Empty for the root.
    pub name: Seq<char>,
    /// The code generated for exactly this module, if any.
    pub content: Option<Seq<char>>,
    /// The submodules, in the order in which they were first seen.
    pub children: Seq<Node>,
}

/// Position of the first of `children` that is called `name`; their number if none is.
pub open spec fn position(children: Seq<Node>, name: Seq<char>) -> int
    decreases children.len(),
{
    if children.len() == 0 {
        0
    } else {
        let at = position(children.drop_last(), name);
        if at < children.len() - 1 || children.last().name == name {
            at
        } else {
            at + 1
        }
    }
}

/// The line that declares the submodule `name`.
pub open spec fn declaration(name: Seq<char>) -> Seq<char> {
    "pub mod "@ + name + ";\n"@
}

/// The declarations of `children`, one line each, in their order.
pub open spec fn declarations(children: Seq<Node>) -> Seq<char>
    decreases children.len(),
{
    if children.len() == 0 {
        Seq::empty()
    } else {
        declarations(children.drop_last()) + declaration(children.last().name)
    }
}

/// The name of the file for the module at `path`: the segments joined by `/`, then `.rs`.
pub open spec fn file_name(path: Seq<Seq<char>>) -> Seq<char> {
    join(path, "/"@) + ".rs"@
}

impl Node {
    /// The root of an empty hierarchy.
    pub open spec fn root() -> Node {
        Node { name: Seq::empty(), content: None, children: Seq::empty() }
    }

    /// A module called `name` with neither content nor submodules.
    pub open spec fn leaf(name: Seq<char>) -> Node {
        Node { name, content: None, children: Seq::empty() }
    }

    /// No two submodules of one module share a name, anywhere in the hierarchy.
    pub open spec fn unique_names(self) -> bool
        decreases self,
    {
        &&& forall|i: int, j: int|
            0 <= i < j < self.children.len() ==> self.children[i].name != self.children[j].name
        &&& forall|i: int|
            0 <= i < self.children.len() ==> (#[trigger] self.children[i]).unique_names()
    }

    /// Every module below this one has a name that is not empty.
    pub open spec fn names_non_empty(self) -> bool
        decreases self,
    {
        forall|i: int|
            0 <= i < self.children.len() ==> {
                &&& (#[trigger] self.children[i]).name.len() > 0
                &&& self.children[i].names_non_empty()
            }
    }

    /// The hierarchy after `content` was put at `path` below this node.
    ///
    /// Each segment is looked up among the submodules by name; a missing submodule is added
    /// behind its siblings. The module at the end of the path gets `content` in place of
    /// whatever it held.
    pub open spec fn insert(self, path: Seq<Seq<char>>, content: Option<Seq<char>>) -> Node
        decreases path.len(),
    {
        if path.len() == 0 {
            Node { content, ..self }
        } else {
            let at = position(self.children, path[0]);
            if at < self.children.len() {
                let child = self.children[at].insert(path.drop_first(), content);
                Node { children: self.children.update(at, child), ..self }
            } else {
                let child = Node::leaf(path[0]).insert(path.drop_first(), content);
                Node { children: self.children.push(child), ..self }
            }
        }
    }

    /// The module found by following `path` from this node, if there is one.
    pub open spec fn descendant(self, path: Seq<Seq<char>>) -> Option<Node>
        decreases path.len(),
    {
        if path.len() == 0 {
            Some(self)
        } else {
            let at = position(self.children, path[0]);
            if at < self.children.len() {
                self.children[at].descendant(path.drop_first())
            } else {
                None
            }
        }
    }

    /// Whether this hierarchy holds `before` and only adds to it: at every level the modules of
    /// `before` are still there, under their names and in their places, and new ones stand
    /// behind them.
    pub open spec fn extends(self, before: Node) -> bool
        decreases before,
    {
        &&& self.name == before.name
        &&& before.children.len() <= self.children.len()
        &&& forall|i: int|
            0 <= i < before.children.len() ==> self.children[i].extends(
                #[trigger] before.children[i],
            )
    }

    /// The text of this module's file: the declarations of its submodules, then its own content,
    /// with an empty line between the two where both are there.
    pub open spec fn body(self) -> Seq<char> {
        let declared = declarations(self.children);
        match self.content {
            None => declared,
            Some(text) => if declared.len() > 0 {
                declared + "\n"@ + text
            } else {
                text
            },
        }
    }

    /// This module's own file, when the module is found at `path`.
    pub open spec fn file(self, path: Seq<Seq<char>>) -> FileView {
        FileView { name: Some(file_name(path)), insertion_point: None, content: Some(self.body()) }
    }

    /// The files of this module and of everything below it, when the module is found at `path`:
    /// first those of each submodule in turn, then the module's own.
    pub open spec fn files(self, path: Seq<Seq<char>>) -> Seq<FileView>
        decreases self, 1nat, 0nat,
    {
        self.files_below(path, self.children.len()).push(self.file(path))
    }

    /// The files of the first `n` submodules and of everything below them.
    pub open spec fn files_below(self, path: Seq<Seq<char>>, n: nat) -> Seq<FileView>
        decreases self, 0nat, n,
    {
        if n == 0 || n > self.children.len() {
            Seq::empty()
        } else {
            let child = self.children[n - 1];
            self.files_below(path, (n - 1) as nat) + child.files(path.push(child.name))
        }
    }

    /// Number of modules in this hierarchy, this one included.
    pub open spec fn size(self) -> nat
        decreases self, 1nat, 0nat,
    {
        self.size_below(self.children.len()) + 1
    }

    /// Number of modules in the hierarchies of the first `n` submodules.
    pub open spec fn size_below(self, n: nat) -> nat
        decreases self, 0nat, n,
    {
        if n == 0 || n > self.children.len() {
            0
        } else {
            self.size_below((n - 1) as nat) + self.children[n - 1].size()
        }
    }
}

/// Whether every segment of `path` holds at least one character.
pub open spec fn no_empty_segment(path: Seq<Seq<char>>) -> bool {
    forall|i: int| 0 <= i < path.len() ==> (#[trigger] path[i]).len() > 0
}

/// The path that a flat file name encodes: the name without its trailing `.rs`, cut at the dots.
///
/// Only one `.rs` is taken off: the file `a.rs.rs` is the module `rs` below `a`.
pub open spec fn segments(name: Seq<char>) -> Seq<Seq<char>> {
    split(strip_once(name, ".rs"@), '.')
}

/// Whether no file of `files` has an empty segment in the path that its name encodes.
pub open spec fn no_empty_segment_in(files: Seq<FileView>) -> bool {
    forall|i: int|
        0 <= i < files.len() && (#[trigger] files[i]).name is Some ==> no_empty_segment(
            segments(files[i].name.unwrap()),
        )
}

/// The hierarchy that holds `files`, each put at the path that its name encodes, in their order.
/// A file without a name is passed over.
pub open spec fn planted(files: Seq<FileView>) -> Node
    decreases files.len(),
{
    if files.len() == 0 {
        Node::root()
    } else {
        let before = planted(files.drop_last());
        match files.last().name {
            Some(name) => before.insert(segments(name), files.last().content),
            None => before,
        }
    }
}

/// The hierarchy of a response's files. A response that reports a failure gives the empty
/// hierarchy.
pub open spec fn hierarchy(response: ResponseView) -> Node {
    if response.error is Some {
        Node::root()
    } else {
        planted(response.file)
    }
}

/// The files of a hierarchy: those of each top-level module in turn. The root has no file.
pub open spec fn written(root: Node) -> Seq<FileView> {
    root.files_below(Seq::empty(), root.children.len())
}

} // verus!
