//! What holds of every hierarchy, however it was built.

use crate::model::{
    hierarchy, no_empty_segment, no_empty_segment_in, planted, position, segments, written, Node,
};
use crate::response::{FileView, ResponseView};
use crate::text::lemma_split_len;
use vstd::prelude::*;

verus! {

/// The position of a name is where the first child of that name stands: no child before it
/// has the name, and the child there has it, unless no child has it at all.
pub proof fn lemma_position(children: Seq<Node>, name: Seq<char>)
    ensures
        0 <= position(children, name) <= children.len(),
        forall|j: int| 0 <= j < position(children, name) ==> (#[trigger] children[j]).name != name,
        position(children, name) < children.len() ==> children[position(children, name)].name
            == name,
    decreases children.len(),
{
    if children.len() > 0 {
        lemma_position(children.drop_last(), name);
        let at = position(children.drop_last(), name);
        let found = position(children, name);
        assert forall|j: int| 0 <= j < found implies (#[trigger] children[j]).name != name by {
            if j < children.len() - 1 {
                assert(children.drop_last()[j] == children[j]);
            }
        }
        if at < children.len() - 1 {
            assert(children.drop_last()[at] == children[at]);
        }
    }
}

/// Only one place fits the description of [`lemma_position`].
pub proof fn lemma_position_is(children: Seq<Node>, name: Seq<char>, at: int)
    requires
        0 <= at <= children.len(),
        forall|j: int| 0 <= j < at ==> (#[trigger] children[j]).name != name,
        at < children.len() ==> children[at].name == name,
    ensures
        position(children, name) == at,
{
    lemma_position(children, name);
    let found = position(children, name);
    if found < at {
        assert(children[found].name != name);
    } else if at < found {
        assert(children[at].name != name);
    }
}

/// Putting content somewhere below a module leaves the module its name.
pub proof fn lemma_insert_keeps_name(node: Node, path: Seq<Seq<char>>, content: Option<Seq<char>>)
    ensures
        node.insert(path, content).name == node.name,
{
}

/// Every hierarchy extends itself.
pub proof fn lemma_extends_itself(node: Node)
    ensures
        node.extends(node),
    decreases node,
{
    assert forall|i: int| 0 <= i < node.children.len() implies node.children[i].extends(
        #[trigger] node.children[i],
    ) by {
        lemma_extends_itself(node.children[i]);
    }
}

/// Extending is transitive.
pub proof fn lemma_extends_further(last: Node, middle: Node, first: Node)
    requires
        last.extends(middle),
        middle.extends(first),
    ensures
        last.extends(first),
    decreases first,
{
    assert forall|i: int| 0 <= i < first.children.len() implies last.children[i].extends(
        #[trigger] first.children[i],
    ) by {
        assert(middle.children[i].extends(first.children[i]));
        assert(last.children[i].extends(middle.children[i]));
        lemma_extends_further(last.children[i], middle.children[i], first.children[i]);
    }
}

/// Siblings stay in the order in which they were first seen: putting content into a hierarchy
/// leaves every module that was there under its name and in its place, at every level, and a
/// new module comes behind its siblings.
pub proof fn lemma_insert_extends(node: Node, path: Seq<Seq<char>>, content: Option<Seq<char>>)
    ensures
        node.insert(path, content).extends(node),
        path.len() > 0 && position(node.children, path[0]) == node.children.len() ==> {
            &&& node.insert(path, content).children.len() == node.children.len() + 1
            &&& node.insert(path, content).children.last().name == path[0]
        },
        path.len() == 0 || position(node.children, path[0]) < node.children.len()
            ==> node.insert(path, content).children.len() == node.children.len(),
    decreases path.len(),
{
    let after = node.insert(path, content);
    if path.len() > 0 {
        let at = position(node.children, path[0]);
        lemma_position(node.children, path[0]);
        if at < node.children.len() {
            lemma_insert_extends(node.children[at], path.drop_first(), content);
        } else {
            lemma_insert_keeps_name(Node::leaf(path[0]), path.drop_first(), content);
        }
    }
    assert forall|i: int| 0 <= i < node.children.len() implies after.children[i].extends(
        #[trigger] node.children[i],
    ) by {
        if path.len() == 0 || i != position(node.children, path[0]) {
            lemma_extends_itself(node.children[i]);
        }
    }
}

/// Sibling names stay unique: where no two submodules of one module share a name, none do
/// after content was put into the hierarchy.
pub proof fn lemma_insert_keeps_unique_names(
    node: Node,
    path: Seq<Seq<char>>,
    content: Option<Seq<char>>,
)
    requires
        node.unique_names(),
    ensures
        node.insert(path, content).unique_names(),
    decreases path.len(),
{
    let after = node.insert(path, content);
    let grown = after.children;
    if path.len() > 0 {
        let at = position(node.children, path[0]);
        lemma_position(node.children, path[0]);
        if at < node.children.len() {
            let child = node.children[at];
            assert(child.unique_names());
            lemma_insert_keeps_unique_names(child, path.drop_first(), content);
            lemma_insert_keeps_name(child, path.drop_first(), content);
            assert forall|i: int| 0 <= i < grown.len() implies (#[trigger] grown[i]).unique_names(
            ) by {
                if i != at {
                    assert(node.children[i].unique_names());
                }
            }
            assert forall|i: int, j: int| 0 <= i < j < grown.len() implies grown[i].name
                != grown[j].name by {
                assert(after.children[i].name == node.children[i].name);
                assert(after.children[j].name == node.children[j].name);
            }
        } else {
            let fresh = Node::leaf(path[0]);
            assert(fresh.unique_names());
            lemma_insert_keeps_unique_names(fresh, path.drop_first(), content);
            lemma_insert_keeps_name(fresh, path.drop_first(), content);
            assert forall|i: int| 0 <= i < grown.len() implies (#[trigger] grown[i]).unique_names(
            ) by {
                if i < node.children.len() {
                    assert(node.children[i].unique_names());
                }
            }
            assert forall|i: int, j: int| 0 <= i < j < grown.len() implies grown[i].name
                != grown[j].name by {
                assert(after.children[i].name == node.children[i].name);
                if j < node.children.len() {
                    assert(after.children[j].name == node.children[j].name);
                }
            }
        }
    } else {
        assert forall|i: int| 0 <= i < grown.len() implies (#[trigger] grown[i]).unique_names() by {
            assert(node.children[i].unique_names());
        }
    }
}

/// Names stay non-empty: where every module below the root has a name, every module has one
/// after content was put at a path without an empty segment.
pub proof fn lemma_insert_keeps_names_non_empty(
    node: Node,
    path: Seq<Seq<char>>,
    content: Option<Seq<char>>,
)
    requires
        node.names_non_empty(),
        no_empty_segment(path),
    ensures
        node.insert(path, content).names_non_empty(),
    decreases path.len(),
{
    let grown = node.insert(path, content).children;
    if path.len() > 0 {
        let rest = path.drop_first();
        let at = position(node.children, path[0]);
        lemma_position(node.children, path[0]);
        let child = if at < node.children.len() {
            node.children[at]
        } else {
            Node::leaf(path[0])
        };
        assert(path[0].len() > 0);
        assert forall|i: int| 0 <= i < rest.len() implies (#[trigger] rest[i]).len() > 0 by {
            assert(rest[i] == path[i + 1]);
        }
        assert(child.names_non_empty());
        lemma_insert_keeps_names_non_empty(child, rest, content);
        lemma_insert_keeps_name(child, rest, content);
        assert forall|i: int| 0 <= i < grown.len() implies (#[trigger] grown[i]).name.len() > 0
            && grown[i].names_non_empty() by {
            if i != at {
                assert(grown[i] == node.children[i]);
            }
        }
    } else {
        assert forall|i: int| 0 <= i < grown.len() implies (#[trigger] grown[i]).name.len() > 0
            && grown[i].names_non_empty() by {
            assert(grown[i] == node.children[i]);
        }
    }
}

/// The later content wins: content put where other content was put before replaces it, and
/// nothing else remembers the earlier one.
pub proof fn lemma_insert_overwrites(
    node: Node,
    path: Seq<Seq<char>>,
    earlier: Option<Seq<char>>,
    later: Option<Seq<char>>,
)
    ensures
        node.insert(path, earlier).insert(path, later) == node.insert(path, later),
    decreases path.len(),
{
    let between = node.insert(path, earlier);
    if path.len() > 0 {
        let rest = path.drop_first();
        let at = position(node.children, path[0]);
        lemma_position(node.children, path[0]);
        let child = if at < node.children.len() {
            node.children[at]
        } else {
            Node::leaf(path[0])
        };
        lemma_insert_keeps_name(child, rest, earlier);
        lemma_insert_overwrites(child, rest, earlier, later);
        assert forall|j: int| 0 <= j < at implies (#[trigger] between.children[j]).name
            != path[0] by {
            assert(between.children[j] == node.children[j]);
        }
        lemma_position_is(between.children, path[0], at);
        assert(between.insert(path, later).children =~= node.insert(path, later).children);
    }
}

/// Content is found where it was put: the module at the end of the path is there afterwards
/// and holds the content.
pub proof fn lemma_insert_then_descendant(
    node: Node,
    path: Seq<Seq<char>>,
    content: Option<Seq<char>>,
)
    ensures
        node.insert(path, content).descendant(path) is Some,
        node.insert(path, content).descendant(path).unwrap().content == content,
    decreases path.len(),
{
    let after = node.insert(path, content);
    if path.len() > 0 {
        let rest = path.drop_first();
        let at = position(node.children, path[0]);
        lemma_position(node.children, path[0]);
        let child = if at < node.children.len() {
            node.children[at]
        } else {
            Node::leaf(path[0])
        };
        lemma_insert_keeps_name(child, rest, content);
        lemma_insert_then_descendant(child, rest, content);
        assert forall|j: int| 0 <= j < at implies (#[trigger] after.children[j]).name
            != path[0] by {
            assert(after.children[j] == node.children[j]);
        }
        lemma_position_is(after.children, path[0], at);
    }
}

/// Content that is put at one path leaves the modules at every other path what they held.
pub proof fn lemma_insert_keeps_other_content(
    node: Node,
    path: Seq<Seq<char>>,
    content: Option<Seq<char>>,
    other: Seq<Seq<char>>,
)
    requires
        other != path,
        node.descendant(other) is Some,
    ensures
        node.insert(path, content).descendant(other) is Some,
        node.insert(path, content).descendant(other).unwrap().content == node.descendant(
            other,
        ).unwrap().content,
    decreases path.len(),
{
    let after = node.insert(path, content);
    if path.len() == 0 {
        if other.len() == 0 {
            assert(other =~= path);
        }
    } else if other.len() == 0 {
    } else {
        let rest = path.drop_first();
        let at = position(node.children, path[0]);
        let other_at = position(node.children, other[0]);
        lemma_position(node.children, path[0]);
        lemma_position(node.children, other[0]);
        let child = if at < node.children.len() {
            node.children[at]
        } else {
            Node::leaf(path[0])
        };
        lemma_insert_keeps_name(child, rest, content);
        assert forall|j: int| 0 <= j < other_at implies (#[trigger] after.children[j]).name
            != other[0] by {
            if j != at {
                assert(after.children[j] == node.children[j]);
            } else {
                assert(after.children[j].name == node.children[j].name);
            }
        }
        lemma_position_is(after.children, other[0], other_at);
        if other_at == at {
            assert(path[0] == other[0]);
            if other.drop_first() == rest {
                assert(other.len() == path.len());
                assert forall|i: int| 0 <= i < other.len() implies other[i] == path[i] by {
                    if i > 0 {
                        assert(other[i] == other.drop_first()[i - 1]);
                        assert(path[i] == rest[i - 1]);
                    }
                }
                assert(other =~= path);
            }
            lemma_insert_keeps_other_content(child, rest, content, other.drop_first());
        } else {
            assert(after.children[other_at] == node.children[other_at]);
        }
    }
}

/// The root of a built hierarchy has no name and no content, and no two submodules of one
/// module share a name.
pub proof fn lemma_planted_is_well_formed(files: Seq<FileView>)
    ensures
        planted(files).name == Seq::<char>::empty(),
        planted(files).content is None,
        planted(files).unique_names(),
    decreases files.len(),
{
    if files.len() > 0 {
        let before = planted(files.drop_last());
        lemma_planted_is_well_formed(files.drop_last());
        match files.last().name {
            Some(name) => {
                lemma_split_len(crate::text::strip_once(name, ".rs"@), '.');
                lemma_insert_keeps_unique_names(before, segments(name), files.last().content);
            },
            None => {},
        }
    }
}

/// Every path is a sequence of non-empty names, where the files ask for it: if no named file
/// has an empty segment in the path that its name encodes, no module below the root has an
/// empty name.
pub proof fn lemma_planted_names_non_empty(files: Seq<FileView>)
    requires
        no_empty_segment_in(files),
    ensures
        planted(files).names_non_empty(),
    decreases files.len(),
{
    if files.len() > 0 {
        let before = files.drop_last();
        assert(no_empty_segment_in(before)) by {
            assert forall|i: int| 0 <= i < before.len() && (#[trigger] before[i]).name
                is Some implies no_empty_segment(segments(before[i].name.unwrap())) by {
                assert(before[i] == files[i]);
            }
        }
        lemma_planted_names_non_empty(before);
        match files.last().name {
            Some(name) => {
                assert(files[files.len() - 1].name is Some);
                lemma_insert_keeps_names_non_empty(
                    planted(before),
                    segments(name),
                    files.last().content,
                );
            },
            None => {},
        }
    }
}

/// More files only add to a hierarchy: the hierarchy of a list of files extends the
/// hierarchy of each of its beginnings.
pub proof fn lemma_planted_extends(files: Seq<FileView>, n: int)
    requires
        0 <= n <= files.len(),
    ensures
        planted(files).extends(planted(files.take(n))),
    decreases files.len(),
{
    if n == files.len() {
        assert(files.take(n) == files);
        lemma_extends_itself(planted(files));
    } else {
        let before = planted(files.drop_last());
        assert(files.drop_last().take(n) == files.take(n));
        lemma_planted_extends(files.drop_last(), n);
        match files.last().name {
            Some(name) => {
                lemma_insert_extends(before, segments(name), files.last().content);
                lemma_extends_further(planted(files), before, planted(files.take(n)));
            },
            None => {},
        }
    }
}

/// Of two files with one name that follow each other, the hierarchy holds the later one
/// only.
pub proof fn lemma_later_file_wins(files: Seq<FileView>, earlier: FileView, later: FileView)
    requires
        earlier.name == later.name,
    ensures
        planted(files.push(earlier).push(later)) == planted(files.push(later)),
{
    let both = files.push(earlier).push(later);
    assert(both.drop_last() == files.push(earlier));
    assert(files.push(earlier).drop_last() == files);
    assert(files.push(later).drop_last() == files);
    match later.name {
        Some(name) => {
            let path = segments(name);
            assert(planted(files.push(earlier)) == planted(files).insert(path, earlier.content));
            assert(planted(both) == planted(files.push(earlier)).insert(path, later.content));
            assert(planted(files.push(later)) == planted(files).insert(path, later.content));
            lemma_insert_overwrites(planted(files), path, earlier.content, later.content);
        },
        None => {
            assert(planted(files.push(earlier)) == planted(files));
            assert(planted(both) == planted(files.push(earlier)));
            assert(planted(files.push(later)) == planted(files));
        },
    }
}

/// A file is found in the hierarchy at the path that its name encodes, with its content,
/// unless a later file has the same path.
pub proof fn lemma_planted_holds_file(files: Seq<FileView>, i: int)
    requires
        0 <= i < files.len(),
        files[i].name is Some,
        forall|j: int|
            i < j < files.len() && (#[trigger] files[j]).name is Some ==> segments(
                files[j].name.unwrap(),
            ) != segments(files[i].name.unwrap()),
    ensures
        planted(files).descendant(segments(files[i].name.unwrap())) is Some,
        planted(files).descendant(segments(files[i].name.unwrap())).unwrap().content
            == files[i].content,
    decreases files.len(),
{
    let path = segments(files[i].name.unwrap());
    let before = planted(files.drop_last());
    if i == files.len() - 1 {
        lemma_insert_then_descendant(before, path, files[i].content);
    } else {
        assert(files.drop_last()[i] == files[i]);
        assert forall|j: int|
            i < j < files.drop_last().len() && (#[trigger] files.drop_last()[j]).name
                is Some implies segments(files.drop_last()[j].name.unwrap()) != path by {
            assert(files.drop_last()[j] == files[j]);
        }
        lemma_planted_holds_file(files.drop_last(), i);
        match files.last().name {
            Some(name) => {
                assert(files[files.len() - 1].name is Some);
                lemma_insert_keeps_other_content(
                    before,
                    segments(name),
                    files.last().content,
                    path,
                );
            },
            None => {},
        }
    }
}

/// Every module gets exactly one file: a module is written as as many files as there are
/// modules in its hierarchy.
pub proof fn lemma_one_file_per_module(node: Node, path: Seq<Seq<char>>)
    ensures
        node.files(path).len() == node.size(),
    decreases node, 1nat, 0nat,
{
    lemma_one_file_per_submodule(node, path, node.children.len());
}

/// The first `n` submodules of a module are written as as many files as there are modules in
/// their hierarchies.
pub proof fn lemma_one_file_per_submodule(node: Node, path: Seq<Seq<char>>, n: nat)
    ensures
        node.files_below(path, n).len() == node.size_below(n),
    decreases node, 0nat, n,
{
    if 0 < n <= node.children.len() {
        let child = node.children[n - 1];
        lemma_one_file_per_submodule(node, path, (n - 1) as nat);
        lemma_one_file_per_module(child, path.push(child.name));
    }
}

/// The files of a submodule are among the files of the submodules of its parent.
proof fn lemma_files_below_hold(node: Node, path: Seq<Seq<char>>, n: nat, k: int, file: FileView)
    requires
        0 <= k < n <= node.children.len(),
        node.children[k].files(path.push(node.children[k].name)).contains(file),
    ensures
        node.files_below(path, n).contains(file),
    decreases n,
{
    let child = node.children[n - 1];
    let own = child.files(path.push(child.name));
    let before = node.files_below(path, (n - 1) as nat);
    if k == n - 1 {
        let at = choose|at: int| 0 <= at < own.len() && own[at] == file;
        assert((before + own)[before.len() + at] == file);
    } else {
        lemma_files_below_hold(node, path, (n - 1) as nat, k, file);
        let at = choose|at: int| 0 <= at < before.len() && before[at] == file;
        assert((before + own)[at] == file);
    }
}

/// Every module of a hierarchy has its file: the module found at a path below `node` is
/// written under the name that the path gives, with the module's body.
pub proof fn lemma_descendant_is_written(
    node: Node,
    above: Seq<Seq<char>>,
    path: Seq<Seq<char>>,
)
    requires
        path.len() > 0,
        node.descendant(path) is Some,
    ensures
        node.files_below(above, node.children.len()).contains(
            node.descendant(path).unwrap().file(above + path),
        ),
    decreases path.len(),
{
    let found = node.descendant(path).unwrap();
    let at = position(node.children, path[0]);
    lemma_position(node.children, path[0]);
    let child = node.children[at];
    let here = above.push(child.name);
    let rest = path.drop_first();
    assert(here + rest =~= above + path);
    if rest.len() == 0 {
        assert(child.descendant(rest) == Some(child));
        assert(found == child);
        assert(child.files(here).last() == child.file(here));
        assert(child.files(here).contains(child.file(here)));
    } else {
        lemma_descendant_is_written(child, here, rest);
        let file = found.file(here + rest);
        let below = child.files_below(here, child.children.len());
        let k = choose|k: int| 0 <= k < below.len() && below[k] == file;
        assert(child.files(here)[k] == file);
    }
    lemma_files_below_hold(
        node,
        above,
        node.children.len(),
        at,
        found.file(above + path),
    );
}

/// Every file of a response is found again in the response laid out by modules, unless a
/// later file has the same path: under the name that its path gives, in the file of the module
/// that holds its content.
pub proof fn lemma_file_is_written(response: ResponseView, i: int)
    requires
        response.error is None,
        0 <= i < response.file.len(),
        response.file[i].name is Some,
        forall|j: int|
            i < j < response.file.len() && (#[trigger] response.file[j]).name is Some
                ==> segments(response.file[j].name.unwrap()) != segments(
                response.file[i].name.unwrap(),
            ),
    ensures
        hierarchy(response).descendant(segments(response.file[i].name.unwrap())) is Some,
        ({
            let path = segments(response.file[i].name.unwrap());
            let module = hierarchy(response).descendant(path).unwrap();
            &&& module.content == response.file[i].content
            &&& written(hierarchy(response)).contains(module.file(path))
        }),
{
    let path = segments(response.file[i].name.unwrap());
    lemma_planted_holds_file(response.file, i);
    lemma_split_len(crate::text::strip_once(response.file[i].name.unwrap(), ".rs"@), '.');
    lemma_descendant_is_written(hierarchy(response), Seq::empty(), path);
    assert(Seq::<Seq<char>>::empty() + path =~= path);
}

} // verus!
