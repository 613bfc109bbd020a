//! The module tree: built from a response with flat modules, written back as a response with
//! one file per module.

use crate::laws::{
    lemma_insert_keeps_names_non_empty, lemma_insert_keeps_unique_names,
    lemma_planted_is_well_formed, lemma_planted_names_non_empty, lemma_position_is,
};
use crate::model::{
    declarations, hierarchy, no_empty_segment, no_empty_segment_in, planted, position, written,
    Node,
};
use crate::response::{file_views, CodeGeneratorResponse, File, FileView, ResponseView};
use crate::text::{join_strs, same_text, split_str, strip_str_once, texts};
use vstd::prelude::*;
use vstd::string::*;

verus! {

/// The characters of an optional string slice.
pub open spec fn optional_str(text: Option<&str>) -> Option<Seq<char>> {
    match text {
        Some(text) => Some(text@),
        None => None,
    }
}

/// The hierarchies that a list of trees stands for.
pub open spec fn models(trees: Seq<ModuleTree>) -> Seq<Node> {
    Seq::new(trees.len(), |i: int| trees[i]@)
}

/// Tree structure that represents the module hierarchy.
///
/// The tree borrows the names and contents it holds from the text it was built from.
#[derive(Debug)]
pub struct ModuleTree<'a> {
    /// Module name
    name: &'a str,
    /// Content of the module
    content: Option<&'a str>,
    /// Module's submodules
    children: Vec<ModuleTree<'a>>,
}

impl<'a> ModuleTree<'a> {
    /// The hierarchy that this tree stands for.
    pub closed spec fn model(&self) -> Node
        decreases self,
    {
        Node {
            name: self.name@,
            content: optional_str(self.content),
            children: Seq::new(
                self.children@.len(),
                |i: int|
                    if 0 <= i < self.children@.len() {
                        self.children@[i].model()
                    } else {
                        Node::root()
                    },
            ),
        }
    }

    /// The root of an empty tree.
    pub fn new() -> (root: ModuleTree<'a>)
        ensures
            root@ == Node::root(),
    {
        let root = ModuleTree { name: "", content: None, children: Vec::new() };
        proof {
            reveal_strlit("");
        }
        assert(root@.name =~= Seq::empty());
        assert(root@.children =~= Seq::empty());
        root
    }

    /// The module's name: the last segment of its path.
    pub fn name(&self) -> (name: &'a str)
        ensures
            name@ == self@.name,
    {
        self.name
    }

    /// The code generated for exactly this module, if any.
    pub fn content(&self) -> (content: Option<&'a str>)
        ensures
            optional_str(content) == self@.content,
    {
        self.content
    }

    /// The submodules, in the order in which they were first seen.
    pub fn children(&self) -> (children: &Vec<ModuleTree<'a>>)
        ensures
            models(children@) == self@.children,
    {
        assert(models(self.children@) == self@.children);
        &self.children
    }
}

impl<'a> View for ModuleTree<'a> {
    type V = Node;

    closed spec fn view(&self) -> Node {
        self.model()
    }
}

/// Position of the first of `children` that is called `name`; their number if none is.
fn find_child<'a>(children: &Vec<ModuleTree<'a>>, name: &str) -> (at: usize)
    ensures
        at <= children.len(),
        at == position(models(children@), name@),
{
    let ghost nodes = models(children@);
    let mut at: usize = 0;
    while at < children.len()
        invariant
            at <= children.len(),
            nodes == models(children@),
            forall|j: int| 0 <= j < at ==> (#[trigger] nodes[j]).name != name@,
        decreases children.len() - at,
    {
        if same_text(children[at].name, name) {
            proof {
                lemma_position_is(nodes, name@, at as int);
            }
            return at;
        }
        at += 1;
    }
    proof {
        lemma_position_is(nodes, name@, at as int);
    }
    at
}

/// Puts module content to the right node in the modules tree.
///
/// * `content` – content of the module (generated source code)
/// * `path` – path to the module below `root` (like `["parent", "child", "file"]`)
/// * `root` – the node to start from
///
/// An empty `path` stands for `root` itself.
pub fn create_subtree<'a, 'b>(
    content: Option<&'a str>,
    path: Vec<&'a str>,
    root: &'b mut ModuleTree<'a>,
)
    ensures
        final(root)@ == old(root)@.insert(texts(path@), optional_str(content)),
        old(root)@.unique_names() ==> final(root)@.unique_names(),
        old(root)@.names_non_empty() && no_empty_segment(texts(path@))
            ==> final(root)@.names_non_empty(),
    decreases path.len(),
{
    proof {
        if root@.unique_names() {
            lemma_insert_keeps_unique_names(root@, texts(path@), optional_str(content));
        }
        if root@.names_non_empty() && no_empty_segment(texts(path@)) {
            lemma_insert_keeps_names_non_empty(root@, texts(path@), optional_str(content));
        }
    }
    let mut path = path;
    if path.len() == 0 {
        root.content = content;
        return;
    }
    let ghost segments = texts(path@);
    let ghost before = root@;
    let name = path.remove(0);
    assert(texts(path@) == segments.drop_first());
    let at = find_child(&root.children, name);
    assert(models(root.children@) == before.children);
    if at < root.children.len() {
        create_subtree(content, path, &mut root.children[at]);
        assert(root@.children == before.children.update(at as int, root.children@[at as int]@));
    } else {
        let mut child = ModuleTree { name, content: None, children: Vec::new() };
        assert(child@.children =~= Seq::empty());
        create_subtree(content, path, &mut child);
        root.children.push(child);
        assert(root@.children == before.children.push(child@));
    }
}

/// `path` with `name` behind it.
fn extended<'a>(path: &Vec<&'a str>, name: &'a str) -> (longer: Vec<&'a str>)
    ensures
        longer@ == path@.push(name),
{
    let mut longer: Vec<&'a str> = Vec::new();
    let mut i: usize = 0;
    while i < path.len()
        invariant
            i <= path.len(),
            longer@ == path@.take(i as int),
        decreases path.len() - i,
    {
        longer.push(path[i]);
        i += 1;
    }
    assert(path@.take(i as int) == path@);
    longer.push(name);
    longer
}

/// Writes a module hierarchy as files.
///
/// * `response` – the response that gets the files
/// * `path` – path of `root` from the top-level module down, `root`'s own name included
///   (like `["parent"]`)
/// * `root` – the module to write, with everything below it
///
/// The files of the submodules come first, each submodule in turn, and the file of `root` last.
pub fn write_subtree<'a, 'b>(
    response: &'b mut CodeGeneratorResponse,
    path: Vec<&'a str>,
    root: &'b ModuleTree<'a>,
)
    ensures
        final(response).error == old(response).error,
        final(response)@.file == old(response)@.file + root@.files(texts(path@)),
    decreases root,
{
    broadcast use vstd::std_specs::vec::axiom_vec_index_decreases;

    let ghost segments = texts(path@);
    let ghost node = root@;
    let ghost files_before = response@.file;
    let mut content = String::new();
    let mut name = join_strs(&path, "/");
    name.append(".rs");

    let mut i: usize = 0;
    assert(node.children.take(0) == Seq::<Node>::empty());
    while i < root.children.len()
        invariant
            i <= root.children.len(),
            node == root@,
            segments == texts(path@),
            content@ == declarations(node.children.take(i as int)),
            response.error == old(response).error,
            response@.file == files_before + node.files_below(segments, i as nat),
        decreases root.children.len() - i,
    {
        let child = &root.children[i];
        assert(node.children[i as int] == child@);
        assert(node.children.take(i + 1).drop_last() == node.children.take(i as int));
        content.append("pub mod ");
        content.append(child.name);
        content.append(";\n");

        let child_path = extended(&path, child.name);
        assert(texts(child_path@) == segments.push(child@.name));
        write_subtree(response, child_path, child);
        i += 1;
    }
    assert(node.children.take(i as int) == node.children);

    match root.content {
        Some(node_content) => {
            if !content.as_str().is_empty() {
                content.append("\n");
            }
            content.append(node_content);
        },
        None => {},
    }
    assert(content@ == node.body());

    let ghost files_below = response.file@;
    let file = File { name: Some(name), insertion_point: None, content: Some(content) };
    assert(file@ == node.file(segments));
    response.file.push(file);
    assert(response@.file == file_views(files_below).push(file@));
}

impl<'a> From<&'a CodeGeneratorResponse> for ModuleTree<'a> {
    /// Creates the module tree of a response with flat modules.
    ///
    /// A file for a flat module is named like `parent.child.file.rs`, which gives the module's
    /// place in the hierarchy. A file without a name is passed over, and a response that
    /// reports a failure gives the empty tree.
    fn from(response: &'a CodeGeneratorResponse) -> (root: ModuleTree<'a>)
        ensures
            root@ == hierarchy(response@),
            root@.unique_names(),
            no_empty_segment_in(response@.file) ==> root@.names_non_empty(),
    {
        proof {
            lemma_planted_is_well_formed(response@.file);
            if no_empty_segment_in(response@.file) {
                lemma_planted_names_non_empty(response@.file);
            }
        }
        let mut root = ModuleTree::new();
        if response.error.is_some() {
            return root;
        }
        let mut i: usize = 0;
        assert(response@.file.take(0) == Seq::<FileView>::empty());
        while i < response.file.len()
            invariant
                i <= response.file.len(),
                root@ == planted(response@.file.take(i as int)),
            decreases response.file.len() - i,
        {
            let file = &response.file[i];
            assert(response@.file.take(i + 1).drop_last() == response@.file.take(i as int));
            assert(response@.file.take(i + 1).last() == file@);
            match &file.name {
                Some(name) => {
                    let path = split_str(strip_str_once(name.as_str(), ".rs"), '.');
                    let content = match &file.content {
                        Some(text) => Some(text.as_str()),
                        None => None,
                    };
                    create_subtree(content, path, &mut root);
                },
                None => {},
            }
            i += 1;
        }
        assert(response@.file.take(i as int) == response@.file);
        root
    }
}

/// What `from` returns is stated by its `ensures`, over the views: a specification cannot
/// write down a tree that borrows from a response, so there is no `from_spec` to obey.
impl<'a> vstd::std_specs::convert::FromSpecImpl<&'a CodeGeneratorResponse> for ModuleTree<'a> {
    open spec fn obeys_from_spec() -> bool {
        false
    }

    open spec fn from_spec(response: &'a CodeGeneratorResponse) -> Self {
        arbitrary()
    }
}

impl<'a> From<ModuleTree<'a>> for CodeGeneratorResponse {
    /// Creates the response with one file per module of the tree.
    ///
    /// The root stands for the output directory and gets no file. The response reports no
    /// failure.
    fn from(root: ModuleTree<'a>) -> (response: CodeGeneratorResponse)
        ensures
            response@ == (ResponseView { error: None, file: written(root@) }),
    {
        let mut response = CodeGeneratorResponse { error: None, file: Vec::new() };
        let ghost node = root@;
        let mut i: usize = 0;
        assert(response@.file == Seq::<FileView>::empty());
        while i < root.children.len()
            invariant
                i <= root.children.len(),
                node == root@,
                response.error is None,
                response@.file == node.files_below(Seq::empty(), i as nat),
            decreases root.children.len() - i,
        {
            let child = &root.children[i];
            assert(node.children[i as int] == child@);
            let mut path: Vec<&'a str> = Vec::new();
            path.push(child.name);
            assert(texts(path@) == Seq::<Seq<char>>::empty().push(child@.name));
            write_subtree(&mut response, path, child);
            i += 1;
        }
        response
    }
}

/// What `from` returns is stated by its `ensures`, over the views: a specification cannot
/// write down the strings of a response, so there is no `from_spec` to obey.
impl<'a> vstd::std_specs::convert::FromSpecImpl<ModuleTree<'a>> for CodeGeneratorResponse {
    open spec fn obeys_from_spec() -> bool {
        false
    }

    open spec fn from_spec(root: ModuleTree<'a>) -> Self {
        arbitrary()
    }
}

} // verus!
