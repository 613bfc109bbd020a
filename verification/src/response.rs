//! What a plugin hands back to the compiler: a list of generated files, or a failure message.

use vstd::prelude::*;

verus! {

/// The characters of an optional string.
pub open spec fn optional_text(text: Option<String>) -> Option<Seq<char>> {
    match text {
        Some(text) => Some(text@),
        None => None,
    }
}

/// A copy of an optional string.
fn copy_of(text: &Option<String>) -> (copy: Option<String>)
    ensures
        copy == *text,
{
    match text {
        Some(text) => Some(text.clone()),
        None => None,
    }
}

/// One generated file.
#[derive(Debug, PartialEq, Eq, Default)]
pub struct File {
    /// Where the file goes, relative to the output directory.
    pub name: Option<String>,
    /// Marks the file's content as an insertion into another file. Never set by this library.
    pub insertion_point: Option<String>,
    /// The file's text.
    pub content: Option<String>,
}

/// A [`File`] as plain text.
pub struct FileView {
    pub name: Option<Seq<char>>,
    pub insertion_point: Option<Seq<char>>,
    pub content: Option<Seq<char>>,
}

impl View for File {
    type V = FileView;

    open spec fn view(&self) -> FileView {
        FileView {
            name: optional_text(self.name),
            insertion_point: optional_text(self.insertion_point),
            content: optional_text(self.content),
        }
    }
}

impl Clone for File {
    fn clone(&self) -> (copy: File)
        ensures
            copy == *self,
    {
        File {
            name: copy_of(&self.name),
            insertion_point: copy_of(&self.insertion_point),
            content: copy_of(&self.content),
        }
    }
}

/// The plugin's answer to the compiler.
#[derive(Debug, PartialEq, Eq, Default)]
pub struct CodeGeneratorResponse {
    /// Set when code generation failed; the compiler then reports it and ignores the files.
    pub error: Option<String>,
    /// The generated files, in the order in which they were produced.
    pub file: Vec<File>,
}

/// A [`CodeGeneratorResponse`] as plain text.
pub struct ResponseView {
    pub error: Option<Seq<char>>,
    pub file: Seq<FileView>,
}

/// The views of a list of files.
pub open spec fn file_views(files: Seq<File>) -> Seq<FileView> {
    Seq::new(files.len(), |i: int| files[i]@)
}

impl View for CodeGeneratorResponse {
    type V = ResponseView;

    open spec fn view(&self) -> ResponseView {
        ResponseView { error: optional_text(self.error), file: file_views(self.file@) }
    }
}

impl Clone for CodeGeneratorResponse {
    fn clone(&self) -> (copy: CodeGeneratorResponse)
        ensures
            copy.error == self.error,
            copy.file@ == self.file@,
    {
        let mut file: Vec<File> = Vec::new();
        let mut i: usize = 0;
        while i < self.file.len()
            invariant
                i <= self.file.len(),
                file@ == self.file@.take(i as int),
            decreases self.file.len() - i,
        {
            file.push(self.file[i].clone());
            i += 1;
        }
        assert(self.file@.take(i as int) == self.file@);
        CodeGeneratorResponse { error: copy_of(&self.error), file }
    }
}

} // verus!
