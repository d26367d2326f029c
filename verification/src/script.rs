use vstd::prelude::*;

verus! {

/// One generated script: the name of the file and the text it holds.
#[derive(Debug, Clone)]
pub struct ScriptFile {
    pub filename: String,
    pub content: String,
}

impl View for ScriptFile {
    type V = (Seq<char>, Seq<char>);

    /// The name of the file and the text it holds.
    open spec fn view(&self) -> (Seq<char>, Seq<char>) {
        (self.filename@, self.content@)
    }
}

impl ScriptFile {
    /// Pairs a file name with the script text, taking both as they are.
    pub fn new(filename: String, content: String) -> (file: Self)
        ensures
            file.filename == filename,
            file.content == content,
            file@ == (filename@, content@),
    {
        Self { filename, content }
    }
}

} // verus!
