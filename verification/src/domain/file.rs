use vstd::prelude::*;

verus! {

/// A tracked file: only its path is stored, never its contents.
#[derive(Debug, PartialEq, Eq)]
pub struct File {
    pub id: i64,
    pub path: String,
    pub created_at: i64,
}

/// The mathematical value of a [`File`].
pub struct FileView {
    pub id: i64,
    pub path: Seq<char>,
    pub created_at: i64,
}

impl View for File {
    type V = FileView;

    open spec fn view(&self) -> FileView {
        FileView { id: self.id, path: self.path@, created_at: self.created_at }
    }
}

impl Clone for File {
    fn clone(&self) -> (res: File)
        ensures
            res@ == self@,
    {
        File { id: self.id, path: self.path.clone(), created_at: self.created_at }
    }
}

} // verus!
