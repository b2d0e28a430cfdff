use vstd::prelude::*;

verus! {

/// A label that groups can carry. Tag names are unique regardless of the
/// case of ASCII letters.
#[derive(Debug, PartialEq, Eq)]
pub struct Tag {
    pub id: i64,
    pub name: String,
}

/// The mathematical value of a [`Tag`].
pub struct TagView {
    pub id: i64,
    pub name: Seq<char>,
}

impl View for Tag {
    type V = TagView;

    open spec fn view(&self) -> TagView {
        TagView { id: self.id, name: self.name@ }
    }
}

impl Clone for Tag {
    fn clone(&self) -> (res: Tag)
        ensures
            res@ == self@,
    {
        Tag { id: self.id, name: self.name.clone() }
    }
}

} // verus!
