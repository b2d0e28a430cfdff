use vstd::prelude::*;

verus! {

/// A group: a project, a simulation run, an analysis step. Groups hold
/// files and other groups.
#[derive(Debug, PartialEq, Eq)]
pub struct Group {
    pub id: i64,
    pub name: String,
    pub created_at: i64,
    pub description: String,
}

/// The mathematical value of a [`Group`].
pub struct GroupView {
    pub id: i64,
    pub name: Seq<char>,
    pub created_at: i64,
    pub description: Seq<char>,
}

impl View for Group {
    type V = GroupView;

    open spec fn view(&self) -> GroupView {
        GroupView {
            id: self.id,
            name: self.name@,
            created_at: self.created_at,
            description: self.description@,
        }
    }
}

impl Clone for Group {
    fn clone(&self) -> (res: Group)
        ensures
            res@ == self@,
    {
        Group {
            id: self.id,
            name: self.name.clone(),
            created_at: self.created_at,
            description: self.description.clone(),
        }
    }
}

} // verus!
