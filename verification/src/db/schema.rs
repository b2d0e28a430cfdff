use vstd::prelude::*;
use crate::db::database::{Database, DbView};

verus! {

/// Makes sure that the tables exist. The tables of a [`Database`] always
/// exist, so its contents stay as they are.
pub fn init_schema(db: &mut Database)
    ensures
        final(db)@ == old(db)@,
{
}

/// Drops every table and creates them anew: the database is empty after.
pub fn reset_schema(db: &mut Database)
    ensures
        final(db).wf(),
        final(db)@ == DbView::empty(),
{
    *db = Database::new();
}

} // verus!
