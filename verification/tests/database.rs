use bioctl::db::database::{Database, DbError};
use bioctl::db::{file_repo, group_repo, tag_repo};

#[test]
fn insert_file_assigns_ascending_ids() {
    let mut db = Database::new();
    assert_eq!(file_repo::insert_file(&mut db, "/data/a", 10), Ok(Some(1)));
    assert_eq!(file_repo::insert_file(&mut db, "/data/b", 11), Ok(Some(2)));
    assert_eq!(file_repo::insert_file(&mut db, "/data/a", 12), Ok(None));
    assert_eq!(db.files.len(), 2);
    assert_eq!(db.files[1].path, "/data/b");
    assert_eq!(db.files[1].created_at, 11);
}

#[test]
fn group_link_needs_existing_rows() {
    let mut db = Database::new();
    assert_eq!(group_repo::insert_group(&mut db, "run", 5, ""), Ok(Some(1)));
    assert_eq!(group_repo::insert_file(&mut db, 1, 7), Err(DbError::ForeignKeyViolation));
    assert_eq!(tag_repo::insert_tag(&mut db, "Raw"), Ok(Some(1)));
    assert_eq!(tag_repo::insert_tag(&mut db, "rAW"), Ok(None));
}
