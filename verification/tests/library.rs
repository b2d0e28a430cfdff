use bioctl::cli::commands;
use bioctl::config::Config;
use bioctl::db::database::{Database, DbError};
use bioctl::db::links::{contains_pair, insert_pair, remove_pair};
use bioctl::db::{file_repo, group_repo, schema, tag_repo};
use bioctl::domain::file::File;
use bioctl::domain::group::Group;
use bioctl::domain::tag::Tag;
use bioctl::services::file_service::{
    collect_canonical_paths, collect_for, track_files, PathTarget, Collection, CollectError, DirEntry, EntryKind, PathKind,
};
use bioctl::services::group_service;
use bioctl::utils::print::{file_row, group_row};
use bioctl::utils::text::{int_text, nocase_equal};

fn file(id: i64, path: &str) -> File {
    File { id, path: path.to_string(), created_at: 0 }
}

fn group(id: i64, name: &str) -> Group {
    Group { id, name: name.to_string(), created_at: 0, description: String::new() }
}

fn three_groups() -> Database {
    let mut db = Database::new();
    for name in ["a", "b", "c"] {
        group_repo::insert_group(&mut db, name, 0, "").unwrap();
    }
    db
}

#[test]
fn error_messages_are_sqlite_texts() {
    assert_eq!(DbError::ForeignKeyViolation.message(), "FOREIGN KEY constraint failed");
    assert_eq!(DbError::MoreThanOneRow.message(), "Query returned more than one row");
    assert_eq!(DbError::Full.message(), "database or disk is full");
}

#[test]
fn ids_run_out_at_the_largest_id() {
    let db = Database::from_tables(vec![file(i64::MAX, "/x")], vec![], vec![], vec![], vec![], vec![]);
    let mut db = db.expect("valid tables");
    assert_eq!(file_repo::insert_file(&mut db, "/y", 3), Err(DbError::Full));
    assert_eq!(db.files.len(), 1);
}

#[test]
fn ids_follow_the_largest_id() {
    let db = Database::from_tables(vec![file(3, "/x"), file(8, "/y")], vec![], vec![], vec![], vec![], vec![]);
    let mut db = db.unwrap();
    assert_eq!(file_repo::insert_file(&mut db, "/z", 0), Ok(Some(9)));
    assert_eq!(file_repo::file_exists(&db, 9), true);
    assert_eq!(file_repo::file_exists(&db, 4), false);
}

#[test]
fn duplicate_group_names_make_lookup_fail() {
    let mut db = Database::new();
    assert_eq!(group_repo::insert_group(&mut db, "run", 0, ""), Ok(Some(1)));
    assert_eq!(group_repo::find_group_id(&db, "run"), Ok(Some(1)));
    assert_eq!(group_repo::find_group_id(&db, "other"), Ok(None));
    assert_eq!(group_repo::insert_group(&mut db, "run", 0, "again"), Ok(Some(2)));
    assert_eq!(group_repo::find_group_id(&db, "run"), Err(DbError::MoreThanOneRow));
}

#[test]
fn tables_that_break_the_invariant_are_refused() {
    // ids out of order
    assert!(Database::from_tables(vec![file(2, "/a"), file(1, "/b")], vec![], vec![], vec![], vec![], vec![])
        .is_none());
    // a path twice
    assert!(Database::from_tables(vec![file(1, "/a"), file(2, "/a")], vec![], vec![], vec![], vec![], vec![])
        .is_none());
    // tag names equal up to case
    let tags = vec![Tag { id: 1, name: "Raw".to_string() }, Tag { id: 2, name: "RAW".to_string() }];
    assert!(Database::from_tables(vec![], vec![], tags, vec![], vec![], vec![]).is_none());
    // a link to a missing file
    assert!(Database::from_tables(vec![], vec![group(1, "g")], vec![], vec![(1, 5)], vec![], vec![]).is_none());
    // a link stored twice
    assert!(Database::from_tables(
        vec![file(1, "/a")],
        vec![group(4, "g")],
        vec![],
        vec![(4, 1), (4, 1)],
        vec![],
        vec![]
    )
    .is_none());
    // a zero id
    assert!(Database::from_tables(vec![file(0, "/a")], vec![], vec![], vec![], vec![], vec![]).is_none());
    // and a valid one is taken as it is
    let db = Database::from_tables(vec![file(1, "/a")], vec![group(4, "g")], vec![], vec![(4, 1)], vec![], vec![]);
    let db = db.unwrap();
    assert!(group_repo::has_file(&db, 4, 1));
}

#[test]
fn foreign_keys_guard_every_link() {
    let mut db = three_groups();
    assert_eq!(group_repo::add_child(&mut db, 1, 9), Err(DbError::ForeignKeyViolation));
    assert_eq!(group_repo::add_tag(&mut db, 1, 1), Err(DbError::ForeignKeyViolation));
    assert_eq!(group_repo::insert_file(&mut db, 9, 1), Err(DbError::ForeignKeyViolation));
    assert!(db.group_children.is_empty() && db.group_tags.is_empty() && db.group_files.is_empty());
}

#[test]
fn cycles_are_found_along_chains() {
    let mut db = three_groups();
    assert_eq!(group_repo::add_child(&mut db, 1, 2), Ok(()));
    assert_eq!(group_repo::add_child(&mut db, 2, 3), Ok(()));
    assert!(group_repo::would_create_cycle(&db, 3, 1));
    assert!(group_repo::would_create_cycle(&db, 2, 1));
    assert!(group_repo::would_create_cycle(&db, 2, 2));
    assert!(!group_repo::would_create_cycle(&db, 1, 3));
    assert!(!group_service::would_create_cycle(&db, 1, 2));
}

#[test]
fn deleting_a_group_removes_its_links() {
    let mut db = three_groups();
    file_repo::insert_file(&mut db, "/f", 0).unwrap();
    tag_repo::insert_tag(&mut db, "t").unwrap();
    group_repo::add_child(&mut db, 1, 2).unwrap();
    group_repo::add_child(&mut db, 2, 3).unwrap();
    group_repo::insert_file(&mut db, 2, 1).unwrap();
    group_repo::add_tag(&mut db, 2, 1).unwrap();
    group_repo::delete_group(&mut db, 2);
    assert!(group_repo::fetch_group(&db, 2).is_none());
    assert!(!group_repo::has_child(&db, 1, 2));
    assert!(db.group_children.is_empty() && db.group_files.is_empty() && db.group_tags.is_empty());
    assert_eq!(group_repo::fetch_groups(&db).len(), 2);
}

#[test]
fn untracking_a_file_removes_it_from_groups() {
    let mut db = three_groups();
    file_repo::insert_file(&mut db, "/f", 0).unwrap();
    group_repo::insert_file(&mut db, 1, 1).unwrap();
    assert_eq!(file_repo::delete_file(&mut db, 1), Some("/f".to_string()));
    assert_eq!(file_repo::delete_file(&mut db, 1), None);
    assert!(group_repo::fetch_files(&db, 1).is_empty());
}

#[test]
fn tags_are_found_without_regard_to_case() {
    let mut db = Database::new();
    assert_eq!(tag_repo::insert_tag(&mut db, "Paired-End"), Ok(Some(1)));
    let t = tag_repo::find_tag_by_name(&db, "paired-end").unwrap();
    assert_eq!(t.id, 1);
    assert_eq!(t.name, "Paired-End");
    assert_eq!(tag_repo::delete_tag(&mut db, 1), Some("Paired-End".to_string()));
    assert!(tag_repo::find_tag_by_name(&db, "PAIRED-END").is_none());
    assert!(nocase_equal("AbC", "aBc"));
    assert!(!nocase_equal("AbC", "aBd"));
    assert!(!nocase_equal("É", "é"));
}

#[test]
fn a_failed_batch_leaves_the_database_unchanged() {
    let db = Database::from_tables(vec![file(i64::MAX - 1, "/x")], vec![], vec![], vec![], vec![], vec![]);
    let mut db = db.unwrap();
    let paths = vec!["/y".to_string(), "/z".to_string()];
    assert_eq!(track_files(&mut db, &paths), Err(DbError::Full));
    assert_eq!(db.files.len(), 1);
    assert_eq!(db.files[0].path, "/x");
}

#[test]
fn a_batch_skips_paths_already_tracked() {
    let mut db = Database::new();
    let paths = vec!["/a".to_string(), "/b".to_string(), "/a".to_string()];
    assert_eq!(track_files(&mut db, &paths), Ok(vec![1, 2]));
    let again = vec!["/b".to_string(), "/c".to_string()];
    assert_eq!(track_files(&mut db, &again), Ok(vec![3]));
    assert_eq!(track_files(&mut db, &again), Ok(vec![]));
    assert_eq!(db.files.len(), 3);
}

#[test]
fn tracked_files_join_every_group() {
    let mut db = three_groups();
    track_files(&mut db, &["/a".to_string()]).unwrap();
    let colors = Config::from_env(None, true).colors();
    let collected = vec!["/a".to_string(), "/b".to_string(), "/a".to_string()];
    let rep = commands::track_files(&mut db, &colors, &collected, &Some(vec![1, 3]));
    assert_eq!(rep.result, Ok(()));
    for g in [1, 3] {
        assert!(group_repo::has_file(&db, g, 1));
        assert!(group_repo::has_file(&db, g, 2));
    }
    assert!(group_repo::fetch_files(&db, 2).is_empty());
    let rep = commands::track_files(&mut db, &colors, &collected, &Some(vec![1, 9]));
    assert_eq!(rep.result, Err("Group with id 9 not found".to_string()));
}

#[test]
fn adding_files_stops_at_the_first_missing_file() {
    let mut db = three_groups();
    file_repo::insert_file(&mut db, "/a", 0).unwrap();
    file_repo::insert_file(&mut db, "/b", 0).unwrap();
    assert_eq!(group_service::add_files(&mut db, 1, &[1, 7, 2]), Err(DbError::ForeignKeyViolation));
    assert_eq!(db.group_files, vec![(1, 1)]);
    assert_eq!(group_service::add_files(&mut db, 1, &[1, 2, 2]), Ok(()));
    assert_eq!(db.group_files, vec![(1, 1), (1, 2)]);
}

#[test]
fn reset_empties_every_table() {
    let mut db = three_groups();
    file_repo::insert_file(&mut db, "/a", 0).unwrap();
    schema::init_schema(&mut db);
    assert_eq!(db.groups.len(), 3);
    schema::reset_schema(&mut db);
    assert!(db.files.is_empty() && db.groups.is_empty() && db.tags.is_empty());
    assert_eq!(file_repo::insert_file(&mut db, "/a", 0), Ok(Some(1)));
}

#[test]
fn link_lists_hold_each_pair_once() {
    let mut v: Vec<(i64, i64)> = Vec::new();
    insert_pair(&mut v, 1, 2);
    insert_pair(&mut v, 1, 2);
    insert_pair(&mut v, 2, 1);
    assert_eq!(v, vec![(1, 2), (2, 1)]);
    assert!(contains_pair(&v, 2, 1));
    remove_pair(&mut v, 1, 2);
    assert_eq!(v, vec![(2, 1)]);
    assert!(!contains_pair(&v, 1, 2));
}

#[test]
fn collecting_sorts_paths_by_kind() {
    assert!(matches!(collect_canonical_paths("/nope", PathKind::Missing, true), Err(CollectError::NotFound)));
    assert!(matches!(collect_canonical_paths("/dev/null", PathKind::Other, true), Err(CollectError::InvalidInput)));
    assert!(matches!(collect_canonical_paths("/a", PathKind::File, false), Ok(Collection::Single)));
}

#[test]
fn each_tracking_command_takes_its_own_kind_of_path() {
    let (file, dir) = (PathTarget::File, PathTarget::Directory);
    assert!(matches!(collect_for("/x", PathKind::Missing, file, false), Err(CollectError::NotFound)));
    assert!(matches!(collect_for("/x", PathKind::Missing, dir, false), Err(CollectError::NotFound)));
    assert!(matches!(collect_for("/x", PathKind::Directory, file, false), Err(CollectError::NotAFile)));
    assert!(matches!(collect_for("/x", PathKind::Other, file, false), Err(CollectError::NotAFile)));
    assert!(matches!(collect_for("/x", PathKind::File, file, false), Ok(Collection::Single)));
    assert!(matches!(collect_for("/x", PathKind::File, dir, true), Err(CollectError::NotADirectory)));
    assert!(matches!(collect_for("/x", PathKind::Other, dir, true), Err(CollectError::InvalidInput)));
    match collect_for("/x", PathKind::Directory, dir, true) {
        Ok(Collection::Walk(c)) => assert!(c.pending == vec!["/x".to_string()] && c.paths.is_empty() && c.recursive),
        _ => panic!("a directory is walked"),
    }
}

#[test]
fn a_flat_walk_skips_subdirectories() {
    let mut c = match collect_canonical_paths("d", PathKind::Directory, false) {
        Ok(Collection::Walk(c)) => c,
        _ => panic!("a directory is walked"),
    };
    assert_eq!(c.next_dir(), Some("d".to_string()));
    c.visit(&vec![
        DirEntry { path: "/r/d/x".to_string(), kind: EntryKind::File },
        DirEntry { path: "d/sub".to_string(), kind: EntryKind::Directory },
        DirEntry { path: "d/sock".to_string(), kind: EntryKind::Other },
    ]);
    assert_eq!(c.next_dir(), None);
    assert_eq!(c.into_paths(), vec!["/r/d/x".to_string()]);
}

#[test]
fn a_recursive_walk_lists_subdirectories_last_first() {
    let mut c = match collect_canonical_paths("d", PathKind::Directory, true) {
        Ok(Collection::Walk(c)) => c,
        _ => panic!("a directory is walked"),
    };
    assert_eq!(c.next_dir(), Some("d".to_string()));
    c.visit(&vec![
        DirEntry { path: "d/p".to_string(), kind: EntryKind::Directory },
        DirEntry { path: "d/q".to_string(), kind: EntryKind::Directory },
    ]);
    assert_eq!(c.next_dir(), Some("d/q".to_string()));
    assert_eq!(c.next_dir(), Some("d/p".to_string()));
    assert_eq!(c.next_dir(), None);
}

#[test]
fn rows_format_ids_and_times() {
    let f = File { id: 42, path: "/data/x".to_string(), created_at: 0 };
    assert_eq!(file_row(&f).unwrap(), vec!["42", "01-01-1970 00:00:00", "/data/x"]);
    let g = Group { id: 7, name: "g".to_string(), created_at: 86_461, description: "d".to_string() };
    assert_eq!(group_row(&g).unwrap(), vec!["7", "g", "02-01-1970 00:01:01", "d"]);
    let far = File { id: -3, path: "/p".to_string(), created_at: i64::MAX };
    assert!(file_row(&far).is_none());
}

#[test]
fn configuration_follows_the_environment() {
    let c = Config::from_env(None, false);
    assert_eq!(c.db_path, "bioctl.db");
    assert!(c.color);
    let colors = c.colors();
    assert_eq!(colors.red, "\x1b[31m");
    assert_eq!(colors.reset, "\x1b[0m");
    let c = Config::from_env(Some("/tmp/x.db".to_string()), true);
    assert_eq!(c.db_path, "/tmp/x.db");
    assert!(!c.color);
    let colors = c.colors();
    assert!(colors.red.is_empty() && colors.green.is_empty() && colors.yellow.is_empty() && colors.reset.is_empty());
}

#[test]
fn commands_keep_existing_rows_exactly() {
    let groups = vec![Group { id: 1, name: "tust".to_string(), created_at: 1234, description: String::new() }];
    let files = vec![File { id: 1, path: "/a".to_string(), created_at: 99 }];
    let mut db = Database::from_tables(files, groups, vec![], vec![], vec![], vec![]).unwrap();
    let colors = Config::from_env(None, true).colors();
    let rep = commands::group_add_file(&mut db, &colors, 1, 7);
    assert_eq!(rep.result, Err("File with id 7 not found".to_string()));
    let rep = commands::track_files(&mut db, &colors, &vec!["/a".to_string(), "/b".to_string()], &Some(vec![1]));
    assert_eq!(rep.result, Ok(()));
    assert_eq!(db.groups[0].created_at, 1234);
    assert_eq!(db.files[0].created_at, 99);
    assert_eq!(db.files.len(), 2);
    assert_eq!(db.group_files, vec![(1, 1), (1, 2)]);
}

#[test]
fn integers_are_written_in_decimal() {
    assert_eq!(int_text(0), "0");
    assert_eq!(int_text(7), "7");
    assert_eq!(int_text(10), "10");
    assert_eq!(int_text(-2807), "-2807");
    assert_eq!(int_text(i128::MAX), i128::MAX.to_string());
    assert_eq!(int_text(i128::MIN), i128::MIN.to_string());
    let f = File { id: i64::MIN, path: "/p".to_string(), created_at: 0 };
    assert_eq!(file_row(&f).unwrap()[0], "-9223372036854775808");
}
