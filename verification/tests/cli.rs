use bioctl::cli::{path_error_message, run, Cli, Commands, Output, Report};
use bioctl::config::Config;
use bioctl::db::database::Database;
use bioctl::services::file_service::{
    collect_for, Collection, DirEntry, EntryKind, PathKind, PathTarget,
};
use bioctl::utils::print::{file_row, group_row};

/// The directory the commands run in; canonical paths start with it.
const WORKDIR: &str = "/work/bioctl";

/// The files and directories that the commands see.
fn kind_of(path: &str) -> PathKind {
    match path {
        "tests" | "tests/data" | "tests/data/nested" => PathKind::Directory,
        "tests/data/tust" | "tests/data/tust2" | "tests/data/nested/nested_tust"
        | "tests/data/nested/nested_tust2" => PathKind::File,
        _ => PathKind::Missing,
    }
}

fn listing(dir: &str) -> Vec<DirEntry> {
    let names: Vec<(&str, EntryKind)> = match dir {
        "tests" => vec![("data", EntryKind::Directory)],
        "tests/data" => vec![
            ("tust", EntryKind::File),
            ("nested", EntryKind::Directory),
            ("tust2", EntryKind::File),
        ],
        "tests/data/nested" => vec![
            ("nested_tust", EntryKind::File),
            ("nested_tust2", EntryKind::File),
        ],
        _ => vec![],
    };
    names
        .into_iter()
        .map(|(name, kind)| {
            let path = format!("{}/{}", dir, name);
            let path = if kind == EntryKind::File { get_canonical_path(&path) } else { path };
            DirEntry { path, kind }
        })
        .collect()
}

pub fn get_canonical_path(path: &str) -> String {
    format!("{}/{}", WORKDIR, path)
}

struct Outcome {
    stdout: String,
    stderr: String,
    ok: bool,
}

impl Outcome {
    fn success(self) -> Self {
        assert!(self.ok, "command failed: {}", self.stderr);
        self
    }

    fn failure(self) -> Self {
        assert!(!self.ok, "command succeeded: {}", self.stdout);
        self
    }

    fn stdout(self, expected: &str) -> Self {
        assert!(self.stdout.contains(expected), "stdout {:?} lacks {:?}", self.stdout, expected);
        self
    }

    fn stdout_lacks(self, unexpected: &str) -> Self {
        assert!(!self.stdout.contains(unexpected), "stdout {:?} has {:?}", self.stdout, unexpected);
        self
    }

    fn stderr(self, expected: &str) -> Self {
        assert!(self.stderr.contains(expected), "stderr {:?} lacks {:?}", self.stderr, expected);
        self
    }
}

fn render(report: &Report) -> String {
    let mut out = String::new();
    for o in &report.outputs {
        match o {
            Output::Text(t) => out.push_str(t),
            Output::Files(files) => {
                for f in files {
                    out.push_str(&file_row(f).unwrap().join(" | "));
                    out.push('\n');
                }
            }
            Output::Groups(groups) => {
                for g in groups {
                    out.push_str(&group_row(g).unwrap().join(" | "));
                    out.push('\n');
                }
            }
        }
    }
    out
}

fn ids(args: &[&str], from: usize) -> Vec<i64> {
    args[from..].iter().map(|a| a.parse().unwrap()).collect()
}

/// The command that a command line names.
fn parse(args: &[&str]) -> Commands {
    let id = |i: usize| -> i64 { args[i].parse().unwrap() };
    match args[0] {
        "reset-db" => Commands::ResetDB { force: args.contains(&"--force") },
        "track-file" => {
            let groups = if args.len() > 3 && (args[2] == "-g" || args[2] == "--groups") {
                Some(ids(args, 3))
            } else {
                None
            };
            Commands::TrackFile { path: args[1].to_string(), groups }
        }
        "track-files" => {
            let mut paths = Vec::new();
            let mut groups = None;
            let mut recursive = false;
            let mut i = 1;
            while i < args.len() {
                match args[i] {
                    "-r" | "--recursive" => recursive = true,
                    "-g" | "--groups" => {
                        groups = Some(ids(args, i + 1));
                        i = args.len();
                        continue;
                    }
                    p => paths.push(p.to_string()),
                }
                i += 1;
            }
            Commands::TrackFiles { paths, groups, recursive }
        }
        "untrack-file" => Commands::UntrackFile { file_id: id(1) },
        "get-file" => Commands::GetFile { file_id: id(1) },
        "list-files" => Commands::ListFiles,
        "create-group" => Commands::CreateGroup {
            group_name: args[1].to_string(),
            description: if args.len() > 3 && args[2] == "-d" { Some(args[3].to_string()) } else { None },
        },
        "delete-group" => Commands::DeleteGroup { group_id: id(1) },
        "get-group" => Commands::GetGroup { group_id: id(1) },
        "list-groups" => Commands::ListGroups,
        "group-add-file" => Commands::GroupAddFile { group_id: id(1), file_id: id(2) },
        "group-remove-file" => Commands::GroupRemoveFile { group_id: id(1), file_id: id(2) },
        "group-list-files" => Commands::GroupListFiles { group_id: id(1) },
        "group-has-file" => Commands::GroupHasFile { group_id: id(1), file_id: id(2) },
        "group-add-child" => Commands::GroupAddChild { parent_group_id: id(1), child_group_id: id(2) },
        "group-remove-child" => Commands::GroupRemoveChild { parent_group_id: id(1), child_group_id: id(2) },
        "group-list-children" => Commands::GroupListChildren { parent_group_id: id(1) },
        "group-has-child" => Commands::GroupHasChild { parent_group_id: id(1), child_group_id: id(2) },
        "group-add-tag" => Commands::GroupAddTag { group_id: id(1), tag: args[2].to_string() },
        "group-remove-tag" => Commands::GroupRemoveTag { group_id: id(1), tag: args[2].to_string() },
        "group-list-tags" => Commands::GroupListTags { group_id: id(1) },
        "group-has-tag" => Commands::GroupHasTag { group_id: id(1), tag: args[2].to_string() },
        other => panic!("unknown command {}", other),
    }
}

/// Collects the canonical file paths under `path` by the library's walk.
fn collect(path: &str, target: PathTarget, recursive: bool, config: &Config) -> Result<Vec<String>, String> {
    match collect_for(path, kind_of(path), target, recursive) {
        Err(e) => Err(path_error_message(path, e, &config.colors())),
        Ok(Collection::Single) => Ok(vec![get_canonical_path(path)]),
        Ok(Collection::Walk(mut walk)) => {
            while let Some(dir) = walk.next_dir() {
                walk.visit(&listing(&dir));
            }
            Ok(walk.into_paths())
        }
    }
}

struct TestContext {
    db: std::cell::RefCell<Database>,
    config: Config,
}

impl TestContext {
    fn new() -> Self {
        TestContext {
            db: std::cell::RefCell::new(Database::new()),
            config: Config::from_env(None, true),
        }
    }

    fn cmd(&self, args: &[&str]) -> Outcome {
        let command = parse(args);
        let requests: Vec<(String, PathTarget, bool)> = match &command {
            Commands::TrackFile { path, .. } => vec![(path.clone(), PathTarget::File, false)],
            Commands::TrackFiles { paths, recursive, .. } => {
                paths.iter().map(|p| (p.clone(), PathTarget::Directory, *recursive)).collect()
            }
            _ => Vec::new(),
        };
        let mut collected = Vec::new();
        for (p, target, recursive) in requests {
            match collect(&p, target, recursive, &self.config) {
                Ok(mut found) => collected.append(&mut found),
                Err(e) => return Outcome { stdout: String::new(), stderr: e, ok: false },
            }
        }
        let mut db = self.db.borrow_mut();
        let report = run(Cli { command }, &mut db, &self.config, &collected);
        let stdout = render(&report);
        match report.result {
            Ok(()) => Outcome { stdout, stderr: String::new(), ok: true },
            Err(e) => Outcome { stdout, stderr: e, ok: false },
        }
    }
}

#[test]
fn reset_without_force() {
    let ctx = TestContext::new();
    ctx.cmd(&["reset-db"]).failure().stderr("Refusing to reset database without --force flag");
}

#[test]
fn reset_clears_db() {
    let ctx = TestContext::new();
    ctx.cmd(&["create-group", "tust"]).success().stdout("Group 'tust'(id: 1) created");
    ctx.cmd(&["track-file", "tests/data/tust"]).success().stdout("File is now tracked with id 1");
    ctx.cmd(&["reset-db", "--force"]).success().stdout("Reset entire db");
    ctx.cmd(&["list-groups"]).success().stdout("No groups");
    ctx.cmd(&["list-files"]).success().stdout("No files");
}

#[test]
fn track_file_path_does_not_exist() {
    let ctx = TestContext::new();
    ctx.cmd(&["track-file", "__pls_do_not_exist.file__"])
        .failure()
        .stderr("Path '__pls_do_not_exist.file__' does not exist");
}

#[test]
fn track_file_path_is_not_a_file() {
    let ctx = TestContext::new();
    ctx.cmd(&["track-file", "tests"]).failure().stderr("Path 'tests' is not a file");
}

#[test]
fn track_file() {
    let ctx = TestContext::new();
    ctx.cmd(&["track-file", "tests/data/tust"]).success().stdout("File is now tracked with id 1");
    ctx.cmd(&["get-file", "1"]).success().stdout(&get_canonical_path("tests/data/tust"));
}

#[test]
fn track_file_with_groups() {
    let ctx = TestContext::new();
    ctx.cmd(&["create-group", "tust"]).success().stdout("Group 'tust'(id: 1) created");
    ctx.cmd(&["create-group", "tust2"]).success().stdout("Group 'tust2'(id: 2) created");
    let path = get_canonical_path("tests/data/tust");
    ctx.cmd(&["track-file", "tests/data/tust", "-g", "1", "2"])
        .success()
        .stdout("File is now tracked with id 1")
        .stdout(&format!("Added file ({path}) to group 'tust'"))
        .stdout(&format!("Added file ({path}) to group 'tust2'"));
}

#[test]
fn track_files_path_does_not_exist() {
    let ctx = TestContext::new();
    ctx.cmd(&["track-file", "__pls_do_not_exist_dir__"])
        .failure()
        .stderr("Path '__pls_do_not_exist_dir__' does not exist");
}

#[test]
fn track_files_path_is_not_a_dir() {
    let ctx = TestContext::new();
    ctx.cmd(&["track-files", "tests/data/tust"])
        .failure()
        .stderr("Path 'tests/data/tust' is not a directory");
}

#[test]
fn track_files() {
    let ctx = TestContext::new();
    ctx.cmd(&["track-files", "tests/data"])
        .success()
        .stdout("File is now tracked with id 1")
        .stdout("File is now tracked with id 2")
        .stdout("Tracked 2 files");
    ctx.cmd(&["list-files"])
        .success()
        .stdout(&get_canonical_path("tests/data/tust"))
        .stdout(&get_canonical_path("tests/data/tust2"));
}

#[test]
fn track_files_recursive() {
    let ctx = TestContext::new();
    ctx.cmd(&["track-files", "tests/data", "-r"])
        .success()
        .stdout("File is now tracked with id 1")
        .stdout("File is now tracked with id 2")
        .stdout("File is now tracked with id 3")
        .stdout("File is now tracked with id 4");
    ctx.cmd(&["list-files"])
        .success()
        .stdout(&get_canonical_path("tests/data/tust"))
        .stdout(&get_canonical_path("tests/data/tust2"))
        .stdout(&get_canonical_path("tests/data/nested/nested_tust"))
        .stdout(&get_canonical_path("tests/data/nested/nested_tust2"));
}

#[test]
fn track_files_with_groups() {
    let ctx = TestContext::new();
    ctx.cmd(&["create-group", "tust"]).success().stdout("Group 'tust'(id: 1) created");
    ctx.cmd(&["create-group", "tust2"]).success().stdout("Group 'tust2'(id: 2) created");
    let path1 = get_canonical_path("tests/data/tust");
    let path2 = get_canonical_path("tests/data/tust2");
    let path3 = get_canonical_path("tests/data/nested/nested_tust");
    let path4 = get_canonical_path("tests/data/nested/nested_tust2");
    let mut out = ctx
        .cmd(&["track-files", "tests/data", "-r", "-g", "1", "2"])
        .success()
        .stdout("File is now tracked with id 1")
        .stdout("File is now tracked with id 2")
        .stdout("File is now tracked with id 3")
        .stdout("File is now tracked with id 4");
    for group in ["tust", "tust2"] {
        for p in [&path1, &path2, &path3, &path4] {
            out = out.stdout(&format!("Added file ({p}) to group '{group}'"));
        }
    }
    for args in [&["list-files"][..], &["group-list-files", "1"][..], &["group-list-files", "2"][..]] {
        ctx.cmd(args).success().stdout(&path1).stdout(&path2).stdout(&path3).stdout(&path4);
    }
}

#[test]
fn untrack_file_id_not_found() {
    let ctx = TestContext::new();
    ctx.cmd(&["untrack-file", "2807"]).failure().stderr("File with id 2807 not found");
}

#[test]
fn untrack_file() {
    let ctx = TestContext::new();
    ctx.cmd(&["create-group", "tust"]).success().stdout("Group 'tust'(id: 1) created");
    let path = get_canonical_path("tests/data/tust");
    ctx.cmd(&["track-file", "tests/data/tust", "-g", "1"])
        .success()
        .stdout("File is now tracked with id 1")
        .stdout(&format!("Added file ({path}) to group 'tust'"));
    ctx.cmd(&["untrack-file", "1"])
        .success()
        .stdout(&format!("File is no longer being tracked ({path})"));
    ctx.cmd(&["list-files"]).success().stdout("No files");
    ctx.cmd(&["group-list-files", "1"]).success().stdout("No files");
}

#[test]
fn get_file_id_not_found() {
    let ctx = TestContext::new();
    ctx.cmd(&["track-file", "tests/data/tust"]).success().stdout("File is now tracked with id 1");
    ctx.cmd(&["get-file", "1"]).success().stdout(&get_canonical_path("tests/data/tust"));
}

#[test]
fn list_files_empty() {
    let ctx = TestContext::new();
    ctx.cmd(&["list-files"]).success().stdout("No files");
}

#[test]
fn list_files() {
    let ctx = TestContext::new();
    ctx.cmd(&["track-files", "tests/data", "-r"])
        .success()
        .stdout("File is now tracked with id 1")
        .stdout("File is now tracked with id 2")
        .stdout("File is now tracked with id 3")
        .stdout("File is now tracked with id 4");
    ctx.cmd(&["list-files"])
        .success()
        .stdout(&get_canonical_path("tests/data/tust"))
        .stdout(&get_canonical_path("tests/data/tust2"))
        .stdout(&get_canonical_path("tests/data/nested/nested_tust"))
        .stdout(&get_canonical_path("tests/data/nested/nested_tust2"));
}

#[test]
fn create_group() {
    let ctx = TestContext::new();
    ctx.cmd(&["create-group", "tust", "-d", "this is just a tust group"])
        .success()
        .stdout("Group 'tust'(id: 1) created");
    ctx.cmd(&["get-group", "1"]).success().stdout("tust").stdout("this is just a tust group");
}

#[test]
fn delete_group_id_not_found() {
    let ctx = TestContext::new();
    ctx.cmd(&["delete-group", "1"]).failure().stderr("Group with id 1 not found");
}

#[test]
fn delete_group() {
    let ctx = TestContext::new();
    ctx.cmd(&["create-group", "tust"]).success().stdout("Group 'tust'(id: 1) created");
    ctx.cmd(&["delete-group", "1"]).success().stdout("Group 'tust'(id: 1) deleted");
}

#[test]
fn get_group_id_not_found() {
    let ctx = TestContext::new();
    ctx.cmd(&["get-group", "1"]).failure().stderr("Group with id 1 not found");
}

#[test]
fn get_group() {
    let ctx = TestContext::new();
    ctx.cmd(&["create-group", "tust"]).success().stdout("Group 'tust'(id: 1) created");
    ctx.cmd(&["get-group", "1"]).success().stdout("tust");
}

#[test]
fn list_groups_empty() {
    let ctx = TestContext::new();
    ctx.cmd(&["list-groups"]).success().stdout("No groups");
}

#[test]
fn list_groups() {
    let ctx = TestContext::new();
    ctx.cmd(&["create-group", "tust", "-d", "this is just a tust group"])
        .success()
        .stdout("Group 'tust'(id: 1) created");
    ctx.cmd(&["create-group", "tust2"]).success().stdout("Group 'tust2'(id: 2) created");
    ctx.cmd(&["list-groups"])
        .success()
        .stdout("tust")
        .stdout("this is just a tust group")
        .stdout("tust2");
}

#[test]
fn group_add_file_no_group() {
    let ctx = TestContext::new();
    ctx.cmd(&["group-add-file", "1", "1"]).failure().stderr("Group with id 1 not found");
}

#[test]
fn group_add_file_no_file() {
    let ctx = TestContext::new();
    ctx.cmd(&["create-group", "tust"]).success().stdout("Group 'tust'(id: 1) created");
    ctx.cmd(&["group-add-file", "1", "1"]).failure().stderr("File with id 1 not found");
}

#[test]
fn group_add_file() {
    let ctx = TestContext::new();
    ctx.cmd(&["create-group", "tust"]).success().stdout("Group 'tust'(id: 1) created");
    ctx.cmd(&["track-file", "tests/data/tust"]).success().stdout("File is now tracked with id 1");
    let path = get_canonical_path("tests/data/tust");
    ctx.cmd(&["group-add-file", "1", "1"])
        .success()
        .stdout(&format!("Added file ({}) to group 'tust'", path));
}

#[test]
fn group_remove_file_no_group() {
    let ctx = TestContext::new();
    ctx.cmd(&["group-remove-file", "1", "1"]).failure().stderr("Group with id 1 not found");
}

#[test]
fn group_remove_file_no_file() {
    let ctx = TestContext::new();
    ctx.cmd(&["create-group", "tust"]).success().stdout("Group 'tust'(id: 1) created");
    ctx.cmd(&["group-remove-file", "1", "1"]).failure().stderr("File with id 1 not found");
}

#[test]
fn group_remove_file() {
    let ctx = TestContext::new();
    ctx.cmd(&["create-group", "tust"]).success().stdout("Group 'tust'(id: 1) created");
    ctx.cmd(&["track-file", "tests/data/tust", "-g", "1"])
        .success()
        .stdout("File is now tracked with id 1");
    let path = get_canonical_path("tests/data/tust");
    ctx.cmd(&["group-remove-file", "1", "1"])
        .success()
        .stdout(&format!("Removed file ({}) from group 'tust'", path));
}

#[test]
fn group_list_files_empty() {
    let ctx = TestContext::new();
    ctx.cmd(&["create-group", "tust"]).success().stdout("Group 'tust'(id: 1) created");
    ctx.cmd(&["group-list-files", "1"]).success().stdout("No files");
}

#[test]
fn group_list_files() {
    let ctx = TestContext::new();
    ctx.cmd(&["create-group", "tust"]).success().stdout("Group 'tust'(id: 1) created");
    let path1 = get_canonical_path("tests/data/tust");
    let path2 = get_canonical_path("tests/data/tust2");
    let path3 = get_canonical_path("tests/data/nested/nested_tust");
    let path4 = get_canonical_path("tests/data/nested/nested_tust2");
    ctx.cmd(&["track-files", "tests/data", "-r", "-g", "1"])
        .success()
        .stdout("File is now tracked with id 1")
        .stdout("File is now tracked with id 2")
        .stdout("File is now tracked with id 3")
        .stdout("File is now tracked with id 4")
        .stdout(&format!("Added file ({path1}) to group 'tust'"))
        .stdout(&format!("Added file ({path2}) to group 'tust'"))
        .stdout(&format!("Added file ({path3}) to group 'tust'"))
        .stdout(&format!("Added file ({path4}) to group 'tust'"));
    ctx.cmd(&["group-list-files", "1"])
        .success()
        .stdout("4 files in group 'tust':")
        .stdout(&path1)
        .stdout(&path2)
        .stdout(&path3)
        .stdout(&path4);
}

#[test]
fn group_has_file_no_group() {
    let ctx = TestContext::new();
    ctx.cmd(&["group-has-file", "1", "1"]).failure().stderr("Group with id 1 not found");
}

#[test]
fn group_has_file_no_file() {
    let ctx = TestContext::new();
    ctx.cmd(&["create-group", "tust"]).success().stdout("Group 'tust'(id: 1) created");
    ctx.cmd(&["group-has-file", "1", "1"]).failure().stderr("File with id 1 not found");
}

#[test]
fn group_has_file_false() {
    let ctx = TestContext::new();
    ctx.cmd(&["create-group", "tust"]).success().stdout("Group 'tust'(id: 1) created");
    ctx.cmd(&["track-file", "tests/data/tust"]).success().stdout("File is now tracked with id 1");
    let path = get_canonical_path("tests/data/tust");
    ctx.cmd(&["group-has-file", "1", "1"])
        .success()
        .stdout(&format!("Group 'tust' does not have file ({})", path));
}

#[test]
fn group_has_file_true() {
    let ctx = TestContext::new();
    ctx.cmd(&["create-group", "tust"]).success().stdout("Group 'tust'(id: 1) created");
    let path = get_canonical_path("tests/data/tust");
    ctx.cmd(&["track-file", "tests/data/tust", "-g", "1"])
        .success()
        .stdout("File is now tracked with id 1")
        .stdout(&format!("Added file ({}) to group 'tust'", path));
    ctx.cmd(&["group-has-file", "1", "1"])
        .success()
        .stdout(&format!("Group 'tust' has file ({})", path));
}

#[test]
fn group_add_child_same() {
    let ctx = TestContext::new();
    ctx.cmd(&["group-add-child", "1", "1"]).failure().stderr("Can not add group to itself");
}

#[test]
fn group_add_child_no_parent() {
    let ctx = TestContext::new();
    ctx.cmd(&["group-add-child", "1", "2"]).failure().stderr("Group with id 1 not found");
}

#[test]
fn group_add_child_no_child() {
    let ctx = TestContext::new();
    ctx.cmd(&["create-group", "tust"]).success().stdout("Group 'tust'(id: 1) created");
    ctx.cmd(&["group-add-child", "1", "2"]).failure().stderr("Group with id 2 not found");
}

#[test]
fn group_add_child_cycle() {
    let ctx = TestContext::new();
    ctx.cmd(&["create-group", "tust"]).success().stdout("Group 'tust'(id: 1) created");
    ctx.cmd(&["create-group", "tust2"]).success().stdout("Group 'tust2'(id: 2) created");
    ctx.cmd(&["group-add-child", "1", "2"]).success().stdout("Added child 'tust2' to parent 'tust'");
    ctx.cmd(&["group-add-child", "2", "1"])
        .failure()
        .stderr("Adding child 'tust' to parent 'tust2' would create a cycle");
}

#[test]
fn group_add_child() {
    let ctx = TestContext::new();
    ctx.cmd(&["create-group", "tust"]).success().stdout("Group 'tust'(id: 1) created");
    ctx.cmd(&["create-group", "tust2"]).success().stdout("Group 'tust2'(id: 2) created");
    ctx.cmd(&["create-group", "tust3"]).success().stdout("Group 'tust3'(id: 3) created");
    ctx.cmd(&["group-add-child", "1", "2"]).success().stdout("Added child 'tust2' to parent 'tust'");
    ctx.cmd(&["group-add-child", "2", "3"]).success().stdout("Added child 'tust3' to parent 'tust2'");
}

#[test]
fn group_remove_child_same() {
    let ctx = TestContext::new();
    ctx.cmd(&["group-remove-child", "1", "1"]).failure().stderr("Can not remove group from itself");
}

#[test]
fn group_remove_child_no_parent() {
    let ctx = TestContext::new();
    ctx.cmd(&["group-remove-child", "1", "2"]).failure().stderr("Group with id 1 not found");
}

#[test]
fn group_remove_child_no_child() {
    let ctx = TestContext::new();
    ctx.cmd(&["create-group", "tust"]).success().stdout("Group 'tust'(id: 1) created");
    ctx.cmd(&["group-remove-child", "1", "2"]).failure().stderr("Group with id 2 not found");
}

#[test]
fn group_remove_child_group_is_not_a_child() {
    let ctx = TestContext::new();
    ctx.cmd(&["create-group", "tust"]).success().stdout("Group 'tust'(id: 1) created");
    ctx.cmd(&["create-group", "tust2"]).success().stdout("Group 'tust2'(id: 2) created");
    ctx.cmd(&["group-remove-child", "1", "2"])
        .success()
        .stdout("Group 'tust2' is not a child of group 'tust'");
}

#[test]
fn group_remove_child() {
    let ctx = TestContext::new();
    ctx.cmd(&["create-group", "tust"]).success().stdout("Group 'tust'(id: 1) created");
    ctx.cmd(&["create-group", "tust2"]).success().stdout("Group 'tust2'(id: 2) created");
    ctx.cmd(&["create-group", "tust3"]).success().stdout("Group 'tust3'(id: 3) created");
    ctx.cmd(&["group-add-child", "1", "2"]).success().stdout("Added child 'tust2' to parent 'tust'");
    ctx.cmd(&["group-add-child", "1", "3"]).success().stdout("Added child 'tust3' to parent 'tust'");
    ctx.cmd(&["group-remove-child", "1", "2"])
        .success()
        .stdout("Removed child 'tust2' from parent 'tust'");
    ctx.cmd(&["group-list-children", "1"])
        .success()
        .stdout("1 children in group 'tust':")
        .stdout_lacks("tust2")
        .stdout("tust3");
}

#[test]
fn group_list_children_no_group() {
    let ctx = TestContext::new();
    ctx.cmd(&["group-list-children", "1"]).failure().stderr("Group with id 1 not found");
}

#[test]
fn group_list_children_empty() {
    let ctx = TestContext::new();
    ctx.cmd(&["create-group", "tust"]).success().stdout("Group 'tust'(id: 1) created");
    ctx.cmd(&["group-list-children", "1"]).success().stdout("No children");
}

#[test]
fn group_list_children() {
    let ctx = TestContext::new();
    ctx.cmd(&["create-group", "tust"]).success().stdout("Group 'tust'(id: 1) created");
    ctx.cmd(&["create-group", "tust2"]).success().stdout("Group 'tust2'(id: 2) created");
    ctx.cmd(&["create-group", "tust3"]).success().stdout("Group 'tust3'(id: 3) created");
    ctx.cmd(&["group-add-child", "1", "2"]).success().stdout("Added child 'tust2' to parent 'tust'");
    ctx.cmd(&["group-add-child", "1", "3"]).success().stdout("Added child 'tust3' to parent 'tust'");
    ctx.cmd(&["group-list-children", "1"])
        .success()
        .stdout("2 children in group 'tust':")
        .stdout("tust2")
        .stdout("tust3");
}

#[test]
fn group_has_child_no_parent() {
    let ctx = TestContext::new();
    ctx.cmd(&["group-has-child", "1", "2"]).failure().stderr("Group with id 1 not found");
}

#[test]
fn group_has_child_no_child() {
    let ctx = TestContext::new();
    ctx.cmd(&["create-group", "tust"]).success().stdout("Group 'tust'(id: 1) created");
    ctx.cmd(&["group-has-child", "1", "2"]).failure().stderr("Group with id 2 not found");
}

#[test]
fn group_has_child_false() {
    let ctx = TestContext::new();
    ctx.cmd(&["create-group", "tust"]).success().stdout("Group 'tust'(id: 1) created");
    ctx.cmd(&["create-group", "tust2"]).success().stdout("Group 'tust2'(id: 2) created");
    ctx.cmd(&["group-has-child", "1", "2"])
        .success()
        .stdout("Group 'tust' does not have child 'tust2'");
}

#[test]
fn group_has_child_true() {
    let ctx = TestContext::new();
    ctx.cmd(&["create-group", "tust"]).success().stdout("Group 'tust'(id: 1) created");
    ctx.cmd(&["create-group", "tust2"]).success().stdout("Group 'tust2'(id: 2) created");
    ctx.cmd(&["group-add-child", "1", "2"]).success().stdout("Added child 'tust2' to parent 'tust'");
    ctx.cmd(&["group-has-child", "1", "2"]).success().stdout("Group 'tust' has child 'tust2'");
}

#[test]
fn group_add_tag_no_group() {
    let ctx = TestContext::new();
    ctx.cmd(&["group-add-tag", "1", "tust"]).failure().stderr("Group with id 1 not found");
}

#[test]
fn group_add_tag() {
    let ctx = TestContext::new();
    ctx.cmd(&["create-group", "tust"]).success().stdout("Group 'tust'(id: 1) created");
    ctx.cmd(&["group-add-tag", "1", "tust1"]).success().stdout("Added tag 'tust1' to group 'tust'");
    ctx.cmd(&["group-add-tag", "1", "tust2"]).success().stdout("Added tag 'tust2' to group 'tust'");
    ctx.cmd(&["group-add-tag", "1", "tust1"]).success().stdout("Added tag 'tust1' to group 'tust'");
    ctx.cmd(&["group-list-tags", "1"])
        .success()
        .stdout("2 tags in group 'tust':")
        .stdout("tust1")
        .stdout("tust2");
}

#[test]
fn group_remove_tag_no_group() {
    let ctx = TestContext::new();
    ctx.cmd(&["group-remove-tag", "1", "tust"]).failure().stderr("Group with id 1 not found");
}

#[test]
fn group_remove_tag_no_tag() {
    let ctx = TestContext::new();
    ctx.cmd(&["create-group", "tust"]).success().stdout("Group 'tust'(id: 1) created");
    ctx.cmd(&["group-remove-tag", "1", "tust"]).failure().stderr("Tag 'tust' does not exist");
}

#[test]
fn group_remove_tag() {
    let ctx = TestContext::new();
    ctx.cmd(&["create-group", "tust"]).success().stdout("Group 'tust'(id: 1) created");
    ctx.cmd(&["group-add-tag", "1", "tust1"]).success().stdout("Added tag 'tust1' to group 'tust'");
    ctx.cmd(&["group-add-tag", "1", "tust2"]).success().stdout("Added tag 'tust2' to group 'tust'");
    ctx.cmd(&["group-remove-tag", "1", "tust1"])
        .success()
        .stdout("Removed tag 'tust1' from group 'tust'");
    ctx.cmd(&["group-list-tags", "1"])
        .success()
        .stdout("1 tags in group 'tust':")
        .stdout("tust2")
        .stdout_lacks("tust1");
}

#[test]
fn group_list_tags_no_group() {
    let ctx = TestContext::new();
    ctx.cmd(&["group-list-tags", "1"]).failure().stderr("Group with id 1 not found");
}

#[test]
fn group_list_tags_empty() {
    let ctx = TestContext::new();
    ctx.cmd(&["create-group", "tust"]).success().stdout("Group 'tust'(id: 1) created");
    ctx.cmd(&["group-list-tags", "1"]).success().stdout("No tags");
}

#[test]
fn group_list_tags() {
    let ctx = TestContext::new();
    ctx.cmd(&["create-group", "tust"]).success().stdout("Group 'tust'(id: 1) created");
    ctx.cmd(&["group-add-tag", "1", "tust1"]).success().stdout("Added tag 'tust1' to group 'tust'");
    ctx.cmd(&["group-add-tag", "1", "tust2"]).success().stdout("Added tag 'tust2' to group 'tust'");
    ctx.cmd(&["group-list-tags", "1"])
        .success()
        .stdout("2 tags in group 'tust':")
        .stdout("tust1")
        .stdout("tust2");
}

#[test]
fn group_has_tag_no_group() {
    let ctx = TestContext::new();
    ctx.cmd(&["group-has-tag", "1", "tust"]).failure().stderr("Group with id 1 not found");
}

#[test]
fn group_has_tag_false() {
    let ctx = TestContext::new();
    ctx.cmd(&["create-group", "tust"]).success().stdout("Group 'tust'(id: 1) created");
    ctx.cmd(&["create-group", "tust2"]).success().stdout("Group 'tust2'(id: 2) created");
    ctx.cmd(&["group-add-tag", "2", "tust"]).success().stdout("Added tag 'tust' to group 'tust2'");
    ctx.cmd(&["group-has-tag", "1", "tust"])
        .success()
        .stdout("Group 'tust' does not have tag 'tust'");
}

#[test]
fn group_has_tag_true() {
    let ctx = TestContext::new();
    ctx.cmd(&["create-group", "tust"]).success().stdout("Group 'tust'(id: 1) created");
    ctx.cmd(&["group-add-tag", "1", "tust"]).success().stdout("Added tag 'tust' to group 'tust'");
    ctx.cmd(&["group-has-tag", "1", "tust"]).success().stdout("Group 'tust' has tag 'tust'");
}
