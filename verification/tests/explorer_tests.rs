use std::cell::RefCell;
use std::collections::HashMap;
use std::rc::Rc;

use file_explorer::Command;
use file_explorer::FileEntry;
use file_explorer::FileExplorer;
use file_explorer::FileSystem;
use file_explorer::FsError;
use file_explorer::path_ops::join_path;
use file_explorer::path_ops::parent_of;
use file_explorer::path_ops::stem_of;

struct MockState {
    dirs: HashMap<String, Vec<FileEntry>>,
    deleted: Vec<String>,
    fail_reads: bool,
}

#[derive(Clone)]
struct MockFs {
    state: Rc<RefCell<MockState>>,
}

impl MockFs {
    fn new() -> MockFs {
        MockFs {
            state: Rc::new(RefCell::new(MockState {
                dirs: HashMap::new(),
                deleted: Vec::new(),
                fail_reads: false,
            })),
        }
    }

    fn dir(self, path: &str, entries: Vec<FileEntry>) -> MockFs {
        self.state.borrow_mut().dirs.insert(path.to_string(), entries);
        self
    }

    fn set_fail_reads(&self, fail: bool) {
        self.state.borrow_mut().fail_reads = fail;
    }

    fn deleted(&self) -> Vec<String> {
        self.state.borrow().deleted.clone()
    }
}

impl FileSystem for MockFs {
    fn read_dir(&self, path: &str) -> Result<Vec<FileEntry>, FsError> {
        let state = self.state.borrow();
        if state.fail_reads {
            return Err(FsError::Other);
        }
        match state.dirs.get(path) {
            Some(entries) => Ok(entries.clone()),
            None => Err(FsError::NotFound),
        }
    }

    fn path_exists(&self, path: &str) -> Result<bool, FsError> {
        Ok(self.state.borrow().dirs.contains_key(path))
    }

    fn is_dir(&self, path: &str) -> Result<bool, FsError> {
        Ok(self.state.borrow().dirs.contains_key(path))
    }

    fn canonicalize(&self, path: &str) -> Result<String, FsError> {
        Ok(path.to_string())
    }

    fn parent(&self, path: &str) -> Option<String> {
        parent_of(path)
    }

    fn delete(&self, path: &str) -> Result<(), FsError> {
        let mut state = self.state.borrow_mut();
        for entries in state.dirs.values_mut() {
            entries.retain(|e| e.path != path);
        }
        state.deleted.push(path.to_string());
        Ok(())
    }
}

fn entry(dir: &str, name: &str, is_dir: bool, is_hidden: bool) -> FileEntry {
    let path = join_path(dir, &stem_of(name));
    FileEntry {
        name: name.to_string(),
        path,
        is_dir,
        is_file: !is_dir,
        is_hidden,
        size: if is_dir { None } else { Some(1) },
        modified: None,
        perms: None,
        link_target: None,
    }
}

fn names<F: FileSystem>(explorer: &FileExplorer<F>) -> Vec<String> {
    explorer.files().iter().map(|e| e.name.clone()).collect()
}

fn filtered_names<F: FileSystem>(explorer: &FileExplorer<F>) -> Vec<String> {
    let files = explorer.files();
    explorer.filtered_indices().iter().map(|&i| files[i].name.clone()).collect()
}

fn home_explorer() -> FileExplorer<MockFs> {
    let fs = MockFs::new()
        .dir(
            "/home",
            vec![
                entry("/home", "Documents/", true, false),
                entry("/home", "passport.png", false, false),
                entry("/home", "resume.pdf", false, false),
            ],
        )
        .dir("/", vec![entry("/", "home/", true, false)]);
    FileExplorer::with_fs(fs, "/home".to_string()).unwrap()
}

#[test]
fn with_fs_initial_state() {
    let explorer = home_explorer();
    assert_eq!(explorer.cwd().as_str(), "/home");
    assert!(!explorer.show_hidden());
    assert!(explorer.search_filter().is_none());
    assert_eq!(explorer.selected_idx(), 0);
    assert_eq!(explorer.scroll_offset(), 0);
    assert_eq!(names(&explorer), vec!["../", "Documents/", "passport.png", "resume.pdf"]);
}

#[test]
fn move_down_wraps_from_last_to_first() {
    let fs = MockFs::new().dir(
        "/",
        vec![
            entry("/", "a/", true, false),
            entry("/", "b.txt", false, false),
            entry("/", "c.txt", false, false),
        ],
    );
    let mut explorer = FileExplorer::with_fs(fs, "/".to_string()).unwrap();
    explorer.set_selected_idx(2);
    assert_eq!(explorer.selected_position(), 2);
    explorer.handle(Command::MoveDown).unwrap();
    assert_eq!(explorer.selected_position(), 0);
}

#[test]
fn move_up_wraps_from_first_to_last() {
    let fs = MockFs::new().dir(
        "/",
        vec![
            entry("/", "a/", true, false),
            entry("/", "b.txt", false, false),
            entry("/", "c.txt", false, false),
        ],
    );
    let mut explorer = FileExplorer::with_fs(fs, "/".to_string()).unwrap();
    assert_eq!(explorer.selected_position(), 0);
    explorer.handle(Command::MoveUp).unwrap();
    assert_eq!(explorer.selected_position(), 2);
}

#[test]
fn move_home_and_end() {
    let mut explorer = home_explorer();
    explorer.handle(Command::MoveEnd).unwrap();
    assert_eq!(explorer.current().name(), "resume.pdf");
    explorer.handle(Command::MoveHome).unwrap();
    assert_eq!(explorer.current().name(), "../");
}

#[test]
fn page_commands_clamp_instead_of_wrapping() {
    let mut batch = Vec::new();
    for i in 0..15 {
        batch.push(entry("/", &format!("f{:02}.txt", i), false, false));
    }
    let fs = MockFs::new().dir("/", batch);
    let mut explorer = FileExplorer::with_fs(fs, "/".to_string()).unwrap();
    explorer.handle(Command::PageDown).unwrap();
    assert_eq!(explorer.selected_position(), 12);
    explorer.handle(Command::PageDown).unwrap();
    assert_eq!(explorer.selected_position(), 14);
    explorer.handle(Command::PageUp).unwrap();
    assert_eq!(explorer.selected_position(), 2);
    explorer.handle(Command::PageUp).unwrap();
    assert_eq!(explorer.selected_position(), 0);
}

#[test]
fn movement_on_empty_listing_is_a_silent_no_op() {
    let fs = MockFs::new().dir("/", vec![]);
    let mut explorer = FileExplorer::with_fs(fs, "/".to_string()).unwrap();
    assert_eq!(names(&explorer), Vec::<String>::new());
    explorer.handle(Command::MoveDown).unwrap();
    explorer.handle(Command::MoveUp).unwrap();
    explorer.handle(Command::MoveHome).unwrap();
    explorer.handle(Command::MoveEnd).unwrap();
    explorer.handle(Command::PageDown).unwrap();
    explorer.handle(Command::DeleteCurrent).unwrap();
    assert_eq!(explorer.selected_idx(), 0);
}

#[test]
fn set_search_filter_none_restores_whole_view() {
    let mut explorer = home_explorer();
    explorer.set_search_filter(Some("doc".to_string()));
    assert_eq!(filtered_names(&explorer), vec!["Documents/"]);
    explorer.set_search_filter(None);
    assert_eq!(explorer.filtered_indices(), &vec![0usize, 1, 2, 3]);
    assert_eq!(filtered_names(&explorer), names(&explorer));
}

#[test]
fn search_filter_is_case_insensitive_substring() {
    let mut explorer = home_explorer();
    explorer.set_search_filter(Some("DoC".to_string()));
    assert_eq!(filtered_names(&explorer), vec!["Documents/"]);
    explorer.set_search_filter(Some("PASSPORT".to_string()));
    assert_eq!(filtered_names(&explorer), vec!["passport.png"]);
}

#[test]
fn search_filter_resolves_selection_to_first_filtered_position() {
    let mut explorer = home_explorer();
    // the cursor stays on "../" in unfiltered coordinates, which does not
    // match; the user-facing position defaults to the first filtered one
    explorer.set_search_filter(Some("doc".to_string()));
    assert_eq!(explorer.selected_idx(), 0);
    assert_eq!(explorer.selected_position(), 0);
    assert_eq!(filtered_names(&explorer), vec!["Documents/"]);
}

#[test]
fn search_filter_does_not_move_the_cursor() {
    let mut explorer = home_explorer();
    explorer.set_selected_idx(2);
    explorer.set_search_filter(Some("p".to_string()));
    assert_eq!(explorer.selected_idx(), 2);
    explorer.set_search_filter(None);
    assert_eq!(explorer.selected_idx(), 2);
}

#[test]
fn movement_respects_search_filter() {
    let mut explorer = home_explorer();
    explorer.set_search_filter(Some(".p".to_string()));
    assert_eq!(filtered_names(&explorer), vec!["passport.png", "resume.pdf"]);
    explorer.handle(Command::MoveDown).unwrap();
    assert_eq!(explorer.current().name(), "resume.pdf");
    explorer.handle(Command::MoveDown).unwrap();
    assert_eq!(explorer.current().name(), "passport.png");
}

#[test]
fn descend_then_ascend_round_trip() {
    let fs = MockFs::new()
        .dir(
            "/",
            vec![entry("/", "Documents/", true, false), entry("/", "passport.png", false, false)],
        )
        .dir("/Documents", vec![entry("/Documents", "notes.txt", false, false)]);
    let mut explorer = FileExplorer::with_fs(fs, "/".to_string()).unwrap();
    assert!(explorer.select_file("Documents/"));
    explorer.handle(Command::Descend).unwrap();
    assert_eq!(explorer.cwd().as_str(), "/Documents");
    assert_eq!(names(&explorer), vec!["../", "notes.txt"]);
    assert_eq!(explorer.selected_idx(), 0);
    explorer.handle(Command::Ascend).unwrap();
    assert_eq!(explorer.cwd().as_str(), "/");
    assert_eq!(explorer.current().name(), "Documents/");
}

#[test]
fn descend_through_parent_entry_ascends() {
    let fs = MockFs::new()
        .dir("/", vec![entry("/", "home/", true, false)])
        .dir("/home", vec![entry("/home", "notes.txt", false, false)]);
    let mut explorer = FileExplorer::with_fs(fs, "/home".to_string()).unwrap();
    assert_eq!(explorer.current().name(), "../");
    explorer.handle(Command::Descend).unwrap();
    assert_eq!(explorer.cwd().as_str(), "/");
}

#[test]
fn descend_on_file_is_a_no_op() {
    let mut explorer = home_explorer();
    assert!(explorer.select_file("passport.png"));
    explorer.handle(Command::Descend).unwrap();
    assert_eq!(explorer.cwd().as_str(), "/home");
    assert_eq!(explorer.current().name(), "passport.png");
}

#[test]
fn ascend_at_root_is_a_no_op() {
    let fs = MockFs::new().dir("/", vec![entry("/", "home/", true, false)]);
    let mut explorer = FileExplorer::with_fs(fs, "/".to_string()).unwrap();
    explorer.handle(Command::Ascend).unwrap();
    assert_eq!(explorer.cwd().as_str(), "/");
}

#[test]
fn no_op_branches_succeed_without_the_backend() {
    // at a root there is no parent: an ascent answers Ok and touches
    // nothing, even when every backend read would fail
    let fs = MockFs::new().dir("/", vec![entry("/", "notes.txt", false, false)]);
    let mut explorer = FileExplorer::with_fs(fs.clone(), "/".to_string()).unwrap();
    fs.set_fail_reads(true);
    assert_eq!(explorer.handle(Command::Ascend), Ok(()));
    assert_eq!(explorer.cwd().as_str(), "/");
    // the cursor stands on a file: a descent is an Ok no-op
    assert_eq!(explorer.handle(Command::Descend), Ok(()));
    assert_eq!(explorer.cwd().as_str(), "/");
}

#[test]
fn delete_current_on_directory_is_a_no_op() {
    let mut explorer = home_explorer();
    assert!(explorer.select_file("Documents/"));
    let before = names(&explorer);
    explorer.handle(Command::DeleteCurrent).unwrap();
    assert_eq!(names(&explorer), before);
    assert_eq!(explorer.current().name(), "Documents/");
}

#[test]
fn delete_current_never_reaches_the_backend_for_directories() {
    let fs = MockFs::new().dir("/", vec![entry("/", "Documents/", true, false)]);
    let mut explorer = FileExplorer::with_fs(fs.clone(), "/".to_string()).unwrap();
    explorer.handle(Command::DeleteCurrent).unwrap();
    assert_eq!(fs.deleted(), Vec::<String>::new());
}

#[test]
fn delete_current_removes_file_and_clamps_selection() {
    let fs = MockFs::new().dir(
        "/",
        vec![
            entry("/", "a.txt", false, false),
            entry("/", "b.txt", false, false),
            entry("/", "c.txt", false, false),
        ],
    );
    let mut explorer = FileExplorer::with_fs(fs.clone(), "/".to_string()).unwrap();
    explorer.set_selected_idx(2);
    explorer.handle(Command::DeleteCurrent).unwrap();
    assert_eq!(fs.deleted(), vec!["/c.txt"]);
    assert_eq!(names(&explorer), vec!["a.txt", "b.txt"]);
    assert_eq!(explorer.selected_idx(), 1);
    assert_eq!(explorer.current().name(), "b.txt");
}

#[test]
fn delete_current_keeps_selection_when_still_in_bounds() {
    let fs = MockFs::new().dir(
        "/",
        vec![
            entry("/", "a.txt", false, false),
            entry("/", "b.txt", false, false),
            entry("/", "c.txt", false, false),
        ],
    );
    let mut explorer = FileExplorer::with_fs(fs, "/".to_string()).unwrap();
    explorer.set_selected_idx(0);
    explorer.handle(Command::DeleteCurrent).unwrap();
    assert_eq!(names(&explorer), vec!["b.txt", "c.txt"]);
    assert_eq!(explorer.selected_idx(), 0);
    assert_eq!(explorer.current().name(), "b.txt");
}

#[test]
fn hidden_files_are_dropped_until_shown() {
    let fs = MockFs::new().dir(
        "/",
        vec![entry("/", ".git/", true, true), entry("/", "src/", true, false)],
    );
    let mut explorer = FileExplorer::with_fs(fs, "/".to_string()).unwrap();
    assert_eq!(names(&explorer), vec!["src/"]);
    explorer.set_show_hidden(true).unwrap();
    assert!(explorer.show_hidden());
    assert_eq!(names(&explorer), vec![".git/", "src/"]);
    assert_eq!(explorer.selected_idx(), 0);
}

#[test]
fn toggle_hidden_twice_restores_the_sequence() {
    let fs = MockFs::new().dir(
        "/",
        vec![
            entry("/", ".config/", true, true),
            entry("/", "music/", true, false),
            entry("/", "notes.txt", false, false),
        ],
    );
    let mut explorer = FileExplorer::with_fs(fs, "/".to_string()).unwrap();
    let before = names(&explorer);
    explorer.handle(Command::ToggleHidden).unwrap();
    assert_eq!(names(&explorer), vec![".config/", "music/", "notes.txt"]);
    explorer.handle(Command::ToggleHidden).unwrap();
    assert_eq!(names(&explorer), before);
}

#[test]
fn failed_reload_keeps_prior_state() {
    let fs = MockFs::new().dir("/", vec![entry("/", "a.txt", false, false)]);
    let mut explorer = FileExplorer::with_fs(fs.clone(), "/".to_string()).unwrap();
    let before = names(&explorer);
    fs.set_fail_reads(true);
    assert_eq!(explorer.set_cwd("/somewhere".to_string()), Err(FsError::Other));
    assert_eq!(explorer.cwd().as_str(), "/");
    assert_eq!(names(&explorer), before);
    assert_eq!(explorer.set_show_hidden(true), Err(FsError::Other));
    assert!(!explorer.show_hidden());
    assert_eq!(explorer.handle(Command::ToggleHidden), Err(FsError::Other));
    assert!(!explorer.show_hidden());
}

#[test]
fn set_cwd_to_missing_directory_reports_not_found() {
    let fs = MockFs::new().dir("/", vec![]);
    let mut explorer = FileExplorer::with_fs(fs, "/".to_string()).unwrap();
    assert_eq!(explorer.set_cwd("/nowhere".to_string()), Err(FsError::NotFound));
    assert_eq!(explorer.cwd().as_str(), "/");
}

#[test]
fn with_fs_fails_when_initial_directory_cannot_be_listed() {
    let fs = MockFs::new();
    assert!(FileExplorer::with_fs(fs, "/".to_string()).is_err());
}

#[test]
fn select_file_finds_and_reports() {
    let mut explorer = home_explorer();
    assert!(explorer.select_file("resume.pdf"));
    assert_eq!(explorer.current().name(), "resume.pdf");
    let selected = explorer.selected_idx();
    assert!(!explorer.select_file("missing.txt"));
    assert_eq!(explorer.selected_idx(), selected);
}

#[test]
fn set_selected_idx_selects_filtered_position() {
    let mut explorer = home_explorer();
    explorer.set_search_filter(Some("p".to_string()));
    assert_eq!(filtered_names(&explorer), vec!["passport.png", "resume.pdf"]);
    explorer.set_selected_idx(1);
    assert_eq!(explorer.current().name(), "resume.pdf");
}

#[test]
fn selection_stays_in_bounds_after_every_command() {
    let mut explorer = home_explorer();
    let commands = vec![
        Command::MoveDown,
        Command::MoveDown,
        Command::PageDown,
        Command::MoveUp,
        Command::MoveEnd,
        Command::ToggleHidden,
        Command::MoveDown,
        Command::MoveHome,
        Command::PageUp,
        Command::Noop,
    ];
    for command in commands {
        explorer.handle(command).unwrap();
        assert!(explorer.selected_idx() < explorer.files().len());
    }
}

#[test]
fn marked_paths_survive_reloads_and_match_exactly() {
    let mut explorer = home_explorer();
    explorer.set_marked_paths(vec!["/home/passport.png".to_string()]);
    assert!(explorer.is_marked("/home/passport.png"));
    assert!(!explorer.is_marked("/home/resume.pdf"));
    explorer.handle(Command::ToggleHidden).unwrap();
    assert!(explorer.is_marked("/home/passport.png"));
    assert_eq!(explorer.marked_paths(), &vec!["/home/passport.png".to_string()]);
}

#[test]
fn backend_paths_are_carried_and_navigated() {
    // the listing keeps each entry's backend-reported path, and a
    // descent goes to exactly that path
    let mut share = entry("/", "share/", true, false);
    share.path = "remote::share".to_string();
    let fs = MockFs::new()
        .dir("/", vec![share])
        .dir("remote::share", vec![entry("remote::share", "notes.txt", false, false)]);
    let mut explorer = FileExplorer::with_fs(fs, "/".to_string()).unwrap();
    assert_eq!(explorer.files()[0].path(), "remote::share");
    explorer.handle(Command::Descend).unwrap();
    assert_eq!(explorer.cwd().as_str(), "remote::share");
    // a separator-free path is a root of its own: no parent entry
    assert_eq!(names(&explorer), vec!["notes.txt"]);
}

#[test]
fn filtered_files_lists_matching_entries_in_order() {
    let mut explorer = home_explorer();
    explorer.set_search_filter(Some("p".to_string()));
    let files: Vec<String> = explorer.filtered_files().iter().map(|e| e.name.clone()).collect();
    assert_eq!(files, vec!["passport.png", "resume.pdf"]);
}

#[test]
fn scroll_offset_round_trips() {
    let mut explorer = home_explorer();
    explorer.set_scroll_offset(5);
    assert_eq!(explorer.scroll_offset(), 5);
}
