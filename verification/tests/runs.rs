use recall::config::{Config, Task};
use recall::materializer::{create_missing_files, Materialize, Progress};
use recall::session::{
    execute_create, execute_delete, execute_edit, execute_help, execute_list, execute_read, run,
    Action, Event, USAGE,
};
use recall::tree::Entry;
use std::collections::{BTreeMap, BTreeSet};

/// A disk in memory: what a driver would find and change.
#[derive(Clone, Debug, PartialEq)]
struct Disk {
    dirs: BTreeSet<String>,
    files: BTreeMap<String, String>,
}

fn trimmed(path: &str) -> &str {
    if path.len() > 1 && path.ends_with('/') {
        &path[..path.len() - 1]
    } else {
        path
    }
}

fn parent(path: &str) -> &str {
    match path.rfind('/') {
        Some(at) => &path[..at],
        None => "",
    }
}

fn name(path: &str) -> &str {
    match path.rfind('/') {
        Some(at) => &path[at + 1..],
        None => path,
    }
}

impl Disk {
    fn with_root(root: &str) -> Disk {
        let mut disk = Disk { dirs: BTreeSet::new(), files: BTreeMap::new() };
        disk.dirs.insert(root.to_string());
        disk
    }

    fn has(&self, path: &str) -> bool {
        self.dirs.contains(path) || self.files.contains_key(path)
    }

    fn make_dir(&mut self, dir: &str) -> Result<(), String> {
        if self.has(dir) {
            return Err(String::from("File exists (os error 17)"));
        }
        if !self.dirs.contains(parent(dir)) {
            return Err(String::from("No such file or directory (os error 2)"));
        }
        self.dirs.insert(dir.to_string());
        Ok(())
    }

    fn write(&mut self, file: &str, content: &str) -> Result<(), String> {
        if !self.dirs.contains(parent(file)) {
            return Err(String::from("No such file or directory (os error 2)"));
        }
        if self.dirs.contains(file) {
            return Err(String::from("Is a directory (os error 21)"));
        }
        self.files.insert(file.to_string(), content.to_string());
        Ok(())
    }

    fn scan(&self, dir: &str) -> Option<Vec<Entry>> {
        let dir = trimmed(dir);
        if !self.dirs.contains(dir) {
            return None;
        }
        let mut found = Vec::new();
        for file in self.files.keys() {
            if parent(file) == dir {
                found.push(Entry::File { name: name(file).to_string() });
            }
        }
        for sub in self.dirs.iter() {
            if sub != dir && parent(sub) == dir {
                found.push(Entry::Dir { name: name(sub).to_string(), contents: self.scan(sub) });
            }
        }
        Some(found)
    }

    fn remove_all(&mut self, dir: &str) -> Result<(), String> {
        let dir = trimmed(dir).to_string();
        if !self.dirs.contains(&dir) {
            return Err(String::from("No such file or directory (os error 2)"));
        }
        let below = format!("{}/", dir);
        self.dirs.retain(|d| *d != dir && !d.starts_with(&below));
        self.files.retain(|f, _| !f.starts_with(&below));
        Ok(())
    }
}

/// What a run did.
#[derive(Debug)]
struct Log {
    outcome: Result<(), String>,
    printed: String,
    made: Vec<String>,
    removed: Vec<String>,
    edited: Vec<(String, String)>,
    asked: usize,
}

/// Runs `config` to its end on `disk`, doing what each action asks for.
fn drive(config: &Config, disk: &mut Disk, answers: &[&str]) -> Log {
    let mut log = Log {
        outcome: Ok(()),
        printed: String::new(),
        made: Vec::new(),
        removed: Vec::new(),
        edited: Vec::new(),
        asked: 0,
    };
    let mut event = Event::Begin;
    for _ in 0..1000 {
        event = match run(config, event) {
            Action::Scan { dir } => Event::Scanned { found: disk.scan(&dir) },
            Action::Show { files } => {
                let mut failure = None;
                for file in files {
                    match disk.files.get(&file) {
                        Some(content) => {
                            log.printed.push_str(content);
                            log.printed.push('\n');
                        }
                        None => {
                            failure = Some(String::from("No such file or directory (os error 2)"));
                            break;
                        }
                    }
                }
                Event::Shown { failure }
            }
            Action::Probe { level, file } => Event::Probed { level, present: disk.has(&file) },
            Action::MakeDir { level, dir } => {
                let failure = disk.make_dir(&dir).err();
                if failure.is_none() {
                    log.made.push(dir);
                }
                Event::DirMade { level, failure }
            }
            Action::MakeFile { level, file, heading } => {
                let failure = disk.write(&file, &heading).err();
                if failure.is_none() {
                    log.made.push(file);
                }
                Event::FileMade { level, failure }
            }
            Action::Edit { editor, file } => {
                log.edited.push((editor, file));
                Event::Edited { failure: None }
            }
            Action::Ask { text } => {
                log.printed.push_str(&text);
                let line = answers[log.asked].to_string();
                log.asked += 1;
                Event::Answered { line }
            }
            Action::Remove { dir } => {
                let failure = disk.remove_all(&dir).err();
                if failure.is_none() {
                    log.removed.push(dir);
                }
                Event::Removed { failure }
            }
            Action::Finish { text, outcome } => {
                log.printed.push_str(&text);
                log.outcome = outcome;
                return log;
            }
        };
    }
    panic!("the run did not end");
}

/// Brings a note into being on `disk` and says which paths were made.
fn materialize(root: &str, parts: &[String], disk: &mut Disk) -> (Result<String, String>, Vec<String>) {
    let mut made = Vec::new();
    let mut progress = Progress::Begin;
    for _ in 0..1000 {
        progress = match create_missing_files(root, parts, progress) {
            Materialize::Probe { level, file } => Progress::Probed { level, present: disk.has(&file) },
            Materialize::MakeDir { level, dir } => {
                let failure = disk.make_dir(&dir).err();
                if failure.is_none() {
                    made.push(dir);
                }
                Progress::DirMade { level, failure }
            }
            Materialize::MakeFile { level, file, heading } => {
                let failure = disk.write(&file, &heading).err();
                if failure.is_none() {
                    made.push(file);
                }
                Progress::FileMade { level, failure }
            }
            Materialize::Done { deepest } => return (Ok(deepest), made),
            Materialize::Failed { path, error } => return (Err(format!("{}: {}", path, error)), made),
        };
    }
    panic!("the making did not end");
}

fn strings(words: &[&str]) -> Vec<String> {
    words.iter().map(|w| w.to_string()).collect()
}

fn config(task: Task, root: &str, parts: &[&str]) -> Config {
    Config {
        recall_root_dir: root.to_string(),
        editor: String::from("vim"),
        path_parts: strings(parts),
        task,
    }
}

/// A disk with a few notes on it.
fn notes() -> Disk {
    let mut disk = Disk::with_root("/notes");
    for parts in [vec!["vim", "surround"], vec!["vim", "motions"], vec!["tmux"]] {
        let parts: Vec<String> = parts.iter().map(|p| p.to_string()).collect();
        let (result, _) = materialize("/notes", &parts, &mut disk);
        assert!(result.is_ok());
    }
    disk
}

#[test]
fn create_successfully_creates_files_for_each_level() {
    let root_dir = "./test/create_test_dir";
    let mut disk = Disk::with_root(root_dir);
    let args: [String; 2] = [String::from("swift"), String::from("keypath")];
    let arg_vec = args.to_vec();
    let _create_missing_files = materialize(root_dir, &arg_vec, &mut disk);

    let swift_md_path = format!("{}/swift/swift.md", root_dir);
    assert!(disk.has(&swift_md_path));

    let keypath_md_path = format!("{}/swift/swift.md", root_dir);
    assert!(disk.has(&keypath_md_path));

    // Cleanup.
    let cleanup = config(Task::Delete, root_dir, &["swift"]);
    let _ = drive(&cleanup, &mut disk, &["YES\n"]);

    assert!(disk.has(&format!("{}/swift", root_dir)) == false);
}

#[test]
fn makes_exactly_the_two_levels() {
    let mut disk = Disk::with_root("root");
    let (result, made) = materialize("root", &strings(&["swift", "keypath"]), &mut disk);
    assert_eq!(result, Ok(String::from("root/swift/keypath/keypath.md")));
    assert_eq!(
        made,
        strings(&[
            "root/swift",
            "root/swift/swift.md",
            "root/swift/keypath",
            "root/swift/keypath/keypath.md",
        ])
    );
    assert_eq!(disk.dirs, strings(&["root", "root/swift", "root/swift/keypath"]).into_iter().collect());
    assert_eq!(disk.files.len(), 2);
    assert_eq!(disk.files["root/swift/swift.md"], "# Swift");
    assert_eq!(disk.files["root/swift/keypath/keypath.md"], "## Keypath");
}

#[test]
fn making_twice_is_making_once() {
    let parts = strings(&["rust", "release", "install"]);
    let mut disk = Disk::with_root("/notes");
    let (first, made) = materialize("/notes", &parts, &mut disk);
    assert_eq!(made.len(), 6);
    let after_first = disk.clone();
    let (second, made) = materialize("/notes", &parts, &mut disk);
    assert!(made.is_empty());
    assert_eq!(disk, after_first);
    assert_eq!(first, second);
    assert_eq!(second, Ok(String::from("/notes/rust/release/install/install.md")));
}

#[test]
fn every_level_of_a_note_is_there() {
    let parts = strings(&["rust", "release", "install"]);
    let mut disk = Disk::with_root("/notes");
    let (result, _) = materialize("/notes", &parts, &mut disk);
    assert!(result.is_ok());
    for (dir, file) in [
        ("/notes/rust", "/notes/rust/rust.md"),
        ("/notes/rust/release", "/notes/rust/release/release.md"),
        ("/notes/rust/release/install", "/notes/rust/release/install/install.md"),
    ] {
        assert!(disk.dirs.contains(dir));
        assert!(disk.files.contains_key(file));
    }
    assert_eq!(disk.files["/notes/rust/release/install/install.md"], "### Install");
}

#[test]
fn only_the_missing_levels_are_made() {
    let mut disk = Disk::with_root("/notes");
    let (_, _) = materialize("/notes", &strings(&["rust"]), &mut disk);
    disk.files.insert(String::from("/notes/rust/rust.md"), String::from("# Rust\nedited since"));
    let (result, made) = materialize("/notes", &strings(&["rust", "release"]), &mut disk);
    assert_eq!(result, Ok(String::from("/notes/rust/release/release.md")));
    assert_eq!(made, strings(&["/notes/rust/release", "/notes/rust/release/release.md"]));
    assert_eq!(disk.files["/notes/rust/rust.md"], "# Rust\nedited since");
    assert_eq!(disk.files["/notes/rust/release/release.md"], "## Release");
}

#[test]
fn a_missing_root_fails_at_the_first_directory() {
    let mut disk = Disk { dirs: BTreeSet::new(), files: BTreeMap::new() };
    let (result, made) = materialize("/nowhere", &strings(&["a", "b"]), &mut disk);
    assert_eq!(result, Err(String::from("/nowhere/a: No such file or directory (os error 2)")));
    assert!(made.is_empty());
}

#[test]
fn a_failure_leaves_what_was_made() {
    let mut disk = Disk::with_root("/notes");
    disk.dirs.insert(String::from("/notes/a"));
    disk.files.insert(String::from("/notes/a/a.md"), String::from("# A"));
    disk.dirs.insert(String::from("/notes/a/b/c"));
    let (result, made) = materialize("/notes", &strings(&["a", "b", "c"]), &mut disk);
    assert_eq!(made, strings(&["/notes/a/b", "/notes/a/b/b.md"]));
    assert_eq!(result, Err(String::from("/notes/a/b/c: File exists (os error 17)")));
    assert!(disk.files.contains_key("/notes/a/b/b.md"));
}

#[test]
fn a_directory_without_its_file_is_not_made_again() {
    let mut disk = Disk::with_root("/notes");
    disk.dirs.insert(String::from("/notes/a"));
    let (result, made) = materialize("/notes", &strings(&["a"]), &mut disk);
    assert_eq!(result, Err(String::from("/notes/a: File exists (os error 17)")));
    assert!(made.is_empty());
}

#[test]
fn steps_of_the_making_one_by_one() {
    let parts = strings(&["swift", "keypath"]);
    let step = |progress| create_missing_files("root", &parts, progress);
    assert_eq!(
        step(Progress::Begin),
        Materialize::Probe { level: 0, file: String::from("root/swift/swift.md") }
    );
    assert_eq!(
        step(Progress::Probed { level: 0, present: false }),
        Materialize::MakeDir { level: 0, dir: String::from("root/swift") }
    );
    assert_eq!(
        step(Progress::DirMade { level: 0, failure: None }),
        Materialize::MakeFile {
            level: 0,
            file: String::from("root/swift/swift.md"),
            heading: String::from("# Swift"),
        }
    );
    assert_eq!(
        step(Progress::FileMade { level: 0, failure: None }),
        Materialize::Probe { level: 1, file: String::from("root/swift/keypath/keypath.md") }
    );
    assert_eq!(
        step(Progress::Probed { level: 0, present: true }),
        Materialize::Probe { level: 1, file: String::from("root/swift/keypath/keypath.md") }
    );
    assert_eq!(
        step(Progress::Probed { level: 1, present: false }),
        Materialize::MakeDir { level: 1, dir: String::from("root/swift/keypath") }
    );
    assert_eq!(
        step(Progress::DirMade { level: 1, failure: None }),
        Materialize::MakeFile {
            level: 1,
            file: String::from("root/swift/keypath/keypath.md"),
            heading: String::from("## Keypath"),
        }
    );
    assert_eq!(
        step(Progress::Probed { level: 1, present: true }),
        Materialize::Done { deepest: String::from("root/swift/keypath/keypath.md") }
    );
    assert_eq!(
        step(Progress::FileMade { level: 1, failure: None }),
        Materialize::Done { deepest: String::from("root/swift/keypath/keypath.md") }
    );
}

#[test]
fn failures_name_the_path_and_the_reason() {
    let parts = strings(&["swift", "keypath"]);
    assert_eq!(
        create_missing_files(
            "root",
            &parts,
            Progress::DirMade { level: 1, failure: Some(String::from("Permission denied")) }
        ),
        Materialize::Failed {
            path: String::from("root/swift/keypath"),
            error: String::from("Permission denied"),
        }
    );
    assert_eq!(
        create_missing_files(
            "root",
            &parts,
            Progress::FileMade { level: 0, failure: Some(String::from("No space left")) }
        ),
        Materialize::Failed {
            path: String::from("root/swift/swift.md"),
            error: String::from("No space left"),
        }
    );
}

#[test]
fn answers_about_levels_that_are_not_there_end_the_making() {
    let parts = strings(&["swift"]);
    let done = Materialize::Done { deepest: String::from("root/swift/swift.md") };
    assert_eq!(create_missing_files("root", &parts, Progress::Probed { level: 1, present: false }), done);
    assert_eq!(
        create_missing_files("root", &parts, Progress::DirMade { level: 7, failure: None }),
        done
    );
    assert_eq!(
        create_missing_files(
            "root",
            &parts,
            Progress::FileMade { level: usize::MAX, failure: Some(String::from("late")) }
        ),
        done
    );
    assert_eq!(
        create_missing_files("root", &parts, Progress::Probed { level: usize::MAX, present: true }),
        done
    );
}

#[test]
fn a_note_without_segments_has_no_file() {
    let none: Vec<String> = Vec::new();
    assert_eq!(
        create_missing_files("root", &none, Progress::Begin),
        Materialize::Done { deepest: String::new() }
    );
}

#[test]
fn new_makes_the_note_and_opens_it() {
    let mut disk = Disk::with_root("/notes");
    let mut settings = config(Task::New, "/notes", &["swift", "keypath"]);
    settings.editor = String::from("nano");
    let log = drive(&settings, &mut disk, &[]);
    assert_eq!(log.outcome, Ok(()));
    assert_eq!(log.made.len(), 4);
    assert_eq!(
        log.edited,
        vec![(String::from("nano"), String::from("/notes/swift/keypath/keypath.md"))]
    );
    assert_eq!(log.printed, "");
    assert_eq!(disk.files["/notes/swift/keypath/keypath.md"], "## Keypath");
}

#[test]
fn edit_goes_as_new_does() {
    let mut made_new = Disk::with_root("/notes");
    let mut made_edit = Disk::with_root("/notes");
    let new = drive(&config(Task::New, "/notes", &["swift"]), &mut made_new, &[]);
    let edit = drive(&config(Task::Edit, "/notes", &["swift"]), &mut made_edit, &[]);
    assert_eq!(made_new, made_edit);
    assert_eq!(new.edited, edit.edited);
    assert_eq!(edit.edited, vec![(String::from("vim"), String::from("/notes/swift/swift.md"))]);

    let again = drive(&config(Task::Edit, "/notes", &["swift"]), &mut made_edit, &[]);
    assert!(again.made.is_empty());
    assert_eq!(again.edited, edit.edited);

    let settings = config(Task::Edit, "/notes", &["swift"]);
    assert_eq!(
        execute_edit(&settings, Event::Probed { level: 0, present: false }),
        execute_create(&settings, Event::Probed { level: 0, present: false })
    );
}

#[test]
fn new_reports_what_could_not_be_made() {
    let mut disk = Disk { dirs: BTreeSet::new(), files: BTreeMap::new() };
    let log = drive(&config(Task::New, "/nowhere", &["a"]), &mut disk, &[]);
    assert_eq!(
        log.outcome,
        Err(String::from("Error creating file: No such file or directory (os error 2)"))
    );
    assert!(log.edited.is_empty());
    assert!(log.made.is_empty());
}

#[test]
fn an_editor_that_fails_is_reported() {
    let settings = config(Task::New, "/notes", &["a"]);
    assert_eq!(
        run(&settings, Event::Edited { failure: Some(String::from("not found")) }),
        Action::Finish {
            text: String::new(),
            outcome: Err(String::from("Unable to open file in vim.: not found")),
        }
    );
    assert_eq!(
        run(&settings, Event::Edited { failure: None }),
        Action::Finish { text: String::new(), outcome: Ok(()) }
    );
}

#[test]
fn read_shows_a_note_before_the_notes_below_it() {
    let mut disk = notes();
    let log = drive(&config(Task::Read, "/notes", &["vim"]), &mut disk, &[]);
    assert_eq!(log.outcome, Ok(()));
    assert_eq!(log.printed, "# Vim\n## Motions\n## Surround\n");
    assert_eq!(
        execute_read(
            &config(Task::Read, "/notes", &["vim"]),
            Event::Scanned { found: disk.scan("/notes/vim") }
        ),
        Action::Show {
            files: strings(&[
                "/notes/vim/vim.md",
                "/notes/vim/motions/motions.md",
                "/notes/vim/surround/surround.md",
            ])
        }
    );
}

#[test]
fn read_of_a_missing_note_fails() {
    let mut disk = notes();
    let before = disk.clone();
    let log = drive(&config(Task::Read, "/notes", &["emacs"]), &mut disk, &[]);
    assert_eq!(log.outcome, Err(String::from("No such directory /notes/emacs")));
    assert_eq!(log.printed, "");
    assert_eq!(disk, before);
}

#[test]
fn read_of_an_empty_directory_shows_nothing() {
    let mut disk = notes();
    disk.dirs.insert(String::from("/notes/empty"));
    let log = drive(&config(Task::Read, "/notes", &["empty"]), &mut disk, &[]);
    assert_eq!(log.outcome, Ok(()));
    assert_eq!(log.printed, "");
}

#[test]
fn read_stops_at_a_file_that_cannot_be_read() {
    let settings = config(Task::Read, "/notes", &["vim"]);
    assert_eq!(
        run(&settings, Event::Shown { failure: Some(String::from("Permission denied")) }),
        Action::Finish { text: String::new(), outcome: Err(String::from("Permission denied")) }
    );
    assert_eq!(
        run(&settings, Event::Shown { failure: None }),
        Action::Finish { text: String::new(), outcome: Ok(()) }
    );
}

#[test]
fn list_prints_the_paths_in_the_order_of_the_walk() {
    let mut disk = notes();
    let log = drive(&config(Task::List, "/notes", &[]), &mut disk, &[]);
    assert_eq!(log.outcome, Ok(()));
    assert_eq!(
        log.printed,
        "/notes/tmux/tmux.md\n/notes/vim/vim.md\n/notes/vim/motions/motions.md\n/notes/vim/surround/surround.md\n"
    );
    assert_eq!(
        execute_list(&config(Task::List, "/notes", &[]), Event::Begin),
        Action::Scan { dir: String::from("/notes/") }
    );
}

#[test]
fn list_of_a_missing_note_fails() {
    let mut disk = notes();
    let log = drive(&config(Task::List, "/notes", &["vim", "macros"]), &mut disk, &[]);
    assert_eq!(log.outcome, Err(String::from("No such directory /notes/vim/macros")));
}

#[test]
fn delete_asks_and_removes_on_yes() {
    let mut disk = notes();
    let log = drive(&config(Task::Delete, "/notes", &["vim"]), &mut disk, &["YES\n"]);
    assert_eq!(log.outcome, Ok(()));
    assert_eq!(log.removed, strings(&["/notes/vim"]));
    assert_eq!(
        log.printed,
        "You are about to delete: \n\
         - /notes/vim/vim.md\n\n\
         - /notes/vim/motions\n\n\
         - /notes/vim/motions/motions.md\n\n\
         - /notes/vim/surround\n\n\
         - /notes/vim/surround/surround.md\n\n\
         Are you sure? YES/NO\n\
         Deleted /notes/vim\n"
    );
    assert!(!disk.has("/notes/vim"));
    assert!(!disk.has("/notes/vim/vim.md"));
    assert!(!disk.has("/notes/vim/surround/surround.md"));
    assert!(disk.has("/notes/tmux/tmux.md"));
}

#[test]
fn delete_is_cancelled_by_any_other_answer() {
    for answer in [
        "NO\n", "", "\n", "   \n", "yes\n", "Yes\n", "Y\n", "YES!\n", "YESYES\n", "YE S\n",
        "NO YES\n", "\"YES\"\n", "YES NO\n", "YES YES\n",
    ] {
        let mut disk = notes();
        let before = disk.clone();
        let log = drive(&config(Task::Delete, "/notes", &["vim"]), &mut disk, &[answer]);
        assert_eq!(log.outcome, Ok(()), "{:?}", answer);
        assert!(log.removed.is_empty(), "{:?}", answer);
        assert!(log.printed.ends_with("Are you sure? YES/NO\nDelete cancelled.\n"), "{:?}", answer);
        assert_eq!(disk, before, "{:?}", answer);
    }
}

#[test]
fn delete_takes_yes_with_whitespace_around_it() {
    for answer in ["YES", "YES\n", "YES\r\n", "YES  \n", "YES\t", " YES\n", "  YES\n", "\t YES \n"] {
        let settings = config(Task::Delete, "/notes", &["vim"]);
        assert_eq!(
            execute_delete(&settings, Event::Answered { line: answer.to_string() }),
            Action::Remove { dir: String::from("/notes/vim") },
            "{:?}",
            answer
        );
    }
}

#[test]
fn delete_of_a_missing_note_fails_before_asking() {
    let mut disk = notes();
    let before = disk.clone();
    let log = drive(&config(Task::Delete, "/notes", &["emacs"]), &mut disk, &[]);
    assert_eq!(log.outcome, Err(String::from("No such directory /notes/emacs")));
    assert_eq!(log.asked, 0);
    assert_eq!(disk, before);
}

#[test]
fn delete_of_an_empty_directory_asks_and_removes() {
    let mut disk = notes();
    disk.dirs.insert(String::from("/notes/empty"));
    let log = drive(&config(Task::Delete, "/notes", &["empty"]), &mut disk, &["YES\n"]);
    assert_eq!(log.outcome, Ok(()));
    assert_eq!(log.asked, 1);
    assert_eq!(
        log.printed,
        "You are about to delete: \nAre you sure? YES/NO\nDeleted /notes/empty\n"
    );
    assert!(!disk.has("/notes/empty"));

    let mut disk = notes();
    disk.dirs.insert(String::from("/notes/empty"));
    let log = drive(&config(Task::Delete, "/notes", &["empty"]), &mut disk, &["NO\n"]);
    assert_eq!(log.outcome, Ok(()));
    assert!(disk.has("/notes/empty"));
}

#[test]
fn delete_reports_what_could_not_be_removed() {
    let settings = config(Task::Delete, "/notes", &["vim"]);
    assert_eq!(
        run(&settings, Event::Removed { failure: Some(String::from("Permission denied")) }),
        Action::Finish {
            text: String::new(),
            outcome: Err(String::from("Error deleting dir: Permission denied")),
        }
    );
    assert_eq!(
        run(&settings, Event::Removed { failure: None }),
        Action::Finish { text: String::from("Deleted /notes/vim\n"), outcome: Ok(()) }
    );
}

#[test]
fn only_a_delete_removes_and_only_a_new_or_edit_makes() {
    let events = || {
        vec![
            Event::Begin,
            Event::Scanned { found: None },
            Event::Scanned { found: Some(vec![Entry::File { name: String::from("a.md") }]) },
            Event::Shown { failure: None },
            Event::Probed { level: 0, present: false },
            Event::Probed { level: 0, present: true },
            Event::DirMade { level: 0, failure: None },
            Event::FileMade { level: 0, failure: None },
            Event::Edited { failure: None },
            Event::Answered { line: String::from("YES\n") },
            Event::Answered { line: String::from("NO\n") },
            Event::Removed { failure: None },
        ]
    };
    for task in [Task::New, Task::Read, Task::Edit, Task::Delete, Task::Help, Task::List] {
        for (at, event) in events().into_iter().enumerate() {
            let action = run(&config(task, "/notes", &["a"]), event);
            let removes = matches!(action, Action::Remove { .. });
            let makes = matches!(action, Action::MakeDir { .. } | Action::MakeFile { .. });
            assert_eq!(removes, task == Task::Delete && at == 9, "{:?} {}", task, at);
            assert!(!makes || task == Task::New || task == Task::Edit, "{:?} {}", task, at);
        }
    }
}

#[test]
fn an_event_that_a_task_does_not_wait_for_starts_it_again() {
    let read = config(Task::Read, "/notes", &["vim"]);
    let scan = Action::Scan { dir: String::from("/notes/vim") };
    assert_eq!(run(&read, Event::Begin), scan);
    assert_eq!(run(&read, Event::Answered { line: String::from("YES") }), scan);
    assert_eq!(run(&read, Event::Removed { failure: None }), scan);
    let new = config(Task::New, "/notes", &["vim"]);
    let probe = Action::Probe { level: 0, file: String::from("/notes/vim/vim.md") };
    assert_eq!(run(&new, Event::Begin), probe);
    assert_eq!(run(&new, Event::Scanned { found: None }), probe);
}

#[test]
fn help_prints_the_usage() {
    let mut disk = notes();
    let before = disk.clone();
    let log = drive(&config(Task::Help, "/notes", &[]), &mut disk, &[]);
    assert_eq!(log.outcome, Ok(()));
    assert_eq!(log.printed, USAGE);
    assert_eq!(disk, before);
    assert!(USAGE.starts_with("\n    USAGE:\n        recall [FLAGS] [PATHS]\n"));
    assert!(USAGE.contains("        -d          Deletes note and sub-notes at path\n"));
    assert!(USAGE.ends_with("e.g. rust release\n    "));
    assert_eq!(USAGE.lines().count(), 17);
    assert_eq!(execute_help(), Action::Finish { text: USAGE.to_string(), outcome: Ok(()) });
}
