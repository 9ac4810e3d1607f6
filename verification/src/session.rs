//! A run, step by step.
//!
//! The library never reads the disk or the keyboard and never writes.
//! [`run`] says what is to be done next, as an [`Action`]; the caller does
//! it and comes back with what came of it, as an [`Event`]. A run starts
//! with [`Event::Begin`] and ends with [`Action::Finish`].
//!
//! Nothing is kept between two steps: an event says all that a task has
//! to know of what came before. An event that a task does not wait for
//! counts as the beginning.

use vstd::prelude::*;
use vstd::string::*;
use crate::config::{Config, Settings, Task};
use crate::materializer::{create_missing_files, next_step, text_view, Materialize, Past, Progress, Step};
use crate::path::{below, path_below};
use crate::text::{glue, spells, trim, trimmed};
use crate::tree::{scan_view, Entry, Node};
use crate::walker::{all_paths, listing, markdown_paths, Mode};

verus! {

/// What the help task prints.
pub const USAGE: &'static str = r#"
    USAGE:
        recall [FLAGS] [PATHS]
    EXAMPLE:
        recall -n rust release install
        recall rust
                    
    FLAGS:
        -h          Prints help information
        -n          Create new note at path
        -d          Deletes note and sub-notes at path
        -e          Edits note at path
        -l          Lists files under specified path

    PATHS:
        Space-separated list of folders, e.g. rust release
    "#;

/// What a read, a list or a delete says of a directory that is not there,
/// before the directory's path.
pub const NO_SUCH_DIRECTORY: &'static str = "No such directory ";

/// What a failed creation says, before the reason.
pub const ERROR_CREATING: &'static str = "Error creating file: ";

/// What a failed deletion says, before the reason.
pub const ERROR_DELETING: &'static str = "Error deleting dir: ";

/// What an editor that could not be run says, before the reason.
pub const ERROR_EDITING: &'static str = "Unable to open file in vim.: ";

/// The first line of the question that comes before a deletion.
pub const ABOUT_TO_DELETE: &'static str = "You are about to delete: \n";

/// The last line of the question that comes before a deletion.
pub const ARE_YOU_SURE: &'static str = "Are you sure? YES/NO\n";

/// The one answer that lets a deletion go on.
pub const YES: &'static str = "YES";

/// What a deletion says when the answer was anything else.
pub const CANCELLED: &'static str = "Delete cancelled.\n";

/// What a deletion says when it is done, before the directory's path.
pub const DELETED: &'static str = "Deleted ";

/// What came of the last action.
#[derive(Debug, PartialEq, Eq)]
pub enum Event {
    /// Nothing has been done yet.
    Begin,
    /// A directory was scanned. `found` is the tree below it, or `None`
    /// where it could not be opened.
    Scanned { found: Option<Vec<Entry>> },
    /// The files were shown, or showing them failed for the reason
    /// `failure`.
    Shown { failure: Option<String> },
    /// The file of a note's level was looked for.
    Probed { level: usize, present: bool },
    /// The directory of a note's level was made, or could not be.
    DirMade { level: usize, failure: Option<String> },
    /// The file of a note's level was written, or could not be.
    FileMade { level: usize, failure: Option<String> },
    /// The editor ran, or did not for the reason `failure`.
    Edited { failure: Option<String> },
    /// The user answered a question with `line`.
    Answered { line: String },
    /// The directory was removed with all below it, or could not be.
    Removed { failure: Option<String> },
}

/// The mathematical image of an [`Event`].
pub enum Occurrence {
    Begin,
    Scanned { found: Option<Seq<Node>> },
    Shown { failure: Option<Seq<char>> },
    Probed { level: int, present: bool },
    DirMade { level: int, failure: Option<Seq<char>> },
    FileMade { level: int, failure: Option<Seq<char>> },
    Edited { failure: Option<Seq<char>> },
    Answered { line: Seq<char> },
    Removed { failure: Option<Seq<char>> },
}

impl View for Event {
    type V = Occurrence;

    open spec fn view(&self) -> Occurrence {
        match self {
            Event::Begin => Occurrence::Begin,
            Event::Scanned { found } => Occurrence::Scanned { found: scan_view(*found) },
            Event::Shown { failure } => Occurrence::Shown { failure: text_view(*failure) },
            Event::Probed { level, present } => Occurrence::Probed {
                level: *level as int,
                present: *present,
            },
            Event::DirMade { level, failure } => Occurrence::DirMade {
                level: *level as int,
                failure: text_view(*failure),
            },
            Event::FileMade { level, failure } => Occurrence::FileMade {
                level: *level as int,
                failure: text_view(*failure),
            },
            Event::Edited { failure } => Occurrence::Edited { failure: text_view(*failure) },
            Event::Answered { line } => Occurrence::Answered { line: line@ },
            Event::Removed { failure } => Occurrence::Removed { failure: text_view(*failure) },
        }
    }
}

/// What is to be done next.
#[derive(Debug, PartialEq, Eq)]
pub enum Action {
    /// Read the tree below `dir`. Answered by [`Event::Scanned`].
    Scan { dir: String },
    /// Print what each of `files` holds, in this order, and stop at the
    /// first that cannot be read. Answered by [`Event::Shown`].
    Show { files: Vec<String> },
    /// Find out whether `file` is there. Answered by [`Event::Probed`]
    /// with the same level.
    Probe { level: usize, file: String },
    /// Make the directory `dir`. Answered by [`Event::DirMade`] with the
    /// same level.
    MakeDir { level: usize, dir: String },
    /// Write `file` with `heading` as its content. Answered by
    /// [`Event::FileMade`] with the same level.
    MakeFile { level: usize, file: String, heading: String },
    /// Run `editor` on `file`. Answered by [`Event::Edited`].
    Edit { editor: String, file: String },
    /// Print `text` and read a line. Answered by [`Event::Answered`].
    Ask { text: String },
    /// Remove `dir` and all below it. Answered by [`Event::Removed`].
    Remove { dir: String },
    /// Print `text`. The run is over, and `outcome` is how it went.
    Finish { text: String, outcome: Result<(), String> },
}

/// The mathematical image of an [`Action`].
pub enum Command {
    Scan { dir: Seq<char> },
    Show { files: Seq<Seq<char>> },
    Probe { level: int, file: Seq<char> },
    MakeDir { level: int, dir: Seq<char> },
    MakeFile { level: int, file: Seq<char>, heading: Seq<char> },
    Edit { editor: Seq<char>, file: Seq<char> },
    Ask { text: Seq<char> },
    Remove { dir: Seq<char> },
    Finish { text: Seq<char>, outcome: Result<(), Seq<char>> },
}

impl View for Action {
    type V = Command;

    open spec fn view(&self) -> Command {
        match self {
            Action::Scan { dir } => Command::Scan { dir: dir@ },
            Action::Show { files } => Command::Show { files: files.deep_view() },
            Action::Probe { level, file } => Command::Probe { level: *level as int, file: file@ },
            Action::MakeDir { level, dir } => Command::MakeDir { level: *level as int, dir: dir@ },
            Action::MakeFile { level, file, heading } => Command::MakeFile {
                level: *level as int,
                file: file@,
                heading: heading@,
            },
            Action::Edit { editor, file } => Command::Edit { editor: editor@, file: file@ },
            Action::Ask { text } => Command::Ask { text: text@ },
            Action::Remove { dir } => Command::Remove { dir: dir@ },
            Action::Finish { text, outcome } => Command::Finish {
                text: text@,
                outcome: match outcome {
                    Ok(_) => Ok(()),
                    Err(message) => Err(message@),
                },
            },
        }
    }
}

/// The end of a run that went well, with `text` as its last word.
pub open spec fn done(text: Seq<char>) -> Command {
    Command::Finish { text, outcome: Ok(()) }
}

/// The end of a run that failed with `message`.
pub open spec fn failed(message: Seq<char>) -> Command {
    Command::Finish { text: Seq::empty(), outcome: Err(message) }
}

/// The directory that a run is about: the one that the note's segments
/// lead to from the root.
pub open spec fn sub_root_dir(c: Settings) -> Seq<char> {
    below(c.root, c.parts)
}

/// `paths`, each on a line of its own.
pub open spec fn lines(paths: Seq<Seq<char>>) -> Seq<char>
    decreases paths.len(),
{
    if paths.len() == 0 {
        Seq::empty()
    } else {
        lines(paths.drop_last()) + paths.last() + "\n"@
    }
}

/// `paths` as the items of a list: each after a dash, with an empty line
/// behind it.
pub open spec fn bullets(paths: Seq<Seq<char>>) -> Seq<char>
    decreases paths.len(),
{
    if paths.len() == 0 {
        Seq::empty()
    } else {
        bullets(paths.drop_last()) + "- "@ + paths.last() + "\n\n"@
    }
}

/// The question that comes before the deletion of `paths`.
pub open spec fn question(paths: Seq<Seq<char>>) -> Seq<char> {
    ABOUT_TO_DELETE@ + bullets(paths) + ARE_YOU_SURE@
}

/// Whether `line` is the answer that lets a deletion go on: `YES`, with
/// nothing but whitespace before it and behind it.
pub open spec fn says_yes(line: Seq<char>) -> bool {
    trimmed(line) == YES@
}

/// A read, step by step: the directory is scanned, and the markdown files
/// below it are shown in the order of the walk: a note before the notes
/// below it, so that the root note comes first and the deepest last.
pub open spec fn read_step(c: Settings, e: Occurrence) -> Command {
    let dir = sub_root_dir(c);
    match e {
        Occurrence::Scanned { found } => match found {
            Some(entries) => Command::Show { files: listing(dir, entries, Mode::Markdown) },
            None => failed(NO_SUCH_DIRECTORY@ + dir),
        },
        Occurrence::Shown { failure } => match failure {
            Some(error) => failed(error),
            None => done(Seq::empty()),
        },
        _ => Command::Scan { dir },
    }
}

/// A list, step by step: the directory is scanned, and the paths of the
/// markdown files below it are printed in the order of the walk.
pub open spec fn list_step(c: Settings, e: Occurrence) -> Command {
    let dir = sub_root_dir(c);
    match e {
        Occurrence::Scanned { found } => match found {
            Some(entries) => done(lines(listing(dir, entries, Mode::Markdown))),
            None => failed(NO_SUCH_DIRECTORY@ + dir),
        },
        _ => Command::Scan { dir },
    }
}

/// A deletion, step by step: the directory is scanned, all that lies below
/// it is laid before the user, and only the answer `YES` has it removed.
/// A directory that is there is asked about even where nothing lies below
/// it.
pub open spec fn delete_step(c: Settings, e: Occurrence) -> Command {
    let dir = sub_root_dir(c);
    match e {
        Occurrence::Scanned { found } => match found {
            Some(entries) => Command::Ask {
                text: question(listing(dir, entries, Mode::Everything)),
            },
            None => failed(NO_SUCH_DIRECTORY@ + dir),
        },
        Occurrence::Answered { line } => if says_yes(line) {
            Command::Remove { dir }
        } else {
            done(CANCELLED@)
        },
        Occurrence::Removed { failure } => match failure {
            Some(error) => failed(ERROR_DELETING@ + error),
            None => done(DELETED@ + dir + "\n"@),
        },
        _ => Command::Scan { dir },
    }
}

/// What an event says of the making of a note. An event that says nothing
/// of it counts as the beginning.
pub open spec fn past_of(e: Occurrence) -> Past {
    match e {
        Occurrence::Probed { level, present } => Past::Probed { level, present },
        Occurrence::DirMade { level, failure } => Past::DirMade { level, failure },
        Occurrence::FileMade { level, failure } => Past::FileMade { level, failure },
        _ => Past::Begin,
    }
}

/// A creation, step by step: the note is brought into being level by
/// level, and then the editor is run on the note's own file.
pub open spec fn create_step(c: Settings, e: Occurrence) -> Command {
    match e {
        Occurrence::Edited { failure } => match failure {
            Some(error) => failed(ERROR_EDITING@ + error),
            None => done(Seq::empty()),
        },
        _ => match next_step(c.root, c.parts, past_of(e)) {
            Step::Probe { level, file } => Command::Probe { level, file },
            Step::MakeDir { level, dir } => Command::MakeDir { level, dir },
            Step::MakeFile { level, file, heading } => Command::MakeFile { level, file, heading },
            Step::Done { deepest } => Command::Edit { editor: c.editor, file: deepest },
            Step::Failed { path, error } => failed(ERROR_CREATING@ + error),
        },
    }
}

/// The help: the usage is printed, whatever came before.
pub open spec fn help_step() -> Command {
    done(USAGE@)
}

/// A run, step by step: the step of the task that the settings name.
pub open spec fn run_step(c: Settings, e: Occurrence) -> Command {
    match c.task {
        Task::Read => read_step(c, e),
        Task::New => create_step(c, e),
        Task::Edit => create_step(c, e),
        Task::Delete => delete_step(c, e),
        Task::List => list_step(c, e),
        Task::Help => help_step(),
    }
}

/// A run changes the disk only as its task allows, and a deletion only
/// on the user's word: nothing is removed but by a deletion that was
/// answered with `YES`, and nothing is made but by a creation or an edit.
pub proof fn lemma_disk_is_safe(c: Settings, e: Occurrence)
    ensures
        run_step(c, e) is Remove <==> c.task == Task::Delete && (e matches Occurrence::Answered {
            line,
        } && says_yes(line)),
        run_step(c, e) is MakeDir || run_step(c, e) is MakeFile ==> c.task == Task::New || c.task
            == Task::Edit,
{
}

fn finish(text: &str) -> (r: Action)
    ensures
        r@ == done(text@),
{
    Action::Finish { text: String::from_str(text), outcome: Ok(()) }
}

fn quiet_end() -> (r: Action)
    ensures
        r@ == done(Seq::empty()),
{
    Action::Finish { text: String::new(), outcome: Ok(()) }
}

fn fail(prefix: &str, reason: &str) -> (r: Action)
    ensures
        r@ == failed(prefix@ + reason@),
{
    Action::Finish { text: String::new(), outcome: Err(glue(prefix, reason)) }
}

/// The directory that a run is about.
pub fn generate_sub_root_dir(config: &Config) -> (r: String)
    ensures
        r@ == sub_root_dir(config@),
{
    let parts = config.path_parts.as_slice();
    assert(parts.deep_view() =~= config.path_parts.deep_view());
    assert(parts.deep_view().take(parts.len() as int) =~= parts.deep_view());
    path_below(config.recall_root_dir.as_str(), parts, parts.len())
}

/// Puts each of `paths` on a line of its own.
fn lines_of(paths: &Vec<String>) -> (r: String)
    ensures
        r@ == lines(paths.deep_view()),
{
    let ghost all = paths.deep_view();
    let mut out = String::new();
    let mut i: usize = 0;
    while i < paths.len()
        invariant
            0 <= i <= paths.len(),
            all == paths.deep_view(),
            out@ == lines(all.take(i as int)),
        decreases paths.len() - i,
    {
        proof {
            assert(all.take(i + 1).drop_last() =~= all.take(i as int));
            assert(all.take(i + 1).last() == paths@[i as int]@);
        }
        out.append(paths[i].as_str());
        out.append("\n");
        i = i + 1;
    }
    assert(all.take(i as int) =~= all);
    out
}

/// Words the question that comes before the deletion of `paths`.
fn question_of(paths: &Vec<String>) -> (r: String)
    ensures
        r@ == question(paths.deep_view()),
{
    let ghost all = paths.deep_view();
    let mut out = String::from_str(ABOUT_TO_DELETE);
    let mut i: usize = 0;
    assert(out@ =~= ABOUT_TO_DELETE@ + bullets(all.take(0)));
    while i < paths.len()
        invariant
            0 <= i <= paths.len(),
            all == paths.deep_view(),
            out@ == ABOUT_TO_DELETE@ + bullets(all.take(i as int)),
        decreases paths.len() - i,
    {
        proof {
            assert(all.take(i + 1).drop_last() =~= all.take(i as int));
            assert(all.take(i + 1).last() == paths@[i as int]@);
        }
        let ghost before = out@;
        out.append("- ");
        out.append(paths[i].as_str());
        out.append("\n\n");
        i = i + 1;
        assert(out@ =~= ABOUT_TO_DELETE@ + bullets(all.take(i as int)));
    }
    assert(all.take(i as int) =~= all);
    out.append(ARE_YOU_SURE);
    out
}

/// The next step of a read.
pub fn execute_read(config: &Config, event: Event) -> (r: Action)
    ensures
        r@ == read_step(config@, event@),
{
    let dir = generate_sub_root_dir(config);
    match event {
        Event::Scanned { found } => match markdown_paths(dir.as_str(), &found) {
            Some(paths) => Action::Show { files: paths },
            None => fail(NO_SUCH_DIRECTORY, dir.as_str()),
        },
        Event::Shown { failure } => match failure {
            Some(error) => Action::Finish { text: String::new(), outcome: Err(error) },
            None => quiet_end(),
        },
        _ => Action::Scan { dir },
    }
}

/// The next step of a list.
pub fn execute_list(config: &Config, event: Event) -> (r: Action)
    ensures
        r@ == list_step(config@, event@),
{
    let dir = generate_sub_root_dir(config);
    match event {
        Event::Scanned { found } => match markdown_paths(dir.as_str(), &found) {
            Some(paths) => finish(lines_of(&paths).as_str()),
            None => fail(NO_SUCH_DIRECTORY, dir.as_str()),
        },
        _ => Action::Scan { dir },
    }
}

/// The next step of a deletion.
///
/// Nothing is removed unless the user's answer is `YES`: any other answer
/// ends the run with nothing changed.
pub fn execute_delete(config: &Config, event: Event) -> (r: Action)
    ensures
        r@ == delete_step(config@, event@),
        r is Remove <==> (event matches Event::Answered { line } && says_yes(line@)),
        !(r is MakeDir) && !(r is MakeFile),
{
    let dir = generate_sub_root_dir(config);
    match event {
        Event::Scanned { found } => match all_paths(dir.as_str(), &found) {
            Some(paths) => Action::Ask { text: question_of(&paths) },
            None => fail(NO_SUCH_DIRECTORY, dir.as_str()),
        },
        Event::Answered { line } => {
            let answer = trim(line.as_str());
            if spells(&answer, YES) {
                Action::Remove { dir }
            } else {
                finish(CANCELLED)
            }
        },
        Event::Removed { failure } => match failure {
            Some(error) => fail(ERROR_DELETING, error.as_str()),
            None => {
                let mut text = glue(DELETED, dir.as_str());
                text.append("\n");
                finish(text.as_str())
            },
        },
        _ => Action::Scan { dir },
    }
}

/// The next step of a creation.
pub fn execute_create(config: &Config, event: Event) -> (r: Action)
    ensures
        r@ == create_step(config@, event@),
{
    let progress = match event {
        Event::Edited { failure } => {
            return match failure {
                Some(error) => fail(ERROR_EDITING, error.as_str()),
                None => quiet_end(),
            };
        },
        Event::Probed { level, present } => Progress::Probed { level, present },
        Event::DirMade { level, failure } => Progress::DirMade { level, failure },
        Event::FileMade { level, failure } => Progress::FileMade { level, failure },
        _ => Progress::Begin,
    };
    let parts = config.path_parts.as_slice();
    assert(parts.deep_view() =~= config.path_parts.deep_view());
    match create_missing_files(config.recall_root_dir.as_str(), parts, progress) {
        Materialize::Probe { level, file } => Action::Probe { level, file },
        Materialize::MakeDir { level, dir } => Action::MakeDir { level, dir },
        Materialize::MakeFile { level, file, heading } => Action::MakeFile { level, file, heading },
        Materialize::Done { deepest } => Action::Edit { editor: config.editor.clone(), file: deepest },
        Materialize::Failed { path, error } => fail(ERROR_CREATING, error.as_str()),
    }
}

/// The next step of an edit, which goes as a creation does: what is there
/// is left alone, and the editor is run on the note's file.
pub fn execute_edit(config: &Config, event: Event) -> (r: Action)
    ensures
        r@ == create_step(config@, event@),
{
    execute_create(config, event)
}

/// The one step of the help.
pub fn execute_help() -> (r: Action)
    ensures
        r@ == help_step(),
{
    finish(USAGE)
}

/// Says what is to be done next in the run that `config` describes, given
/// what came of the last action.
pub fn run(config: &Config, event: Event) -> (r: Action)
    ensures
        r@ == run_step(config@, event@),
{
    match config.task {
        Task::Read => execute_read(config, event),
        Task::New => execute_create(config, event),
        Task::Edit => execute_edit(config, event),
        Task::Delete => execute_delete(config, event),
        Task::List => execute_list(config, event),
        Task::Help => execute_help(),
    }
}

} // verus!
