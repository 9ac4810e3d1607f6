//! The path materializer: how a note's path becomes directories and files.
//!
//! A note with the segments `a`, `b` lives in `root/a/b/b.md`, and each
//! shorter path has its own file: `root/a/a.md`. A note is brought into
//! being level by level, outermost first. A level whose file is there is
//! left alone. For one whose file is missing the directory is made, then
//! the file, which starts with a heading.
//!
//! The library does not touch the disk. [`create_missing_files`] says what
//! is to be done next, given what happened last, and the caller does it.

use vstd::prelude::*;
use vstd::string::*;
use crate::path::{below, path_below, separator};
use crate::text::{capitalize_first_letter, capitalized, heading, heading_line};

verus! {

/// The directory of the level `i` of a note.
pub open spec fn level_dir(root: Seq<char>, parts: Seq<Seq<char>>, i: int) -> Seq<char> {
    below(root, parts.take(i + 1))
}

/// The file of the level `i` of a note: it lies in the level's directory
/// and has the name of the level's segment.
pub open spec fn level_file(root: Seq<char>, parts: Seq<Seq<char>>, i: int) -> Seq<char> {
    level_dir(root, parts, i) + seq![separator()] + parts[i] + ".md"@
}

/// The heading that the file of the level `i` starts with: as many number
/// signs as the level is deep, and the segment with a capital letter.
pub open spec fn level_heading(parts: Seq<Seq<char>>, i: int) -> Seq<char> {
    heading_line((i + 1) as nat, capitalized(parts[i]))
}

/// The file of a note's last level, or the empty path for a note without
/// segments.
pub open spec fn deepest_file(root: Seq<char>, parts: Seq<Seq<char>>) -> Seq<char> {
    if parts.len() == 0 {
        Seq::empty()
    } else {
        level_file(root, parts, parts.len() - 1)
    }
}

/// What happened last while a note was brought into being.
#[derive(Debug, PartialEq, Eq)]
pub enum Progress {
    /// Nothing yet.
    Begin,
    /// The file of `level` was looked for.
    Probed { level: usize, present: bool },
    /// The directory of `level` was made, or could not be made for the
    /// reason `failure`.
    DirMade { level: usize, failure: Option<String> },
    /// The file of `level` was written, or could not be written for the
    /// reason `failure`.
    FileMade { level: usize, failure: Option<String> },
}

/// The mathematical image of a [`Progress`].
pub enum Past {
    Begin,
    Probed { level: int, present: bool },
    DirMade { level: int, failure: Option<Seq<char>> },
    FileMade { level: int, failure: Option<Seq<char>> },
}

/// The image of an optional text.
pub open spec fn text_view(text: Option<String>) -> Option<Seq<char>> {
    match text {
        Some(t) => Some(t@),
        None => None,
    }
}

impl View for Progress {
    type V = Past;

    open spec fn view(&self) -> Past {
        match self {
            Progress::Begin => Past::Begin,
            Progress::Probed { level, present } => Past::Probed {
                level: *level as int,
                present: *present,
            },
            Progress::DirMade { level, failure } => Past::DirMade {
                level: *level as int,
                failure: text_view(*failure),
            },
            Progress::FileMade { level, failure } => Past::FileMade {
                level: *level as int,
                failure: text_view(*failure),
            },
        }
    }
}

/// What is to be done next to bring a note into being.
#[derive(Debug, PartialEq, Eq)]
pub enum Materialize {
    /// Find out whether `file`, the file of `level`, is there.
    Probe { level: usize, file: String },
    /// Make the directory `dir` of `level`. The one above it is there.
    MakeDir { level: usize, dir: String },
    /// Write `file`, the file of `level`, with `heading` as its content.
    MakeFile { level: usize, file: String, heading: String },
    /// Every level is there. `deepest` is the note's own file.
    Done { deepest: String },
    /// `path` could not be made, for the reason `error`. What was made
    /// before stays.
    Failed { path: String, error: String },
}

/// The mathematical image of a [`Materialize`].
pub enum Step {
    Probe { level: int, file: Seq<char> },
    MakeDir { level: int, dir: Seq<char> },
    MakeFile { level: int, file: Seq<char>, heading: Seq<char> },
    Done { deepest: Seq<char> },
    Failed { path: Seq<char>, error: Seq<char> },
}

impl View for Materialize {
    type V = Step;

    open spec fn view(&self) -> Step {
        match self {
            Materialize::Probe { level, file } => Step::Probe { level: *level as int, file: file@ },
            Materialize::MakeDir { level, dir } => Step::MakeDir { level: *level as int, dir: dir@ },
            Materialize::MakeFile { level, file, heading } => Step::MakeFile {
                level: *level as int,
                file: file@,
                heading: heading@,
            },
            Materialize::Done { deepest } => Step::Done { deepest: deepest@ },
            Materialize::Failed { path, error } => Step::Failed { path: path@, error: error@ },
        }
    }
}

/// The step that takes up the level `level`: a look for its file, or the
/// end where the note has no such level.
pub open spec fn enter(root: Seq<char>, parts: Seq<Seq<char>>, level: int) -> Step {
    if 0 <= level < parts.len() {
        Step::Probe { level, file: level_file(root, parts, level) }
    } else {
        Step::Done { deepest: deepest_file(root, parts) }
    }
}

/// The step that follows `past`.
///
/// A level whose file is there is passed over. For one whose file is
/// missing the directory is made first and then the file. The first
/// failure ends the work. An answer about a level that the note does not
/// have ends it too.
pub open spec fn next_step(root: Seq<char>, parts: Seq<Seq<char>>, past: Past) -> Step {
    match past {
        Past::Begin => enter(root, parts, 0),
        Past::Probed { level, present } => if !(0 <= level < parts.len()) {
            enter(root, parts, parts.len() as int)
        } else if present {
            enter(root, parts, level + 1)
        } else {
            Step::MakeDir { level, dir: level_dir(root, parts, level) }
        },
        Past::DirMade { level, failure } => if !(0 <= level < parts.len()) {
            enter(root, parts, parts.len() as int)
        } else {
            match failure {
                Some(error) => Step::Failed { path: level_dir(root, parts, level), error },
                None => Step::MakeFile {
                    level,
                    file: level_file(root, parts, level),
                    heading: level_heading(parts, level),
                },
            }
        },
        Past::FileMade { level, failure } => if !(0 <= level < parts.len()) {
            enter(root, parts, parts.len() as int)
        } else {
            match failure {
                Some(error) => Step::Failed { path: level_file(root, parts, level), error },
                None => enter(root, parts, level + 1),
            }
        },
    }
}

/// Builds the path of the file of the level `level`.
fn file_of(recall_path: &str, path_parts: &[String], level: usize) -> (r: String)
    requires
        level < path_parts.len(),
    ensures
        r@ == level_file(recall_path@, path_parts.deep_view(), level as int),
{
    let mut out = path_below(recall_path, path_parts, level + 1);
    proof {
        reveal_strlit("/");
    }
    out.append("/");
    out.append(path_parts[level].as_str());
    out.append(".md");
    assert(out@ =~= level_file(recall_path@, path_parts.deep_view(), level as int));
    out
}

/// The step that takes up the level `level`.
fn enter_level(recall_path: &str, path_parts: &[String], level: usize) -> (r: Materialize)
    requires
        level <= path_parts.len(),
    ensures
        r@ == enter(recall_path@, path_parts.deep_view(), level as int),
{
    if level < path_parts.len() {
        Materialize::Probe { level, file: file_of(recall_path, path_parts, level) }
    } else if path_parts.len() == 0 {
        Materialize::Done { deepest: String::new() }
    } else {
        Materialize::Done { deepest: file_of(recall_path, path_parts, path_parts.len() - 1) }
    }
}

/// Says what is to be done next to bring the note `path_parts` into being
/// under `recall_path`, given what happened last.
///
/// The caller starts with [`Progress::Begin`], does what each step asks
/// for, and comes back with what came of it, until the step is
/// [`Materialize::Done`] or [`Materialize::Failed`].
pub fn create_missing_files(recall_path: &str, path_parts: &[String], progress: Progress) -> (r:
    Materialize)
    ensures
        r@ == next_step(recall_path@, path_parts.deep_view(), progress@),
{
    let count = path_parts.len();
    match progress {
        Progress::Begin => enter_level(recall_path, path_parts, 0),
        Progress::Probed { level, present } => {
            if level >= count {
                enter_level(recall_path, path_parts, count)
            } else if present {
                enter_level(recall_path, path_parts, level + 1)
            } else {
                Materialize::MakeDir { level, dir: path_below(recall_path, path_parts, level + 1) }
            }
        },
        Progress::DirMade { level, failure } => {
            if level >= count {
                enter_level(recall_path, path_parts, count)
            } else {
                match failure {
                    Some(error) => Materialize::Failed {
                        path: path_below(recall_path, path_parts, level + 1),
                        error,
                    },
                    None => Materialize::MakeFile {
                        level,
                        file: file_of(recall_path, path_parts, level),
                        heading: heading(
                            level + 1,
                            capitalize_first_letter(path_parts[level].as_str()).as_str(),
                        ),
                    },
                }
            }
        },
        Progress::FileMade { level, failure } => {
            if level >= count {
                enter_level(recall_path, path_parts, count)
            } else {
                match failure {
                    Some(error) => Materialize::Failed {
                        path: file_of(recall_path, path_parts, level),
                        error,
                    },
                    None => enter_level(recall_path, path_parts, level + 1),
                }
            }
        },
    }
}

} // verus!
