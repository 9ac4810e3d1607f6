//! What a run is asked to do: the task, the note it is about, and where the
//! notes live.

use vstd::prelude::*;
use vstd::string::*;
use crate::text::same_text;

verus! {

/// What a run does with the note it is given.
#[derive(Clone, Copy, Debug, PartialEq, Eq)]
pub enum Task {
    New,
    Read,
    Edit,
    Delete,
    Help,
    List,
}

/// The settings of one run.
#[derive(Debug, PartialEq, Eq)]
pub struct Config {
    /// The directory under which all notes live.
    pub recall_root_dir: String,
    /// The program that opens a note for editing.
    pub editor: String,
    /// The segments of the note's path, outermost first.
    pub path_parts: Vec<String>,
    pub task: Task,
}

/// The mathematical image of a [`Config`].
pub struct Settings {
    pub root: Seq<char>,
    pub editor: Seq<char>,
    pub parts: Seq<Seq<char>>,
    pub task: Task,
}

impl View for Config {
    type V = Settings;

    open spec fn view(&self) -> Settings {
        Settings {
            root: self.recall_root_dir@,
            editor: self.editor@,
            parts: self.path_parts.deep_view(),
            task: self.task,
        }
    }
}

/// The task that a first argument stands for. Anything that is not one of
/// the five flags is the first segment of a note to read.
pub open spec fn task_of(flag: Seq<char>) -> Task {
    if flag == "-n"@ {
        Task::New
    } else if flag == "-e"@ {
        Task::Edit
    } else if flag == "-d"@ {
        Task::Delete
    } else if flag == "-h"@ {
        Task::Help
    } else if flag == "-l"@ {
        Task::List
    } else {
        Task::Read
    }
}

/// How many arguments a task needs after the program's name, its flag
/// counted.
pub open spec fn min_args(task: Task) -> nat {
    match task {
        Task::Read | Task::List => 0,
        Task::Help => 1,
        Task::New | Task::Edit | Task::Delete => 2,
    }
}

/// Where the note's segments start among the arguments: after the
/// program's name, and after the flag where there is one.
pub open spec fn parts_start(task: Task) -> int {
    match task {
        Task::Read => 1,
        _ => 2,
    }
}

/// Whether `args` holds a task and all that the task needs.
pub open spec fn enough_args(args: Seq<Seq<char>>) -> bool {
    args.len() >= 2 && args.len() - 1 >= min_args(task_of(args[1]))
}

/// The editor that is used where none is named.
pub const DEFAULT_EDITOR: &'static str = "vim";

/// The error for a command line that is too short.
pub const NOT_ENOUGH_ARGUMENTS: &'static str = "Not enough arguments.";

/// The error for a run that was not told where the notes live.
pub const NO_ROOT: &'static str = "RECALL_DIR is not set.";

/// The settings that `args` give, with the root of the notes and the
/// editor that the caller found set for this run.
pub open spec fn settings_of(
    args: Seq<Seq<char>>,
    recall_dir: Seq<char>,
    editor: Option<Seq<char>>,
) -> Settings {
    let task = task_of(args[1]);
    Settings {
        root: recall_dir,
        editor: match editor {
            Some(e) => e,
            None => DEFAULT_EDITOR@,
        },
        parts: args.skip(parts_start(task)),
        task,
    }
}

fn task_for(flag: &str) -> (task: Task)
    ensures
        task == task_of(flag@),
{
    if same_text(flag, "-n") {
        Task::New
    } else if same_text(flag, "-e") {
        Task::Edit
    } else if same_text(flag, "-d") {
        Task::Delete
    } else if same_text(flag, "-h") {
        Task::Help
    } else if same_text(flag, "-l") {
        Task::List
    } else {
        Task::Read
    }
}

impl Config {
    /// Reads the settings of a run from its command line `args`, the
    /// program's name first, and from the two values that the caller
    /// looked up for it: `recall_dir`, what the variable `RECALL_DIR`
    /// holds, and `editor`, what `RECALL_EDITOR` holds.
    ///
    /// The command line is looked at first. A run without a root fails
    /// before anything is done.
    pub fn new(args: &[String], recall_dir: Option<String>, editor: Option<String>) -> (r: Result<
        Config,
        &'static str,
    >)
        ensures
            match r {
                Ok(config) => {
                    &&& enough_args(args.deep_view())
                    &&& recall_dir is Some
                    &&& config@ == settings_of(
                        args.deep_view(),
                        recall_dir->0@,
                        match editor {
                            Some(e) => Some(e@),
                            None => None,
                        },
                    )
                },
                Err(message) => if enough_args(args.deep_view()) {
                    recall_dir is None && message@ == NO_ROOT@
                } else {
                    message@ == NOT_ENOUGH_ARGUMENTS@
                },
            },
    {
        if args.len() < 2 {
            return Err(NOT_ENOUGH_ARGUMENTS);
        }
        let task = task_for(args[1].as_str());
        let min_args_for_task: usize = match task {
            Task::Read | Task::List => 0,
            Task::Help => 1,
            _ => 2,
        };
        if args.len() - 1 < min_args_for_task {
            return Err(NOT_ENOUGH_ARGUMENTS);
        }
        let start_index: usize = match task {
            Task::Read => 1,
            _ => 2,
        };
        let mut path_parts: Vec<String> = Vec::new();
        let mut i: usize = start_index;
        while i < args.len()
            invariant
                start_index <= i <= args.len(),
                path_parts.len() == i - start_index,
                forall|k: int| 0 <= k < path_parts.len() ==> path_parts@[k]@ == args@[start_index + k]@,
            decreases args.len() - i,
        {
            path_parts.push(args[i].clone());
            i = i + 1;
        }
        assert(path_parts.deep_view() =~= args.deep_view().skip(start_index as int));
        let recall_root_dir = match recall_dir {
            Some(dir) => dir,
            None => {
                return Err(NO_ROOT);
            },
        };
        let editor = match editor {
            Some(e) => e,
            None => String::from_str(DEFAULT_EDITOR),
        };
        Ok(Config { recall_root_dir, editor, path_parts, task })
    }
}

} // verus!
