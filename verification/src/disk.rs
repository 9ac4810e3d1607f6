//! What the making of a note does to a disk.
//!
//! The library never touches a disk, so what it asks for has to be right
//! on every disk. This module holds a plain picture of one, the course
//! that the making of a note takes on it when the caller does as it is
//! asked, and what holds at the end of every such course: whichever
//! creations the disk refuses.

use vstd::prelude::*;
use crate::materializer::{deepest_file, level_dir, level_file, next_step, Past, Step};
use crate::path::{note_path, plain, separator, slashed};

verus! {

/// A disk: the directories that are there, and the files with what they
/// hold.
pub struct Disk {
    pub dirs: Set<Seq<char>>,
    pub files: Map<Seq<char>, Seq<char>>,
}

impl Disk {
    /// Whether anything is there at `path`, a file or a directory.
    pub open spec fn holds(self, path: Seq<char>) -> bool {
        self.dirs.contains(path) || self.files.dom().contains(path)
    }

    /// The disk after the directory `dir` was made.
    pub open spec fn with_dir(self, dir: Seq<char>) -> Disk {
        Disk { dirs: self.dirs.insert(dir), files: self.files }
    }

    /// The disk after `file` was written with `content`.
    pub open spec fn with_file(self, file: Seq<char>, content: Seq<char>) -> Disk {
        Disk { dirs: self.dirs, files: self.files.insert(file, content) }
    }

    /// Whether nothing hangs in the air: whatever is there lies in
    /// directories that are there, all the way up.
    pub open spec fn grounded(self) -> bool {
        forall|path: Seq<char>, k: int|
            self.holds(path) && 0 < k < path.len() && path[k] == separator()
                ==> #[trigger] self.dirs.contains(path.take(k))
    }
}

/// The creations that a disk refuses: the paths that cannot be made, each
/// with the reason.
pub type Refusals = Map<Seq<char>, Seq<char>>;

/// What became of the attempt to make `path`.
pub open spec fn attempt(refused: Refusals, path: Seq<char>) -> Option<Seq<char>> {
    if refused.dom().contains(path) {
        Some(refused[path])
    } else {
        None
    }
}

/// How a run ended.
pub struct Run {
    /// The disk at the end.
    pub disk: Disk,
    /// The paths that were made, in the order of their making.
    pub made: Seq<Seq<char>>,
    /// The step that ended the run.
    pub last: Step,
}

/// A bound on the number of steps that are left after `past` for a note of
/// `count` segments.
pub open spec fn effort(count: nat, past: Past) -> nat {
    match past {
        Past::Begin => 3 * count + 1,
        Past::Probed { level, .. } => if 0 <= level < count {
            (3 * (count - level)) as nat
        } else {
            0
        },
        Past::DirMade { level, .. } => if 0 <= level < count {
            (3 * (count - level) - 1) as nat
        } else {
            0
        },
        Past::FileMade { level, .. } => if 0 <= level < count {
            (3 * (count - level) - 2) as nat
        } else {
            0
        },
    }
}

/// The course of the making of a note from `past` on, on `disk`: each
/// step is the one that [`next_step`] names, each look at the disk is
/// answered by what the disk holds, and each creation succeeds and shows
/// on the disk unless it is among the `refused`, which leaves the disk as
/// it was.
pub open spec fn settle(
    disk: Disk,
    refused: Refusals,
    root: Seq<char>,
    parts: Seq<Seq<char>>,
    past: Past,
) -> Run
    decreases effort(parts.len(), past),
{
    match next_step(root, parts, past) {
        Step::Probe { level, file } => settle(
            disk,
            refused,
            root,
            parts,
            Past::Probed { level, present: disk.holds(file) },
        ),
        Step::MakeDir { level, dir } => {
            let failure = attempt(refused, dir);
            if failure is Some {
                settle(disk, refused, root, parts, Past::DirMade { level, failure })
            } else {
                let rest = settle(
                    disk.with_dir(dir),
                    refused,
                    root,
                    parts,
                    Past::DirMade { level, failure },
                );
                Run { disk: rest.disk, made: seq![dir] + rest.made, last: rest.last }
            }
        },
        Step::MakeFile { level, file, heading } => {
            let failure = attempt(refused, file);
            if failure is Some {
                settle(disk, refused, root, parts, Past::FileMade { level, failure })
            } else {
                let rest = settle(
                    disk.with_file(file, heading),
                    refused,
                    root,
                    parts,
                    Past::FileMade { level, failure },
                );
                Run { disk: rest.disk, made: seq![file] + rest.made, last: rest.last }
            }
        },
        last => Run { disk, made: Seq::empty(), last },
    }
}

/// Whether `past` is what became of a step on `disk`: what it says of the
/// disk is so.
pub open spec fn on_course(
    disk: Disk,
    refused: Refusals,
    root: Seq<char>,
    parts: Seq<Seq<char>>,
    past: Past,
) -> bool {
    match past {
        Past::Begin => true,
        Past::Probed { level, present } => 0 <= level && (level < parts.len() ==> present
            == disk.holds(level_file(root, parts, level))),
        Past::DirMade { level, failure } => 0 <= level && (level < parts.len() ==> {
            &&& !disk.holds(level_file(root, parts, level))
            &&& failure == attempt(refused, level_dir(root, parts, level))
        }),
        Past::FileMade { level, failure } => 0 <= level && (level < parts.len() ==> {
            &&& failure is None ==> disk.holds(level_file(root, parts, level))
            &&& failure == attempt(refused, level_file(root, parts, level))
        }),
    }
}

/// The first level that is still to be looked at after `past`.
pub open spec fn ahead(past: Past) -> int {
    match past {
        Past::Begin => 0,
        Past::Probed { level, present } => if present {
            level + 1
        } else {
            level
        },
        Past::DirMade { level, .. } => level,
        Past::FileMade { level, .. } => level + 1,
    }
}

/// Whether the files of all levels of the note are there.
pub open spec fn all_files_there(disk: Disk, root: Seq<char>, parts: Seq<Seq<char>>) -> bool {
    forall|i: int| 0 <= i < parts.len() ==> disk.holds(#[trigger] level_file(root, parts, i))
}

/// Whether the directories of the first `count` levels of the note are
/// there.
pub open spec fn dirs_there(disk: Disk, root: Seq<char>, parts: Seq<Seq<char>>, count: int) -> bool {
    forall|i: int|
        0 <= i < count && i < parts.len() ==> disk.dirs.contains(#[trigger] level_dir(root, parts, i))
}

/// Whether `after` has all that `before` has, every file with what it
/// held.
pub open spec fn keeps(before: Disk, after: Disk) -> bool {
    &&& forall|path: Seq<char>| before.dirs.contains(path) ==> after.dirs.contains(path)
    &&& forall|path: Seq<char>| #[trigger]
        before.files.dom().contains(path) ==> after.files.dom().contains(path) && after.files[path]
            == before.files[path]
}

/// Whether a run ended as a run can: with the note's own file, or with a
/// path that the disk refused and the reason it gave.
pub open spec fn ended(refused: Refusals, root: Seq<char>, parts: Seq<Seq<char>>, last: Step) -> bool {
    match last {
        Step::Done { deepest } => deepest == deepest_file(root, parts),
        Step::Failed { path, error } => attempt(refused, path) == Some(error),
        _ => false,
    }
}

/// The directory of a level is the one above it, a separator, and the
/// level's segment.
pub proof fn lemma_level_dir(root: Seq<char>, parts: Seq<Seq<char>>, i: int)
    requires
        0 <= i < parts.len(),
    ensures
        level_dir(root, parts, i) == (if i == 0 {
            root
        } else {
            level_dir(root, parts, i - 1)
        }) + seq![separator()] + parts[i],
{
    let upto = parts.take(i + 1);
    assert(upto.last() == parts[i]);
    if i == 0 {
        assert(slashed(upto) == parts[0]);
    } else {
        assert(upto.drop_last() =~= parts.take(i));
        assert(level_dir(root, parts, i) =~= level_dir(root, parts, i - 1) + seq![separator()]
            + parts[i]);
    }
}

proof fn lemma_file_is_new(disk: Disk, root: Seq<char>, parts: Seq<Seq<char>>, level: int)
    requires
        0 <= level < parts.len(),
        !disk.holds(level_file(root, parts, level)),
    ensures
        !disk.with_dir(level_dir(root, parts, level)).holds(level_file(root, parts, level)),
{
    let dir = level_dir(root, parts, level);
    let file = level_file(root, parts, level);
    assert(file.len() > dir.len());
}

proof fn lemma_keeps_on(first: Disk, second: Disk, third: Disk)
    requires
        keeps(first, second),
        keeps(second, third),
    ensures
        keeps(first, third),
        forall|path: Seq<char>| first.holds(path) ==> third.holds(path),
{
    assert forall|path: Seq<char>| #[trigger]
        first.files.dom().contains(path) implies third.files.dom().contains(path)
        && third.files[path] == first.files[path] by {
        assert(second.files.dom().contains(path));
    }
}

/// Every course of the making of a note ends, with the note's own file or
/// with the first path that the disk refused. What was there stays as it
/// was, so that nothing that was made is taken back. A course that ends
/// with the note's own file leaves the file of every level that was still
/// ahead.
pub proof fn lemma_settle(
    disk: Disk,
    refused: Refusals,
    root: Seq<char>,
    parts: Seq<Seq<char>>,
    past: Past,
)
    requires
        on_course(disk, refused, root, parts, past),
    ensures
        ended(refused, root, parts, settle(disk, refused, root, parts, past).last),
        keeps(disk, settle(disk, refused, root, parts, past).disk),
        settle(disk, refused, root, parts, past).last is Done ==> forall|i: int|
            ahead(past) <= i < parts.len() ==> settle(disk, refused, root, parts, past).disk.holds(
                #[trigger] level_file(root, parts, i),
            ),
    decreases effort(parts.len(), past),
{
    let end = settle(disk, refused, root, parts, past);
    match next_step(root, parts, past) {
        Step::Probe { level, file } => {
            let then = Past::Probed { level, present: disk.holds(file) };
            lemma_settle(disk, refused, root, parts, then);
            lemma_keeps_on(disk, disk, end.disk);
            if end.last is Done {
                assert forall|i: int| ahead(past) <= i < parts.len() implies end.disk.holds(
                    #[trigger] level_file(root, parts, i),
                ) by {
                    if i == level && disk.holds(file) {
                        assert(end.disk.holds(file));
                    }
                }
            }
        },
        Step::MakeDir { level, dir } => {
            let failure = attempt(refused, dir);
            if failure is Some {
                lemma_settle(disk, refused, root, parts, Past::DirMade { level, failure });
            } else {
                let next = disk.with_dir(dir);
                lemma_file_is_new(disk, root, parts, level);
                lemma_settle(next, refused, root, parts, Past::DirMade { level, failure });
                lemma_keeps_on(disk, next, end.disk);
            }
        },
        Step::MakeFile { level, file, heading } => {
            let failure = attempt(refused, file);
            if failure is Some {
                lemma_settle(disk, refused, root, parts, Past::FileMade { level, failure });
            } else {
                let next = disk.with_file(file, heading);
                lemma_settle(next, refused, root, parts, Past::FileMade { level, failure });
                lemma_keeps_on(disk, next, end.disk);
                lemma_keeps_on(next, end.disk, end.disk);
                if end.last is Done {
                    assert forall|i: int| ahead(past) <= i < parts.len() implies end.disk.holds(
                        #[trigger] level_file(root, parts, i),
                    ) by {
                        if i == level {
                            assert(next.holds(file));
                        }
                    }
                }
            }
        },
        _ => {},
    }
}

/// Where the files of all levels are there, nothing is made and nothing
/// can fail: the run goes from level to level and ends with the note's
/// own file.
pub proof fn lemma_nothing_to_make(
    disk: Disk,
    refused: Refusals,
    root: Seq<char>,
    parts: Seq<Seq<char>>,
)
    requires
        all_files_there(disk, root, parts),
    ensures
        settle(disk, refused, root, parts, Past::Begin) == (Run {
            disk,
            made: Seq::empty(),
            last: Step::Done { deepest: deepest_file(root, parts) },
        }),
{
    lemma_passes_over(disk, refused, root, parts, Past::Begin);
}

proof fn lemma_passes_over(
    disk: Disk,
    refused: Refusals,
    root: Seq<char>,
    parts: Seq<Seq<char>>,
    past: Past,
)
    requires
        all_files_there(disk, root, parts),
        past is Begin || (past matches Past::Probed { level, present } && 0 <= level && (level
            < parts.len() ==> present)),
    ensures
        settle(disk, refused, root, parts, past) == (Run {
            disk,
            made: Seq::empty(),
            last: Step::Done { deepest: deepest_file(root, parts) },
        }),
    decreases effort(parts.len(), past),
{
    match next_step(root, parts, past) {
        Step::Probe { level, file } => {
            lemma_passes_over(
                disk,
                refused,
                root,
                parts,
                Past::Probed { level, present: disk.holds(file) },
            );
        },
        _ => {},
    }
}

/// Making a note twice is making it once. After a run that ended with the
/// note's own file, a second run finds the file of every level, makes
/// nothing, cannot fail, leaves the disk as the first run left it, and
/// ends with the same file.
pub proof fn lemma_made_once(
    disk: Disk,
    refused: Refusals,
    refused_later: Refusals,
    root: Seq<char>,
    parts: Seq<Seq<char>>,
)
    requires
        settle(disk, refused, root, parts, Past::Begin).last is Done,
    ensures
        ({
            let first = settle(disk, refused, root, parts, Past::Begin);
            let second = settle(first.disk, refused_later, root, parts, Past::Begin);
            &&& second.last == first.last
            &&& second.made.len() == 0
            &&& second.disk == first.disk
        }),
{
    lemma_settle(disk, refused, root, parts, Past::Begin);
    let first = settle(disk, refused, root, parts, Past::Begin);
    lemma_nothing_to_make(first.disk, refused_later, root, parts);
}

/// One more path, put below a directory that is there, leaves nothing
/// hanging in the air.
proof fn lemma_added_grounded(disk: Disk, next: Disk, above: Seq<char>, name: Seq<char>)
    requires
        disk.grounded(),
        disk.dirs.contains(above),
        plain(name),
        forall|path: Seq<char>| disk.dirs.contains(path) ==> next.dirs.contains(path),
        forall|path: Seq<char>|
            next.holds(path) ==> disk.holds(path) || path == above + seq![separator()] + name,
    ensures
        next.grounded(),
{
    let added = above + seq![separator()] + name;
    assert forall|path: Seq<char>, k: int|
        next.holds(path) && 0 < k < path.len() && path[k] == separator() implies #[trigger]
        next.dirs.contains(path.take(k)) by {
        if disk.holds(path) {
            assert(disk.dirs.contains(path.take(k)));
        } else {
            assert(path == added);
            if k < above.len() {
                assert(added.take(k) =~= above.take(k));
                assert(above[k] == separator());
                assert(disk.dirs.contains(above.take(k)));
            } else if k == above.len() {
                assert(added.take(k) =~= above);
            } else {
                assert(added[k] == name[k - above.len() - 1]);
            }
        }
    }
}

proof fn lemma_dir_of_file(disk: Disk, root: Seq<char>, parts: Seq<Seq<char>>, level: int)
    requires
        disk.grounded(),
        0 <= level < parts.len(),
        disk.holds(level_file(root, parts, level)),
    ensures
        disk.dirs.contains(level_dir(root, parts, level)),
{
    let dir = level_dir(root, parts, level);
    let file = level_file(root, parts, level);
    assert(file[dir.len() as int] == separator());
    assert(file.take(dir.len() as int) =~= dir);
    assert(disk.dirs.contains(file.take(dir.len() as int)));
}

/// Whether `disk` is where a run on a sound disk has come to after
/// `past`: nothing hangs in the air, the root is there, and so are the
/// directories of the levels that the run is done with.
spec fn sound(
    disk: Disk,
    refused: Refusals,
    root: Seq<char>,
    parts: Seq<Seq<char>>,
    past: Past,
) -> bool {
    &&& disk.grounded()
    &&& disk.dirs.contains(root)
    &&& on_course(disk, refused, root, parts, past)
    &&& match past {
        Past::Begin => true,
        Past::Probed { level, .. } => dirs_there(disk, root, parts, level),
        Past::DirMade { level, failure } => dirs_there(
            disk,
            root,
            parts,
            if failure is None {
                level + 1
            } else {
                level
            },
        ),
        Past::FileMade { level, .. } => dirs_there(disk, root, parts, level + 1),
    }
}

/// A run on a sound disk leaves a sound disk, however it ends, and with
/// the directory of every level where it ends with the note's own file.
proof fn lemma_sound(
    disk: Disk,
    refused: Refusals,
    root: Seq<char>,
    parts: Seq<Seq<char>>,
    past: Past,
)
    requires
        note_path(parts),
        sound(disk, refused, root, parts, past),
    ensures
        settle(disk, refused, root, parts, past).disk.grounded(),
        settle(disk, refused, root, parts, past).last is Done ==> dirs_there(
            settle(disk, refused, root, parts, past).disk,
            root,
            parts,
            parts.len() as int,
        ),
    decreases effort(parts.len(), past),
{
    if let Past::Probed { level, present } = past {
        if present && level < parts.len() {
            lemma_dir_of_file(disk, root, parts, level);
        }
        assert(dirs_there(disk, root, parts, ahead(past)));
    }
    match next_step(root, parts, past) {
        Step::Probe { level, file } => {
            lemma_sound(
                disk,
                refused,
                root,
                parts,
                Past::Probed { level, present: disk.holds(file) },
            );
        },
        Step::MakeDir { level, dir } => {
            let failure = attempt(refused, dir);
            if failure is Some {
                lemma_sound(disk, refused, root, parts, Past::DirMade { level, failure });
            } else {
                lemma_level_dir(root, parts, level);
                let above = if level == 0 {
                    root
                } else {
                    level_dir(root, parts, level - 1)
                };
                assert(disk.dirs.contains(above));
                lemma_added_grounded(disk, disk.with_dir(dir), above, parts[level]);
                lemma_file_is_new(disk, root, parts, level);
                lemma_sound(disk.with_dir(dir), refused, root, parts, Past::DirMade { level, failure });
            }
        },
        Step::MakeFile { level, file, heading } => {
            let failure = attempt(refused, file);
            if failure is Some {
                lemma_sound(disk, refused, root, parts, Past::FileMade { level, failure });
            } else {
                let dir = level_dir(root, parts, level);
                let name = parts[level] + ".md"@;
                assert(plain(name)) by {
                    reveal_strlit(".md");
                }
                assert(disk.dirs.contains(dir));
                assert(file =~= dir + seq![separator()] + name);
                lemma_added_grounded(disk, disk.with_file(file, heading), dir, name);
                lemma_sound(
                    disk.with_file(file, heading),
                    refused,
                    root,
                    parts,
                    Past::FileMade { level, failure },
                );
            }
        },
        Step::Done { .. } => {
            assert(dirs_there(disk, root, parts, parts.len() as int));
        },
        Step::Failed { .. } => {},
    }
}

/// After a note was made, every level of it is there: its directory, and
/// in it its file. This holds of a path as it should be, on a disk that
/// has the root and on which nothing hangs in the air; and nothing hangs
/// in the air afterwards, however the run ended.
pub proof fn lemma_every_level_there(
    disk: Disk,
    refused: Refusals,
    root: Seq<char>,
    parts: Seq<Seq<char>>,
)
    requires
        note_path(parts),
        disk.grounded(),
        disk.dirs.contains(root),
    ensures
        settle(disk, refused, root, parts, Past::Begin).disk.grounded(),
        settle(disk, refused, root, parts, Past::Begin).last is Done ==> forall|i: int|
            0 <= i < parts.len() ==> {
                let end = settle(disk, refused, root, parts, Past::Begin).disk;
                &&& end.dirs.contains(#[trigger] level_dir(root, parts, i))
                &&& end.holds(level_file(root, parts, i))
            },
{
    lemma_sound(disk, refused, root, parts, Past::Begin);
    lemma_settle(disk, refused, root, parts, Past::Begin);
}

} // verus!
