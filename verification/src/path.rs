//! Paths as text: how the path of a note or of a directory entry is put
//! together from its parts.

use vstd::prelude::*;
use vstd::string::*;

verus! {

/// The separator between the parts of a path.
pub open spec fn separator() -> char {
    '/'
}

/// The path of the entry `name` of the directory `dir`. A separator is put
/// between the two unless `dir` is empty or ends with one already.
pub open spec fn entry_path(dir: Seq<char>, name: Seq<char>) -> Seq<char> {
    if dir.len() == 0 || dir.last() == separator() {
        dir + name
    } else {
        dir + seq![separator()] + name
    }
}

/// Builds the path of the entry `name` of the directory `dir`.
pub fn join(dir: &str, name: &str) -> (r: String)
    ensures
        r@ == entry_path(dir@, name@),
{
    let n = dir.unicode_len();
    let mut out = String::from_str(dir);
    if n > 0 && dir.get_char(n - 1) != '/' {
        proof {
            reveal_strlit("/");
        }
        out.append("/");
        assert(out@ =~= dir@ + seq![separator()]);
    }
    out.append(name);
    out
}

/// A segment of a note's path without a separator in it.
pub open spec fn plain(part: Seq<char>) -> bool {
    forall|k: int| 0 <= k < part.len() ==> part[k] != separator()
}

/// The path of a note as it should be: at least one segment, none of them
/// empty, none with a separator in it.
pub open spec fn note_path(parts: Seq<Seq<char>>) -> bool {
    &&& parts.len() > 0
    &&& forall|i: int| 0 <= i < parts.len() ==> (#[trigger] parts[i]).len() > 0 && plain(parts[i])
}

/// `parts` with a separator between each two neighbours.
pub open spec fn slashed(parts: Seq<Seq<char>>) -> Seq<char>
    decreases parts.len(),
{
    if parts.len() == 0 {
        Seq::empty()
    } else if parts.len() == 1 {
        parts[0]
    } else {
        slashed(parts.drop_last()) + seq![separator()] + parts.last()
    }
}

/// The directory that `parts` lead to from `root`: `root`, a separator, and
/// the parts with separators between them. With no parts this is `root`
/// and a separator.
pub open spec fn below(root: Seq<char>, parts: Seq<Seq<char>>) -> Seq<char> {
    root + seq![separator()] + slashed(parts)
}

/// Builds the path that the first `count` of `parts` lead to from `root`.
pub(crate) fn path_below(root: &str, parts: &[String], count: usize) -> (r: String)
    requires
        count <= parts.len(),
    ensures
        r@ == below(root@, parts.deep_view().take(count as int)),
{
    let mut out = String::from_str(root);
    proof {
        reveal_strlit("/");
    }
    out.append("/");
    let ghost taken = parts.deep_view();
    let mut i: usize = 0;
    while i < count
        invariant
            0 <= i <= count <= parts.len(),
            taken == parts.deep_view(),
            "/"@ == seq![separator()],
            out@ == below(root@, taken.take(i as int)),
        decreases count - i,
    {
        if i > 0 {
            out.append("/");
        }
        out.append(parts[i].as_str());
        i = i + 1;
        proof {
            let now = taken.take(i as int);
            assert(now.drop_last() =~= taken.take(i - 1));
            assert(now.last() == parts[i - 1]@);
            assert(out@ =~= below(root@, now));
        }
    }
    out
}

} // verus!
