//! The tree walker: which entries below a directory are listed, and in what
//! order.
//!
//! Within a directory the files come first, by name. Then its
//! subdirectories are visited, by name, each to its full depth before the
//! next. Entries whose name starts with a dot are passed over, files and
//! directories alike. So a listing goes by what a directory holds, and not
//! by the order in which a scan came upon it.

use vstd::prelude::*;
use vstd::string::*;
use crate::path::{entry_path, join};
use crate::text::chars_of;
use crate::tree::{nodes, Entry, Node};

verus! {

/// What a walk lists.
#[derive(Clone, Copy, Debug, PartialEq, Eq)]
pub enum Mode {
    /// The markdown files only.
    Markdown,
    /// Every file and every directory.
    Everything,
}

/// What a walk takes from a directory.
pub enum Pick {
    /// The files that a walk in this mode lists.
    Files(Mode),
    /// The directories that a walk goes into.
    Dirs,
}

/// A hidden entry: one whose name starts with a dot.
pub open spec fn hidden(name: Seq<char>) -> bool {
    name.len() > 0 && name[0] == '.'
}

/// A markdown file, going by its name: one that ends in `.md`.
pub open spec fn markdown(name: Seq<char>) -> bool {
    name.len() >= 3 && name[name.len() - 3] == '.' && name[name.len() - 2] == 'm' && name[name.len()
        - 1] == 'd'
}

/// Whether a walk in `mode` lists `node` among the files of its directory.
pub open spec fn listed_file(node: Node, mode: Mode) -> bool {
    node is File && !hidden(node.name()) && (mode == Mode::Everything || markdown(node.name()))
}

/// Whether a walk goes into `node`.
pub open spec fn visited_dir(node: Node) -> bool {
    node is Dir && !hidden(node.name())
}

/// Whether `node` is among what `pick` takes.
pub open spec fn picked(node: Node, pick: Pick) -> bool {
    match pick {
        Pick::Files(mode) => listed_file(node, mode),
        Pick::Dirs => visited_dir(node),
    }
}

/// Whether `a` comes before `b` where names are put in order: character by
/// character, a name before those that it begins.
pub open spec fn precedes(a: Seq<char>, b: Seq<char>) -> bool
    decreases a.len(),
{
    if b.len() == 0 {
        false
    } else if a.len() == 0 {
        true
    } else if a[0] != b[0] {
        a[0] < b[0]
    } else {
        precedes(a.drop_first(), b.drop_first())
    }
}

/// `order`, positions in `entries` in the order of their names, with the
/// position `i` put in: behind every position whose name does not come
/// after its own.
pub open spec fn placed(entries: Seq<Node>, order: Seq<int>, i: int) -> Seq<int>
    decreases order.len(),
{
    if order.len() > 0 && precedes(entries[i].name(), entries[order.last()].name()) {
        placed(entries, order.drop_last(), i).push(order.last())
    } else {
        order.push(i)
    }
}

/// The positions among the first `count` of `entries` that `pick` takes,
/// in the order of a walk: by name, and by position where two names are
/// the same.
pub open spec fn name_order(entries: Seq<Node>, count: int, pick: Pick) -> Seq<int>
    decreases count,
{
    if count <= 0 {
        Seq::empty()
    } else {
        let before = name_order(entries, count - 1, pick);
        if picked(entries[count - 1], pick) {
            placed(entries, before, count - 1)
        } else {
            before
        }
    }
}

/// The positions of the files of `entries` that a walk in `mode` lists,
/// in the order in which it lists them.
pub open spec fn file_order(entries: Seq<Node>, mode: Mode) -> Seq<int> {
    name_order(entries, entries.len() as int, Pick::Files(mode))
}

/// The positions of the directories of `entries` that a walk goes into,
/// in the order in which it does.
pub open spec fn visit_order(entries: Seq<Node>) -> Seq<int> {
    name_order(entries, entries.len() as int, Pick::Dirs)
}

/// The paths of the entries of `dir` at the positions `order`, one after
/// the other.
pub open spec fn direct(dir: Seq<char>, entries: Seq<Node>, order: Seq<int>) -> Seq<Seq<char>>
    decreases order.len(),
{
    if order.len() == 0 {
        Seq::empty()
    } else {
        direct(dir, entries, order.drop_last()).push(entry_path(dir, entries[order.last()].name()))
    }
}

/// What a walk of the directory `dir`, which holds `entries`, lists: the
/// files of `dir` itself, then what lies below each of its subdirectories.
pub open spec fn listing(dir: Seq<char>, entries: Seq<Node>, mode: Mode) -> Seq<Seq<char>>
    decreases entries, 1nat, 0nat,
{
    direct(dir, entries, file_order(entries, mode)) + nested(
        dir,
        entries,
        visit_order(entries),
        mode,
    )
}

/// What a walk lists on going into the entries of `dir` at the positions
/// `order`, one after the other. A directory is itself listed where
/// everything is; one that could not be opened has nothing below it.
pub open spec fn nested(dir: Seq<char>, entries: Seq<Node>, order: Seq<int>, mode: Mode) -> Seq<
    Seq<char>,
>
    decreases entries, 0nat, order.len(),
{
    if order.len() == 0 {
        Seq::empty()
    } else {
        let before = nested(dir, entries, order.drop_last(), mode);
        let i = order.last();
        if 0 <= i < entries.len() {
            before + subtree(dir, entries, i, mode)
        } else {
            before
        }
    }
}

/// What a walk lists on going into the entry of `dir` at position `i`.
pub open spec fn subtree(dir: Seq<char>, entries: Seq<Node>, i: int, mode: Mode) -> Seq<Seq<char>>
    recommends
        0 <= i < entries.len(),
    decreases entries, 0nat, 0nat,
    when 0 <= i < entries.len()
{
    match entries[i] {
        Node::File { .. } => Seq::empty(),
        Node::Dir { name, contents } => {
            let path = entry_path(dir, name);
            let own = if mode == Mode::Everything {
                seq![path]
            } else {
                Seq::empty()
            };
            match contents {
                Some(inner) => own + listing(path, inner, mode),
                None => own,
            }
        },
    }
}

/// Whether a walk comes to the entry at position `x` before the one at
/// `y`: the name decides, and between two of one name the position.
pub open spec fn goes_before(entries: Seq<Node>, x: int, y: int) -> bool {
    precedes(entries[x].name(), entries[y].name()) || (!precedes(
        entries[y].name(),
        entries[x].name(),
    ) && x < y)
}

/// Whether the positions in `order` stand in the order in which a walk
/// comes to them.
pub open spec fn in_turn(entries: Seq<Node>, order: Seq<int>) -> bool {
    forall|a: int, b: int|
        0 <= a < b < order.len() ==> goes_before(entries, #[trigger] order[a], #[trigger] order[b])
}

/// Names are in a line: a name that comes before another comes before
/// every third name, or the third comes before the other.
pub proof fn lemma_precedes_between(x: Seq<char>, b: Seq<char>, a: Seq<char>)
    requires
        precedes(x, a),
    ensures
        precedes(x, b) || precedes(b, a),
    decreases x.len(),
{
    if x.len() > 0 && a.len() > 0 && b.len() > 0 && x[0] == a[0] && b[0] == x[0] {
        lemma_precedes_between(x.drop_first(), b.drop_first(), a.drop_first());
    }
}

/// Of two names, not each comes before the other.
pub proof fn lemma_precedes_one_way(x: Seq<char>, y: Seq<char>)
    requires
        precedes(x, y),
    ensures
        !precedes(y, x),
    decreases x.len(),
{
    if x.len() > 0 && y.len() > 0 && x[0] == y[0] {
        lemma_precedes_one_way(x.drop_first(), y.drop_first());
    }
}

/// Of two names that differ, one comes before the other.
pub proof fn lemma_precedes_or_same(x: Seq<char>, y: Seq<char>)
    ensures
        precedes(x, y) || precedes(y, x) || x == y,
    decreases x.len(),
{
    if x.len() > 0 && y.len() > 0 && x[0] == y[0] {
        lemma_precedes_or_same(x.drop_first(), y.drop_first());
        if x.drop_first() == y.drop_first() {
            assert(x =~= seq![x[0]] + x.drop_first());
            assert(y =~= seq![y[0]] + y.drop_first());
        }
    } else if x.len() == 0 && y.len() == 0 {
        assert(x =~= y);
    }
}

/// Putting a position in puts it in once, at its place in the order, and
/// moves nothing else. The position is one behind all that are in already.
proof fn lemma_placed(entries: Seq<Node>, order: Seq<int>, i: int)
    requires
        in_turn(entries, order),
        forall|a: int| 0 <= a < order.len() ==> order[a] < i,
    ensures
        in_turn(entries, placed(entries, order, i)),
        exists|k: int| 0 <= k <= order.len() && placed(entries, order, i) == order.insert(k, i),
    decreases order.len(),
{
    let result = placed(entries, order, i);
    if order.len() > 0 && precedes(entries[i].name(), entries[order.last()].name()) {
        let front = order.drop_last();
        let last = order.last();
        assert forall|a: int, b: int| 0 <= a < b < front.len() implies goes_before(
            entries,
            #[trigger] front[a],
            #[trigger] front[b],
        ) by {
            assert(front[a] == order[a] && front[b] == order[b]);
        }
        assert forall|a: int| 0 <= a < front.len() implies front[a] < i by {
            assert(front[a] == order[a]);
        }
        lemma_placed(entries, front, i);
        let inner = placed(entries, front, i);
        let k = choose|k: int| 0 <= k <= front.len() && inner == front.insert(k, i);
        assert(result =~= order.insert(k, i));
        assert forall|a: int, b: int| 0 <= a < b < result.len() implies goes_before(
            entries,
            #[trigger] result[a],
            #[trigger] result[b],
        ) by {
            if b < result.len() - 1 {
                assert(result[a] == inner[a] && result[b] == inner[b]);
            } else if a != k {
                let from = if a < k {
                    a
                } else {
                    a - 1
                };
                assert(result[a] == order[from]);
                assert(order[order.len() - 1] == last);
            }
        }
    } else {
        assert(result =~= order.insert(order.len() as int, i));
        assert forall|a: int, b: int| 0 <= a < b < result.len() implies goes_before(
            entries,
            #[trigger] result[a],
            #[trigger] result[b],
        ) by {
            if b < order.len() {
                assert(result[a] == order[a] && result[b] == order[b]);
            } else {
                let last = order.last();
                assert(result[a] == order[a]);
                assert(order[order.len() - 1] == last);
                if precedes(entries[i].name(), entries[order[a]].name()) {
                    lemma_precedes_between(
                        entries[i].name(),
                        entries[last].name(),
                        entries[order[a]].name(),
                    );
                    if a < order.len() - 1 {
                        lemma_precedes_one_way(entries[last].name(), entries[order[a]].name());
                    }
                }
            }
        }
    }
}

/// The order in which a walk comes to what it takes from a directory: it
/// holds each position that is taken, once, and nothing else, and it goes
/// by name, and by position between two of one name.
pub proof fn lemma_name_order(entries: Seq<Node>, count: int, pick: Pick)
    requires
        0 <= count <= entries.len(),
    ensures
        in_turn(entries, name_order(entries, count, pick)),
        name_order(entries, count, pick).no_duplicates(),
        forall|i: int|
            name_order(entries, count, pick).contains(i) <==> 0 <= i < count && picked(
                entries[i],
                pick,
            ),
    decreases count,
{
    if count > 0 {
        let before = name_order(entries, count - 1, pick);
        lemma_name_order(entries, count - 1, pick);
        if picked(entries[count - 1], pick) {
            let new = count - 1;
            let now = placed(entries, before, new);
            assert forall|a: int| 0 <= a < before.len() implies before[a] < new by {
                assert(before.contains(before[a]));
            }
            lemma_placed(entries, before, new);
            let k = choose|k: int| 0 <= k <= before.len() && now == before.insert(k, new);
            assert forall|i: int| now.contains(i) <==> 0 <= i < count && picked(
                entries[i],
                pick,
            ) by {
                if now.contains(i) {
                    let at = choose|at: int| 0 <= at < now.len() && now[at] == i;
                    if at < k {
                        assert(before[at] == i);
                        assert(before.contains(i));
                    } else if at > k {
                        assert(before[at - 1] == i);
                        assert(before.contains(i));
                    } else {
                        assert(i == new);
                    }
                }
                if 0 <= i < count && picked(entries[i], pick) {
                    if i == count - 1 {
                        assert(now[k] == i);
                    } else {
                        assert(before.contains(i));
                        let at = choose|at: int| 0 <= at < before.len() && before[at] == i;
                        if at < k {
                            assert(now[at] == i);
                        } else {
                            assert(now[at + 1] == i);
                        }
                    }
                }
            }
            assert forall|a: int, b: int| 0 <= a < now.len() && 0 <= b < now.len() && a != b implies now[a]
                != now[b] by {
                let x = if a < k {
                    a
                } else {
                    a - 1
                };
                let y = if b < k {
                    b
                } else {
                    b - 1
                };
                if a == k {
                    assert(before[y] == now[b]);
                    assert(before.contains(now[b]));
                } else if b == k {
                    assert(before[x] == now[a]);
                    assert(before.contains(now[a]));
                } else {
                    assert(before[x] == now[a] && before[y] == now[b]);
                }
            }
        }
    }
}

/// Whether every one of `paths` is the path of a markdown file.
pub open spec fn all_markdown(paths: Seq<Seq<char>>) -> bool {
    forall|k: int| 0 <= k < paths.len() ==> markdown(#[trigger] paths[k])
}

proof fn lemma_direct_markdown(dir: Seq<char>, entries: Seq<Node>, order: Seq<int>)
    requires
        forall|k: int| 0 <= k < order.len() ==> markdown(entries[#[trigger] order[k]].name()),
    ensures
        all_markdown(direct(dir, entries, order)),
    decreases order.len(),
{
    if order.len() > 0 {
        let front = order.drop_last();
        assert forall|k: int| 0 <= k < front.len() implies markdown(
            entries[#[trigger] front[k]].name(),
        ) by {
            assert(front[k] == order[k]);
        }
        lemma_direct_markdown(dir, entries, front);
        assert(markdown(entries[order[order.len() - 1]].name()));
    }
}

proof fn lemma_nested_markdown(dir: Seq<char>, entries: Seq<Node>, order: Seq<int>)
    ensures
        all_markdown(nested(dir, entries, order, Mode::Markdown)),
    decreases entries, 0nat, order.len(),
{
    if order.len() > 0 {
        lemma_nested_markdown(dir, entries, order.drop_last());
        let i = order.last();
        if 0 <= i < entries.len() {
            if let Node::Dir { name, contents: Some(inner) } = entries[i] {
                lemma_markdown_only(entry_path(dir, name), inner);
            }
            let before = nested(dir, entries, order.drop_last(), Mode::Markdown);
            let below = subtree(dir, entries, i, Mode::Markdown);
            assert forall|k: int| 0 <= k < (before + below).len() implies markdown(
                #[trigger] (before + below)[k],
            ) by {
                if k < before.len() {
                    assert((before + below)[k] == before[k]);
                } else {
                    assert((before + below)[k] == below[k - before.len()]);
                }
            }
        }
    }
}

/// A walk for markdown files lists nothing else: every path that it lists
/// ends in `.md`.
pub proof fn lemma_markdown_only(dir: Seq<char>, entries: Seq<Node>)
    ensures
        all_markdown(listing(dir, entries, Mode::Markdown)),
    decreases entries, 1nat, 0nat,
{
    let order = file_order(entries, Mode::Markdown);
    lemma_name_order(entries, entries.len() as int, Pick::Files(Mode::Markdown));
    assert forall|k: int| 0 <= k < order.len() implies markdown(
        entries[#[trigger] order[k]].name(),
    ) by {
        assert(order.contains(order[k]));
    }
    lemma_direct_markdown(dir, entries, order);
    lemma_nested_markdown(dir, entries, visit_order(entries));
    let files = direct(dir, entries, order);
    let below = nested(dir, entries, visit_order(entries), Mode::Markdown);
    assert forall|k: int| 0 <= k < (files + below).len() implies markdown(
        #[trigger] (files + below)[k],
    ) by {
        if k < files.len() {
            assert((files + below)[k] == files[k]);
        } else {
            assert((files + below)[k] == below[k - files.len()]);
        }
    }
}

/// Positions as contracts speak of them.
pub open spec fn positions(order: Seq<usize>) -> Seq<int> {
    order.map_values(|p: usize| p as int)
}

proof fn lemma_pushed(before: Vec<String>, after: Vec<String>, last: String)
    requires
        after@ == before@.push(last),
    ensures
        after.deep_view() == before.deep_view().push(last@),
{
    assert(after.deep_view() =~= before.deep_view().push(last@));
}

proof fn lemma_appended(before: Vec<String>, more: Vec<String>, after: Vec<String>)
    requires
        after@ == before@ + more@,
    ensures
        after.deep_view() == before.deep_view() + more.deep_view(),
{
    assert(after.deep_view() =~= before.deep_view() + more.deep_view());
}

/// Whether `name` is the name of a hidden entry.
pub fn is_hidden(name: &str) -> (r: bool)
    ensures
        r == hidden(name@),
{
    let chars = chars_of(name);
    chars.len() > 0 && chars[0] == '.'
}

/// Whether `name` is the name of a markdown file.
pub fn is_markdown(name: &str) -> (r: bool)
    ensures
        r == markdown(name@),
{
    let chars = chars_of(name);
    let n = chars.len();
    n >= 3 && chars[n - 3] == '.' && chars[n - 2] == 'm' && chars[n - 1] == 'd'
}

/// Whether the name `a` comes before the name `b`.
pub fn comes_before(a: &str, b: &str) -> (r: bool)
    ensures
        r == precedes(a@, b@),
{
    let x = chars_of(a);
    let y = chars_of(b);
    let mut k: usize = 0;
    assert(x@.skip(0) =~= x@ && y@.skip(0) =~= y@);
    loop
        invariant
            x@ == a@,
            y@ == b@,
            0 <= k <= x.len(),
            k <= y.len(),
            precedes(a@, b@) == precedes(x@.skip(k as int), y@.skip(k as int)),
        decreases x.len() - k,
    {
        if k == y.len() {
            return false;
        }
        if k == x.len() {
            return true;
        }
        if x[k] != y[k] {
            return x[k] < y[k];
        }
        proof {
            assert(x@.skip(k as int).drop_first() =~= x@.skip(k + 1));
            assert(y@.skip(k as int).drop_first() =~= y@.skip(k + 1));
        }
        k = k + 1;
    }
}

/// Whether `entry` is among what `pick` takes.
fn is_picked(entry: &Entry, pick: &Pick) -> (r: bool)
    ensures
        r == picked(entry@, *pick),
{
    match pick {
        Pick::Files(mode) => match entry {
            Entry::File { name } => !is_hidden(name.as_str()) && match mode {
                Mode::Everything => true,
                Mode::Markdown => is_markdown(name.as_str()),
            },
            Entry::Dir { .. } => false,
        },
        Pick::Dirs => match entry {
            Entry::Dir { name, .. } => !is_hidden(name.as_str()),
            Entry::File { .. } => false,
        },
    }
}

/// Puts the position `i` into `order`, which is in the order of the names.
fn place(entries: &Vec<Entry>, order: &mut Vec<usize>, i: usize)
    requires
        i < entries.len(),
        forall|k: int| 0 <= k < old(order).len() ==> old(order)@[k] < entries.len(),
    ensures
        positions(final(order)@) == placed(nodes(entries@), positions(old(order)@), i as int),
        forall|k: int| 0 <= k < final(order).len() ==> final(order)@[k] < entries.len(),
{
    let ghost ns = nodes(entries@);
    let ghost start = positions(order@);
    let mut k: usize = order.len();
    assert(start.take(k as int) =~= start && start.skip(k as int) =~= Seq::<int>::empty());
    assert(placed(ns, start, i as int) + Seq::<int>::empty() =~= placed(ns, start, i as int));
    while k > 0 && comes_before(entries[i].name(), entries[order[k - 1]].name())
        invariant
            0 <= k <= order.len(),
            i < entries.len(),
            ns == nodes(entries@),
            start == positions(order@),
            forall|j: int| 0 <= j < order.len() ==> order@[j] < entries.len(),
            placed(ns, start, i as int) == placed(ns, start.take(k as int), i as int) + start.skip(
                k as int,
            ),
        decreases k,
    {
        proof {
            let head = start.take(k as int);
            assert(head.last() == order@[k - 1]);
            assert(head.drop_last() =~= start.take(k - 1));
            assert(placed(ns, head.drop_last(), i as int).push(head.last()) + start.skip(k as int)
                =~= placed(ns, head.drop_last(), i as int) + start.skip(k - 1));
        }
        k = k - 1;
    }
    proof {
        let head = start.take(k as int);
        if k > 0 {
            assert(head.last() == order@[k - 1]);
        }
        assert(placed(ns, head, i as int) == head.push(i as int));
    }
    order.insert(k, i);
    assert(positions(order@) =~= start.take(k as int).push(i as int) + start.skip(k as int));
}

/// The positions of `entries` that `pick` takes, in the order of a walk.
fn in_name_order(entries: &Vec<Entry>, pick: &Pick) -> (order: Vec<usize>)
    ensures
        positions(order@) == name_order(nodes(entries@), entries.len() as int, *pick),
        forall|k: int| 0 <= k < order.len() ==> order@[k] < entries.len(),
{
    let mut order: Vec<usize> = Vec::new();
    let mut i: usize = 0;
    while i < entries.len()
        invariant
            0 <= i <= entries.len(),
            positions(order@) == name_order(nodes(entries@), i as int, *pick),
            forall|k: int| 0 <= k < order.len() ==> order@[k] < entries.len(),
        decreases entries.len() - i,
    {
        if is_picked(&entries[i], pick) {
            place(entries, &mut order, i);
        }
        i = i + 1;
    }
    order
}

/// Walks the directory `dir`, which holds `entries`.
fn walk(dir: &str, entries: &Vec<Entry>, mode: Mode) -> (out: Vec<String>)
    ensures
        out.deep_view() == listing(dir@, nodes(entries@), mode),
    decreases entries,
{
    let ghost ns = nodes(entries@);
    let mut out: Vec<String> = Vec::new();
    let files = in_name_order(entries, &Pick::Files(mode));
    let ghost firsts = positions(files@);
    let mut i: usize = 0;
    while i < files.len()
        invariant
            0 <= i <= files.len(),
            ns == nodes(entries@),
            firsts == positions(files@),
            forall|j: int| 0 <= j < files.len() ==> files@[j] < entries.len(),
            out.deep_view() == direct(dir@, ns, firsts.take(i as int)),
        decreases files.len() - i,
    {
        let p = files[i];
        proof {
            assert(firsts.take(i + 1).drop_last() =~= firsts.take(i as int));
            assert(firsts.take(i + 1).last() == p as int);
            assert(ns[p as int] == entries[p as int]@);
        }
        let path = join(dir, entries[p].name());
        let ghost before = out;
        out.push(path);
        proof {
            lemma_pushed(before, out, path);
        }
        i = i + 1;
    }
    assert(firsts.take(i as int) =~= firsts);
    let order = in_name_order(entries, &Pick::Dirs);
    let ghost listed = out.deep_view();
    let ghost turns = positions(order@);
    let mut k: usize = 0;
    while k < order.len()
        invariant
            0 <= k <= order.len(),
            ns == nodes(entries@),
            turns == positions(order@),
            forall|j: int| 0 <= j < order.len() ==> order@[j] < entries.len(),
            out.deep_view() == listed + nested(dir@, ns, turns.take(k as int), mode),
        decreases order.len() - k,
    {
        let p = order[k];
        proof {
            assert(turns.take(k + 1).drop_last() =~= turns.take(k as int));
            assert(turns.take(k + 1).last() == p as int);
            assert(ns[p as int] == entries[p as int]@);
        }
        let ghost so_far = out.deep_view();
        match &entries[p] {
            Entry::Dir { name, contents } => {
                let path = join(dir, name.as_str());
                match mode {
                    Mode::Everything => {
                        let ghost before = out;
                        let own = path.clone();
                        out.push(own);
                        proof {
                            lemma_pushed(before, out, own);
                        }
                    },
                    Mode::Markdown => {},
                }
                match contents {
                    Some(inner) => {
                        let mut below = walk(path.as_str(), inner, mode);
                        let ghost before = out;
                        let ghost more = below;
                        out.append(&mut below);
                        proof {
                            lemma_appended(before, more, out);
                        }
                    },
                    None => {},
                }
            },
            Entry::File { .. } => {},
        }
        assert(out.deep_view() =~= so_far + subtree(dir@, ns, p as int, mode));
        k = k + 1;
    }
    assert(turns.take(k as int) =~= turns);
    out
}

/// Lists the markdown files below the directory `dir`, given what a scan of
/// `dir` found. A directory that could not be opened gives `None`; one
/// without markdown files gives an empty list.
pub fn markdown_paths(dir: &str, found: &Option<Vec<Entry>>) -> (r: Option<Vec<String>>)
    ensures
        match r {
            Some(paths) => found is Some && paths.deep_view() == listing(
                dir@,
                nodes(found->0@),
                Mode::Markdown,
            ),
            None => found is None,
        },
{
    match found {
        Some(entries) => Some(walk(dir, entries, Mode::Markdown)),
        None => None,
    }
}

/// Lists every file and directory below the directory `dir`, given what a
/// scan of `dir` found. A directory that could not be opened gives `None`;
/// one below which there is nothing to list gives an empty list.
pub fn all_paths(dir: &str, found: &Option<Vec<Entry>>) -> (r: Option<Vec<String>>)
    ensures
        match r {
            Some(paths) => found is Some && paths.deep_view() == listing(
                dir@,
                nodes(found->0@),
                Mode::Everything,
            ),
            None => found is None,
        },
{
    match found {
        Some(entries) => Some(walk(dir, entries, Mode::Everything)),
        None => None,
    }
}

} // verus!
