//! Two scans of one directory.
//!
//! A scan hands the entries of a directory over in some order, and the
//! next scan may hand them over in another. This module proves that a
//! listing does not show which it was: two scans that hold the same
//! entries, whatever their order at any depth, give the same listing.

use vstd::prelude::*;
use crate::path::entry_path;
use crate::tree::Node;
use crate::walker::{
    direct, file_order, goes_before, lemma_name_order, lemma_precedes_one_way,
    lemma_precedes_or_same, listing, name_order, nested, picked, precedes, subtree, visit_order,
    Mode, Pick,
};

verus! {

/// The entry at position `i`.
pub open spec fn entry_at(entries: Seq<Node>, i: int) -> Node {
    entries[i]
}

/// The name of the entry at position `i`.
pub open spec fn name_at(entries: Seq<Node>, i: int) -> Seq<char> {
    entries[i].name()
}

/// Whether no two of `entries` have one name, here and in every directory
/// below: what holds of every directory on a disk.
pub open spec fn well_named(entries: Seq<Node>) -> bool
    decreases entries,
{
    &&& forall|i: int, j: int|
        0 <= i < j < entries.len() ==> #[trigger] name_at(entries, i) != #[trigger] name_at(entries, j)
    &&& forall|i: int|
        #![trigger entry_at(entries, i)]
        0 <= i < entries.len() ==> well_named_below(entries[i])
}

/// Whether what `node` holds, if it is a directory that was opened, is
/// well named.
pub open spec fn well_named_below(node: Node) -> bool
    decreases node,
{
    match node {
        Node::Dir { contents: Some(inner), .. } => well_named(inner),
        _ => true,
    }
}

/// Whether `x` and `y` are one entry: of one name and one kind, and if
/// they are directories, with the same entries in them, in whatever
/// order.
pub open spec fn same_entry(x: Node, y: Node) -> bool
    decreases x,
{
    match x {
        Node::File { name } => y == x,
        Node::Dir { name, contents } => y is Dir && y.name() == name && match contents {
            Some(inner) => y->contents is Some && same_entries(inner, y->contents->0),
            None => y->contents is None,
        },
    }
}

/// Whether `a` and `b` hold the same entries, in whatever order: each
/// entry of one has its like, of the same name, in the other.
pub open spec fn same_entries(a: Seq<Node>, b: Seq<Node>) -> bool
    decreases a,
{
    &&& forall|i: int|
        #![trigger entry_at(a, i)]
        0 <= i < a.len() ==> exists|j: int|
            #![trigger name_at(b, j)]
            0 <= j < b.len() && name_at(b, j) == a[i].name() && same_entry(a[i], b[j])
    &&& forall|j: int|
        #![trigger entry_at(b, j)]
        0 <= j < b.len() ==> exists|i: int|
            #![trigger name_at(a, i)]
            0 <= i < a.len() && name_at(a, i) == b[j].name() && same_entry(a[i], b[j])
}

/// An entry of one of two scans that hold the same entries is in the other
/// too.
proof fn lemma_other(a: Seq<Node>, b: Seq<Node>, i: int) -> (j: int)
    requires
        same_entries(a, b),
        0 <= i < a.len(),
    ensures
        0 <= j < b.len(),
        same_entry(a[i], b[j]),
{
    assert(entry_at(a, i) == a[i]);
    choose|j: int|
        #![trigger name_at(b, j)]
        0 <= j < b.len() && name_at(b, j) == a[i].name() && same_entry(a[i], b[j])
}

/// An entry of one of two scans that hold the same entries is in the other
/// too.
proof fn lemma_other_back(a: Seq<Node>, b: Seq<Node>, j: int) -> (i: int)
    requires
        same_entries(a, b),
        0 <= j < b.len(),
    ensures
        0 <= i < a.len(),
        same_entry(a[i], b[j]),
{
    assert(entry_at(b, j) == b[j]);
    choose|i: int|
        #![trigger name_at(a, i)]
        0 <= i < a.len() && name_at(a, i) == b[j].name() && same_entry(a[i], b[j])
}

/// In a well-named directory two places hold two names.
proof fn lemma_one_name_one_place(entries: Seq<Node>, i: int, j: int)
    requires
        well_named(entries),
        0 <= i < entries.len(),
        0 <= j < entries.len(),
        entries[i].name() == entries[j].name(),
    ensures
        i == j,
{
    if i < j {
        assert(name_at(entries, i) != name_at(entries, j));
    } else if j < i {
        assert(name_at(entries, j) != name_at(entries, i));
    }
}

/// The names of the entries at the positions `order`.
pub open spec fn names_at(entries: Seq<Node>, order: Seq<int>) -> Seq<Seq<char>> {
    Seq::new(order.len(), |k: int| entries[order[k]].name())
}

/// Whether each of `names` comes before all that follow it.
pub open spec fn rising(names: Seq<Seq<char>>) -> bool {
    forall|x: int, y: int|
        0 <= x < y < names.len() ==> precedes(#[trigger] names[x], #[trigger] names[y])
}

/// Rising names are fixed by which names they are.
pub proof fn lemma_rising_same(n: Seq<Seq<char>>, m: Seq<Seq<char>>)
    requires
        rising(n),
        rising(m),
        forall|s: Seq<char>| n.contains(s) <==> m.contains(s),
    ensures
        n == m,
    decreases n.len(),
{
    if n.len() == 0 {
        if m.len() > 0 {
            assert(m.contains(m[0]));
            assert(n.contains(m[0]));
        }
        assert(n =~= m);
    } else {
        let top = n.last();
        assert(n[n.len() - 1] == top);
        assert(n.contains(top));
        assert(m.contains(top));
        let other = m.last();
        assert(m[m.len() - 1] == other);
        assert(m.contains(other));
        assert(n.contains(other));
        let i = choose|i: int| 0 <= i < m.len() && m[i] == top;
        let j = choose|j: int| 0 <= j < n.len() && n[j] == other;
        if i < m.len() - 1 && j < n.len() - 1 {
            assert(precedes(m[i], m[m.len() - 1]));
            assert(precedes(n[j], n[n.len() - 1]));
            lemma_precedes_one_way(top, other);
        }
        assert(top == other);
        let n2 = n.drop_last();
        let m2 = m.drop_last();
        assert forall|s: Seq<char>| n2.contains(s) <==> m2.contains(s) by {
            if n2.contains(s) {
                let k = choose|k: int| 0 <= k < n2.len() && n2[k] == s;
                assert(n[k] == s);
                assert(precedes(n[k], n[n.len() - 1]));
                if s == top {
                    lemma_precedes_one_way(s, top);
                }
                assert(n.contains(s));
                let l = choose|l: int| 0 <= l < m.len() && m[l] == s;
                assert(m2[l] == s);
            }
            if m2.contains(s) {
                let k = choose|k: int| 0 <= k < m2.len() && m2[k] == s;
                assert(m[k] == s);
                assert(precedes(m[k], m[m.len() - 1]));
                if s == top {
                    lemma_precedes_one_way(s, top);
                }
                assert(m.contains(s));
                let l = choose|l: int| 0 <= l < n.len() && n[l] == s;
                assert(n2[l] == s);
            }
        }
        assert forall|x: int, y: int| 0 <= x < y < n2.len() implies precedes(
            #[trigger] n2[x],
            #[trigger] n2[y],
        ) by {
            assert(n2[x] == n[x] && n2[y] == n[y]);
        }
        assert forall|x: int, y: int| 0 <= x < y < m2.len() implies precedes(
            #[trigger] m2[x],
            #[trigger] m2[y],
        ) by {
            assert(m2[x] == m[x] && m2[y] == m[y]);
        }
        lemma_rising_same(n2, m2);
        assert(n =~= n2.push(top));
        assert(m =~= m2.push(other));
    }
}

/// In a well-named directory the names of what a walk takes rise, and
/// they are the names of the entries that are taken.
proof fn lemma_names_rise(entries: Seq<Node>, pick: Pick)
    requires
        well_named(entries),
    ensures
        rising(names_at(entries, name_order(entries, entries.len() as int, pick))),
        forall|s: Seq<char>|
            names_at(entries, name_order(entries, entries.len() as int, pick)).contains(s) <==> exists|
                i: int,
            |
                0 <= i < entries.len() && picked(#[trigger] entries[i], pick) && entries[i].name()
                    == s,
{
    let order = name_order(entries, entries.len() as int, pick);
    let names = names_at(entries, order);
    lemma_name_order(entries, entries.len() as int, pick);
    assert forall|k: int| 0 <= k < order.len() implies 0 <= #[trigger] order[k] < entries.len()
        && picked(entries[order[k]], pick) by {
        assert(order.contains(order[k]));
    }
    assert forall|x: int, y: int| 0 <= x < y < names.len() implies precedes(
        #[trigger] names[x],
        #[trigger] names[y],
    ) by {
        assert(goes_before(entries, order[x], order[y]));
        assert(order[x] != order[y]);
        if entries[order[x]].name() == entries[order[y]].name() {
            lemma_one_name_one_place(entries, order[x], order[y]);
        }
        lemma_precedes_or_same(entries[order[x]].name(), entries[order[y]].name());
    }
    assert forall|s: Seq<char>| names.contains(s) <==> exists|i: int|
        0 <= i < entries.len() && picked(#[trigger] entries[i], pick) && entries[i].name()
            == s by {
        if names.contains(s) {
            let k = choose|k: int| 0 <= k < names.len() && names[k] == s;
            let i = order[k];
            assert(0 <= i < entries.len() && picked(entries[i], pick) && entries[i].name() == s);
        }
        if exists|i: int|
            0 <= i < entries.len() && picked(#[trigger] entries[i], pick) && entries[i].name() == s {
            let i = choose|i: int|
                0 <= i < entries.len() && picked(#[trigger] entries[i], pick) && entries[i].name()
                    == s;
            assert(order.contains(i));
            let k = choose|k: int| 0 <= k < order.len() && order[k] == i;
            assert(names[k] == s);
        }
    }
}

/// What a walk takes goes by name and kind alone.
proof fn lemma_same_picked(x: Node, y: Node, pick: Pick)
    requires
        same_entry(x, y),
    ensures
        x.name() == y.name(),
        picked(x, pick) == picked(y, pick),
{
}

/// Two scans that hold the same entries give what a walk takes in the
/// same order of names.
proof fn lemma_same_names(a: Seq<Node>, b: Seq<Node>, pick: Pick)
    requires
        well_named(a),
        well_named(b),
        same_entries(a, b),
    ensures
        names_at(a, name_order(a, a.len() as int, pick)) == names_at(
            b,
            name_order(b, b.len() as int, pick),
        ),
{
    let n = names_at(a, name_order(a, a.len() as int, pick));
    let m = names_at(b, name_order(b, b.len() as int, pick));
    lemma_names_rise(a, pick);
    lemma_names_rise(b, pick);
    assert forall|s: Seq<char>| n.contains(s) <==> m.contains(s) by {
        if n.contains(s) {
            let i = choose|i: int|
                0 <= i < a.len() && picked(#[trigger] a[i], pick) && a[i].name() == s;
            let j = lemma_other(a, b, i);
            lemma_same_picked(a[i], b[j], pick);
            assert(0 <= j < b.len() && picked(b[j], pick) && b[j].name() == s);
        }
        if m.contains(s) {
            let j = choose|j: int|
                0 <= j < b.len() && picked(#[trigger] b[j], pick) && b[j].name() == s;
            let i = lemma_other_back(a, b, j);
            lemma_same_picked(a[i], b[j], pick);
            assert(0 <= i < a.len() && picked(a[i], pick) && a[i].name() == s);
        }
    }
    lemma_rising_same(n, m);
}

/// The paths of the files of a directory go by their names.
proof fn lemma_same_direct(
    dir: Seq<char>,
    a: Seq<Node>,
    first: Seq<int>,
    b: Seq<Node>,
    second: Seq<int>,
)
    requires
        names_at(a, first) == names_at(b, second),
    ensures
        direct(dir, a, first) == direct(dir, b, second),
    decreases first.len(),
{
    assert(first.len() == names_at(a, first).len());
    assert(second.len() == names_at(b, second).len());
    if first.len() > 0 {
        let last = first.len() - 1;
        assert(names_at(a, first)[last] == a[first[last]].name());
        assert(names_at(b, second)[last] == b[second[last]].name());
        assert(names_at(a, first.drop_last()) =~= names_at(a, first).drop_last());
        assert(names_at(b, second.drop_last()) =~= names_at(b, second).drop_last());
        lemma_same_direct(dir, a, first.drop_last(), b, second.drop_last());
    }
}

/// What lies below the directories of a directory goes by what lies below
/// each.
proof fn lemma_same_nested(
    dir: Seq<char>,
    a: Seq<Node>,
    first: Seq<int>,
    b: Seq<Node>,
    second: Seq<int>,
    mode: Mode,
)
    requires
        first.len() == second.len(),
        forall|k: int| 0 <= k < first.len() ==> 0 <= #[trigger] first[k] < a.len(),
        forall|k: int| 0 <= k < second.len() ==> 0 <= #[trigger] second[k] < b.len(),
        forall|k: int|
            0 <= k < first.len() ==> subtree(dir, a, #[trigger] first[k], mode) == subtree(
                dir,
                b,
                second[k],
                mode,
            ),
    ensures
        nested(dir, a, first, mode) == nested(dir, b, second, mode),
    decreases first.len(),
{
    if first.len() > 0 {
        let last = first.len() - 1;
        let front = first.drop_last();
        let other = second.drop_last();
        assert forall|k: int| 0 <= k < front.len() implies 0 <= #[trigger] front[k] < a.len()
            && subtree(dir, a, front[k], mode) == subtree(dir, b, other[k], mode) by {
            assert(front[k] == first[k] && other[k] == second[k]);
        }
        assert forall|k: int| 0 <= k < other.len() implies 0 <= #[trigger] other[k] < b.len() by {
            assert(other[k] == second[k]);
        }
        lemma_same_nested(dir, a, front, b, other, mode);
        assert(subtree(dir, a, first[last], mode) == subtree(dir, b, second[last], mode));
    }
}

/// One entry, scanned twice, has the same below it.
proof fn lemma_same_subtree(dir: Seq<char>, a: Seq<Node>, i: int, b: Seq<Node>, j: int, mode: Mode)
    requires
        0 <= i < a.len(),
        0 <= j < b.len(),
        same_entry(a[i], b[j]),
        well_named_below(a[i]),
        well_named_below(b[j]),
    ensures
        subtree(dir, a, i, mode) == subtree(dir, b, j, mode),
    decreases a, 0nat,
{
    if let Node::Dir { name, contents: Some(inner) } = a[i] {
        lemma_same_listing(entry_path(dir, name), inner, b[j]->contents->0, mode);
    }
}

/// A listing does not show the order of the scan. Two scans that hold the
/// same entries, at every depth in whatever order, give the same listing,
/// where no directory holds two entries of one name.
pub proof fn lemma_same_listing(dir: Seq<char>, a: Seq<Node>, b: Seq<Node>, mode: Mode)
    requires
        well_named(a),
        well_named(b),
        same_entries(a, b),
    ensures
        listing(dir, a, mode) == listing(dir, b, mode),
    decreases a, 1nat,
{
    lemma_same_names(a, b, Pick::Files(mode));
    lemma_same_direct(dir, a, file_order(a, mode), b, file_order(b, mode));

    let first = visit_order(a);
    let second = visit_order(b);
    lemma_same_names(a, b, Pick::Dirs);
    assert(first.len() == names_at(a, first).len());
    assert(second.len() == names_at(b, second).len());
    lemma_name_order(a, a.len() as int, Pick::Dirs);
    lemma_name_order(b, b.len() as int, Pick::Dirs);
    assert forall|k: int| 0 <= k < first.len() implies 0 <= #[trigger] first[k] < a.len() by {
        assert(first.contains(first[k]));
    }
    assert forall|k: int| 0 <= k < second.len() implies 0 <= #[trigger] second[k] < b.len() by {
        assert(second.contains(second[k]));
    }
    assert forall|k: int| 0 <= k < first.len() implies subtree(dir, a, #[trigger] first[k], mode)
        == subtree(dir, b, second[k], mode) by {
        let i = first[k];
        let j = lemma_other(a, b, i);
        assert(names_at(a, first)[k] == a[i].name());
        assert(names_at(b, second)[k] == b[second[k]].name());
        lemma_one_name_one_place(b, j, second[k]);
        assert(entry_at(a, i) == a[i] && entry_at(b, j) == b[j]);
        lemma_same_subtree(dir, a, i, b, j, mode);
    }
    lemma_same_nested(dir, a, first, b, second, mode);
}

} // verus!
