//! The paths of the nodes of a tree, and when they tell the nodes apart.

use vstd::prelude::*;

use crate::tree::{discoveries, found_paths, join, listing_of, node_at, path_at, FsNode};
use crate::walk_laws::{
    first_target_of_parent, lemma_discovered_at_most_once, lemma_discovery_is_node_modules,
    lemma_reachable_target_discovered_once, occurs_once, passable,
};
use crate::walker::has_target;

verus! {

/// The names in one directory tell its children apart and fit into paths:
/// no name holds the separator, and no two children have the same name.
pub open spec fn names_fit(children: Seq<FsNode>) -> bool {
    &&& forall|i: int, k: int|
        0 <= i < children.len() && 0 <= k < children[i].name@.len() ==> #[trigger] children[i].name@[k]
            != '/'
    &&& forall|i: int, j: int|
        0 <= i < children.len() && 0 <= j < children.len() && i != j ==> #[trigger] children[i].name@
            != #[trigger] children[j].name@
}

/// The names fit in the directory at `position`, if there is one.
pub open spec fn names_fit_at(root: FsNode, position: Seq<int>) -> bool {
    match node_at(root, position) {
        Some(dir) => names_fit(dir.children()),
        None => true,
    }
}

/// The names fit in every directory of the tree.
pub open spec fn well_named(root: FsNode) -> bool {
    forall|position: Seq<int>| #[trigger] names_fit_at(root, position)
}

/// The node at a position that goes through a child is the node, below that
/// child, at the rest of the position.
proof fn lemma_node_through_child(node: FsNode, index: int, rest: Seq<int>)
    requires
        0 <= index < node.children().len(),
    ensures
        node_at(node, seq![index] + rest) == node_at(node.children()[index], rest),
{
    let position = seq![index] + rest;
    assert(position[0] == index);
    assert(position.drop_first() =~= rest);
}

/// The names fit in every directory below a child of a tree in which they
/// fit.
proof fn lemma_child_well_named(node: FsNode, index: int)
    requires
        well_named(node),
        0 <= index < node.children().len(),
    ensures
        well_named(node.children()[index]),
{
    let child = node.children()[index];
    assert forall|position: Seq<int>| #[trigger] names_fit_at(child, position) by {
        lemma_node_through_child(node, index, position);
        assert(names_fit_at(node, seq![index] + position));
    }
}

/// The path of a node below a directory begins with the path of the
/// directory, goes on with a separator, and grows with every step down.
proof fn lemma_path_shape(node: FsNode, base: Seq<char>, position: Seq<int>)
    requires
        node_at(node, position) is Some,
    ensures
        path_at(node, base, position).len() >= base.len() + position.len(),
        path_at(node, base, position).take(base.len() as int) == base,
        position.len() > 0 ==> path_at(node, base, position)[base.len() as int] == '/',
    decreases position.len(),
{
    let path = path_at(node, base, position);
    if position.len() == 0 {
        assert(path.take(base.len() as int) =~= base);
    } else {
        reveal_strlit("/");
        let child = node.children()[position[0]];
        let deeper = join(base, child.name@);
        lemma_path_shape(child, deeper, position.drop_first());
        assert(path.take(deeper.len() as int).take(base.len() as int) =~= path.take(
            base.len() as int,
        ));
        assert(deeper.take(base.len() as int) =~= base);
        assert(path[base.len() as int] == path.take(deeper.len() as int)[base.len() as int]);
        assert(deeper[base.len() as int] == '/');
    }
}

/// Two children with different names that hold no separator give different
/// paths to whatever lies at or below them.
proof fn lemma_branches_differ(
    node: FsNode,
    base: Seq<char>,
    one: Seq<int>,
    other: Seq<int>,
)
    requires
        names_fit(node.children()),
        node_at(node, one) is Some,
        node_at(node, other) is Some,
        one.len() > 0,
        other.len() > 0,
        one[0] != other[0],
        node.children()[one[0]].name@.len() <= node.children()[other[0]].name@.len(),
    ensures
        path_at(node, base, one) != path_at(node, base, other),
{
    reveal_strlit("/");
    let first = node.children()[one[0]];
    let second = node.children()[other[0]];
    let short = first.name@;
    let long = second.name@;
    let here = join(base, short);
    let there = join(base, long);
    let left = path_at(node, base, one);
    let right = path_at(node, base, other);
    let start = base.len() + 1;
    lemma_path_shape(first, here, one.drop_first());
    lemma_path_shape(second, there, other.drop_first());
    if left == right {
        assert forall|k: int| 0 <= k < short.len() implies short[k] == long[k] by {
            assert(left.take(here.len() as int)[start + k] == here[start + k]);
            assert(right.take(there.len() as int)[start + k] == there[start + k]);
            assert(here[start + k] == short[k]);
            assert(there[start + k] == long[k]);
        }
        if short.len() == long.len() {
            assert(short =~= long);
        } else {
            let at = short.len() as int;
            assert(one.drop_first().len() > 0) by {
                if one.drop_first().len() == 0 {
                    assert(left == here);
                }
            }
            assert(left[here.len() as int] == '/');
            assert(right.take(there.len() as int)[start + at] == there[start + at]);
            assert(there[start + at] == long[at]);
        }
    }
}

/// In a tree in which the names fit, different positions have different
/// paths.
pub proof fn lemma_paths_differ(node: FsNode, base: Seq<char>, one: Seq<int>, other: Seq<int>)
    requires
        well_named(node),
        node_at(node, one) is Some,
        node_at(node, other) is Some,
        one != other,
    ensures
        path_at(node, base, one) != path_at(node, base, other),
    decreases one.len() + other.len(),
{
    if one.len() == 0 {
        assert(other.len() > 0) by {
            if other.len() == 0 {
                assert(one =~= other);
            }
        }
        lemma_path_shape(node, base, other);
    } else if other.len() == 0 {
        lemma_path_shape(node, base, one);
    } else if one[0] == other[0] {
        let child = node.children()[one[0]];
        lemma_child_well_named(node, one[0]);
        assert(one.drop_first() != other.drop_first()) by {
            if one.drop_first() == other.drop_first() {
                assert(one =~= seq![one[0]] + one.drop_first());
                assert(other =~= seq![other[0]] + other.drop_first());
            }
        }
        lemma_paths_differ(child, join(base, child.name@), one.drop_first(), other.drop_first());
    } else {
        assert(names_fit_at(node, Seq::<int>::empty()));
        assert(names_fit(node.children()));
        if node.children()[one[0]].name@.len() <= node.children()[other[0]].name@.len() {
            lemma_branches_differ(node, base, one, other);
        } else {
            lemma_branches_differ(node, base, other, one);
        }
    }
}

/// In a tree in which the names fit, a walk returns no path twice.
pub proof fn lemma_found_paths_differ(root: FsNode, base: Seq<char>)
    requires
        well_named(root),
    ensures
        found_paths(root, base).no_duplicates(),
{
    let found = discoveries(root);
    let paths = found_paths(root, base);
    lemma_discovered_at_most_once(root);
    assert forall|i: int, j: int| 0 <= i < paths.len() && 0 <= j < paths.len() && i != j implies paths[i]
        != paths[j] by {
        assert(found.contains(found[i]));
        assert(found.contains(found[j]));
        lemma_discovery_is_node_modules(root, found[i]);
        lemma_discovery_is_node_modules(root, found[j]);
        lemma_paths_differ(root, base, found[i], found[j]);
    }
}

/// In a tree in which the names fit, the path of a directory named
/// `node_modules` is returned exactly once if every directory above it is
/// passable and none of them but its parent holds a `node_modules` directory
/// of its own.
pub proof fn lemma_reachable_target_listed_once(root: FsNode, base: Seq<char>, position: Seq<int>)
    requires
        well_named(root),
        position.len() > 0,
        first_target_of_parent(root, position),
        forall|depth: int|
            0 <= depth < position.len() ==> ((#[trigger] node_at(root, position.take(depth)))
                matches Some(dir) && passable(dir)),
        forall|depth: int|
            0 <= depth < position.len() - 1 ==> ((#[trigger] node_at(root, position.take(depth)))
                matches Some(dir) && !has_target(listing_of(dir.children()))),
    ensures
        occurs_once(found_paths(root, base), path_at(root, base, position)),
{
    let found = discoveries(root);
    let paths = found_paths(root, base);
    lemma_reachable_target_discovered_once(root, position);
    lemma_found_paths_differ(root, base);
    let at = choose|at: int| 0 <= at < found.len() && found[at] == position;
    assert(paths[at] == path_at(root, base, position));
}

} // verus!
