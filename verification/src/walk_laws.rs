//! Which directories a walk through a tree discovers.

use vstd::prelude::*;

use crate::tree::{below, below_from, discoveries, listing_of, node_at, under, FsNode};
use crate::walker::{
    has_marker, has_target, is_first_target, is_node_modules, lemma_found_is_first,
    lemma_verdict_found, verdict_of, Verdict,
};

verus! {

/// The directory that lies `depth` steps from `root` on the way to
/// `position` lets the walk take the next step. It is a directory that can be
/// read. If the next step is the last, the child taken is a directory named
/// `node_modules` and the first such child. If it is not, the directory holds
/// no `node_modules` directory and no marker file.
pub open spec fn step_taken(root: FsNode, position: Seq<int>, depth: int) -> bool {
    match node_at(root, position.take(depth)) {
        Some(dir) => {
            let listing = listing_of(dir.children());
            &&& dir.is_dir
            &&& dir.listing is Some
            &&& 0 <= position[depth] < dir.children().len()
            &&& if depth == position.len() - 1 {
                is_first_target(listing, position[depth])
            } else {
                !has_target(listing) && !has_marker(listing)
            }
        },
        None => false,
    }
}

/// A walk that lists `root` comes to `position` and finds a discovery there.
pub open spec fn walk_reaches(root: FsNode, position: Seq<int>) -> bool {
    &&& position.len() > 0
    &&& forall|depth: int| 0 <= depth < position.len() ==> #[trigger] step_taken(root, position, depth)
}

/// `item` stands at exactly one index of `items`.
pub open spec fn occurs_once<A>(items: Seq<A>, item: A) -> bool {
    exists|i: int|
        0 <= i < items.len() && #[trigger] items[i] == item && forall|j: int|
            0 <= j < items.len() && #[trigger] items[j] == item ==> j == i
}

/// `prefix` is the beginning of `position` and shorter than it.
pub open spec fn strictly_above(prefix: Seq<int>, position: Seq<int>) -> bool {
    prefix.len() < position.len() && position.take(prefix.len() as int) == prefix
}

/// What stands in `below_from`: positions that begin with the index of a
/// child from `from` on and go on with a discovery below that child.
proof fn lemma_below_from_holds(children: Seq<FsNode>, from: nat, k: int)
    requires
        0 <= k < below_from(children, from).len(),
    ensures
        ({
            let position = below_from(children, from)[k];
            &&& position.len() > 0
            &&& from <= position[0] < children.len()
            &&& below(children[position[0]]).contains(position.drop_first())
        }),
    decreases children.len() - from,
{
    let found = below(children[from as int]);
    let head = under(from as int, found);
    if k < head.len() {
        let position = head[k];
        assert(position == seq![from as int] + found[k]);
        assert(position.drop_first() =~= found[k]);
    } else {
        lemma_below_from_holds(children, from + 1, k - head.len());
    }
}

/// A discovery below a child from `from` on stands, behind the child's index,
/// in `below_from`.
proof fn lemma_below_from_takes(children: Seq<FsNode>, from: nat, index: int, rest: Seq<int>)
    requires
        from <= index < children.len(),
        below(children[index]).contains(rest),
    ensures
        below_from(children, from).contains(seq![index] + rest),
    decreases children.len() - from,
{
    let found = below(children[from as int]);
    let head = under(from as int, found);
    let tail = below_from(children, from + 1);
    if index == from {
        let k = choose|k: int| 0 <= k < found.len() && found[k] == rest;
        assert((head + tail)[k] == seq![index] + rest);
    } else {
        lemma_below_from_takes(children, from + 1, index, rest);
        let k = choose|k: int| 0 <= k < tail.len() && tail[k] == seq![index] + rest;
        assert((head + tail)[head.len() + k] == seq![index] + rest);
    }
}

/// The step at `depth + 1` on the way from a directory is the step at
/// `depth` on the way from its child.
proof fn lemma_step_shift(node: FsNode, position: Seq<int>, depth: int)
    requires
        position.len() > 0,
        0 <= position[0] < node.children().len(),
        0 <= depth < position.len() - 1,
    ensures
        step_taken(node, position, depth + 1) == step_taken(
            node.children()[position[0]],
            position.drop_first(),
            depth,
        ),
{
    let prefix = position.take(depth + 1);
    assert(prefix[0] == position[0]);
    assert(prefix.drop_first() =~= position.drop_first().take(depth));
    assert(position.drop_first()[depth] == position[depth + 1]);
}

/// The positions that a walk discovers below a directory are those that it
/// reaches.
pub proof fn lemma_below_iff_reached(node: FsNode, position: Seq<int>)
    ensures
        below(node).contains(position) <==> walk_reaches(node, position),
    decreases position.len(),
{
    assert(position.take(0) =~= Seq::<int>::empty());
    let listable = node.is_dir && node.listing is Some;
    if !listable {
        if walk_reaches(node, position) {
            assert(step_taken(node, position, 0));
        }
        return ;
    }
    let nodes = node.listing->0@;
    let listing = listing_of(nodes);
    assert(nodes.len() == node.listing->0.len());
    assert(node.children() == nodes);
    if below(node).contains(position) {
        match verdict_of(listing) {
            Verdict::Found(at) => {
                lemma_found_is_first(listing, at);
                assert(position == seq![at as int]);
                assert forall|depth: int| 0 <= depth < position.len() implies #[trigger] step_taken(
                    node,
                    position,
                    depth,
                ) by {
                    assert(position.take(depth) =~= Seq::<int>::empty());
                }
            },
            Verdict::Pruned => {},
            Verdict::Descend => {
                let k = choose|k: int| 0 <= k < below(node).len() && below(node)[k] == position;
                lemma_below_from_holds(nodes, 0, k);
                let child = nodes[position[0]];
                let rest = position.drop_first();
                lemma_below_iff_reached(child, rest);
                assert forall|depth: int| 0 <= depth < position.len() implies #[trigger] step_taken(
                    node,
                    position,
                    depth,
                ) by {
                    if depth == 0 {
                    } else {
                        assert(step_taken(child, rest, depth - 1));
                        lemma_step_shift(node, position, depth - 1);
                    }
                }
            },
        }
    }
    if walk_reaches(node, position) {
        assert(step_taken(node, position, 0));
        if position.len() == 1 {
            lemma_verdict_found(listing, position[0]);
            assert(position =~= seq![position[0]]);
            assert(below(node)[0] == position);
        } else {
            let child = nodes[position[0]];
            let rest = position.drop_first();
            assert forall|depth: int| 0 <= depth < rest.len() implies #[trigger] step_taken(
                child,
                rest,
                depth,
            ) by {
                assert(step_taken(node, position, depth + 1));
                lemma_step_shift(node, position, depth);
            }
            lemma_below_iff_reached(child, rest);
            lemma_below_from_takes(nodes, 0, position[0], rest);
            assert(seq![position[0]] + rest =~= position);
        }
    }
}

/// A walk discovers no position twice below a directory.
pub proof fn lemma_below_distinct(node: FsNode)
    ensures
        below(node).no_duplicates(),
    decreases node, 0nat,
{
    match node.listing {
        Some(nodes) if node.is_dir => {
            match verdict_of(listing_of(nodes@)) {
                Verdict::Descend => {
                    lemma_below_from_distinct(nodes@, 0);
                },
                _ => {},
            }
        },
        _ => {},
    }
}

/// A walk discovers no position twice below the children from `from` on.
proof fn lemma_below_from_distinct(children: Seq<FsNode>, from: nat)
    ensures
        below_from(children, from).no_duplicates(),
    decreases children, children.len() - from,
{
    if from < children.len() {
        let found = below(children[from as int]);
        let head = under(from as int, found);
        let tail = below_from(children, from + 1);
        lemma_below_distinct(children[from as int]);
        lemma_below_from_distinct(children, from + 1);
        let all = head + tail;
        assert forall|i: int, j: int| 0 <= i < all.len() && 0 <= j < all.len() && i != j implies all[i]
            != all[j] by {
            if i < head.len() && j < head.len() {
                assert(all[i].drop_first() =~= found[i]);
                assert(all[j].drop_first() =~= found[j]);
            } else if i >= head.len() && j >= head.len() {
            } else if i < head.len() {
                lemma_below_from_holds(children, from + 1, j - head.len());
                assert(all[i][0] == from);
            } else {
                lemma_below_from_holds(children, from + 1, i - head.len());
                assert(all[j][0] == from);
            }
        }
    }
}

/// The node one step further on the way to `position` is the child, at the
/// index that `position` gives, of the node before it.
proof fn lemma_node_at_step(root: FsNode, position: Seq<int>, depth: int)
    requires
        0 <= depth < position.len(),
        node_at(root, position.take(depth + 1)) is Some,
    ensures
        node_at(root, position.take(depth)) matches Some(dir) && 0 <= position[depth]
            < dir.children().len() && node_at(root, position.take(depth + 1)) == Some(
            dir.children()[position[depth]],
        ),
    decreases depth,
{
    let longer = position.take(depth + 1);
    let shorter = position.take(depth);
    assert(longer[0] == position[0]);
    if depth == 0 {
        assert(longer.drop_first() =~= Seq::<int>::empty());
        assert(shorter =~= Seq::<int>::empty());
        assert(node_at(root, shorter) == Some(root));
        if 0 <= position[0] < root.children().len() {
            let child = root.children()[position[0]];
            assert(node_at(child, longer.drop_first()) == Some(child));
        }
    } else {
        let rest = position.drop_first();
        assert(shorter[0] == position[0]);
        assert(longer.drop_first() =~= rest.take(depth));
        assert(shorter.drop_first() =~= rest.take(depth - 1));
        assert(rest[depth - 1] == position[depth]);
        lemma_node_at_step(root.children()[position[0]], rest, depth - 1);
    }
}

/// The child with index `index` of the directory at `above` is the node at
/// the position that goes on from `above` with `index`.
proof fn lemma_node_at_child(root: FsNode, above: Seq<int>, index: int)
    requires
        node_at(root, above) matches Some(dir) && 0 <= index < dir.children().len(),
    ensures
        node_at(root, above.push(index)) == Some(node_at(root, above)->0.children()[index]),
    decreases above.len(),
{
    let longer = above.push(index);
    if above.len() == 0 {
        assert(longer.drop_first() =~= Seq::<int>::empty());
        assert(node_at(root.children()[index], longer.drop_first()) == Some(
            root.children()[index],
        ));
    } else {
        assert(longer[0] == above[0]);
        assert(longer.drop_first() =~= above.drop_first().push(index));
        lemma_node_at_child(root.children()[above[0]], above.drop_first(), index);
    }
}

/// What a walk from `root` discovers: the root alone where it is a directory
/// named `node_modules`, the positions that the walk reaches where it is
/// another directory, and nothing where it is a file.
pub proof fn lemma_discovered_iff_reached(root: FsNode, position: Seq<int>)
    ensures
        discoveries(root).contains(position) <==> root.is_dir && if is_node_modules(root.name@) {
            position.len() == 0
        } else {
            walk_reaches(root, position)
        },
{
    if root.is_dir && is_node_modules(root.name@) {
        if position.len() == 0 {
            assert(position =~= Seq::<int>::empty());
            assert(discoveries(root)[0] == position);
        }
    } else if root.is_dir {
        lemma_below_iff_reached(root, position);
    }
}

/// Whatever a walk discovers is a directory named `node_modules`.
pub proof fn lemma_discovery_is_node_modules(root: FsNode, position: Seq<int>)
    requires
        discoveries(root).contains(position),
    ensures
        node_at(root, position) matches Some(target) && target.is_dir && is_node_modules(
            target.name@,
        ),
{
    lemma_discovered_iff_reached(root, position);
    if !is_node_modules(root.name@) {
        let last = position.len() - 1;
        assert(step_taken(root, position, last));
        lemma_node_at_child(root, position.take(last), position[last]);
        assert(position.take(last).push(position[last]) =~= position);
        let parent = node_at(root, position.take(last))->0;
        assert(listing_of(parent.children())[position[last]].is_target());
    }
}

/// A walk discovers no position twice.
pub proof fn lemma_discovered_at_most_once(root: FsNode)
    ensures
        discoveries(root).no_duplicates(),
{
    lemma_below_distinct(root);
}

/// A root that is a directory named `node_modules` is discovered exactly
/// once, and nothing else is.
pub proof fn lemma_root_target_discovered_once(root: FsNode)
    requires
        root.is_dir,
        is_node_modules(root.name@),
    ensures
        occurs_once(discoveries(root), Seq::<int>::empty()),
        discoveries(root).len() == 1,
{
    assert(discoveries(root)[0] == Seq::<int>::empty());
}

/// A directory that a walk passes through on the way to something below it,
/// as far as the directory itself decides: it can be read, it is not named
/// `node_modules`, and no marker file lies in it.
pub open spec fn passable(dir: FsNode) -> bool {
    &&& dir.is_dir
    &&& dir.listing is Some
    &&& !is_node_modules(dir.name@)
    &&& !has_marker(listing_of(dir.children()))
}

/// The node at `position` is a directory named `node_modules`, and no child
/// listed before it in its parent is one.
pub open spec fn first_target_of_parent(root: FsNode, position: Seq<int>) -> bool {
    node_at(root, position.drop_last()) matches Some(parent) && is_first_target(
        listing_of(parent.children()),
        position.last(),
    )
}

/// A directory named `node_modules` is discovered exactly once if every
/// directory above it is passable, none of them but its parent holds a
/// `node_modules` directory of its own, and no child listed before it in its
/// parent is a directory of the same name.
pub proof fn lemma_reachable_target_discovered_once(root: FsNode, position: Seq<int>)
    requires
        position.len() > 0,
        first_target_of_parent(root, position),
        forall|depth: int|
            0 <= depth < position.len() ==> ((#[trigger] node_at(root, position.take(depth)))
                matches Some(dir) && passable(dir)),
        forall|depth: int|
            0 <= depth < position.len() - 1 ==> ((#[trigger] node_at(root, position.take(depth)))
                matches Some(dir) && !has_target(listing_of(dir.children()))),
    ensures
        occurs_once(discoveries(root), position),
{
    assert(position.take(position.len() - 1) =~= position.drop_last());
    assert forall|depth: int| 0 <= depth < position.len() implies #[trigger] step_taken(
        root,
        position,
        depth,
    ) by {
        let dir = node_at(root, position.take(depth))->0;
        assert(passable(dir));
        if depth < position.len() - 1 {
            assert(node_at(root, position.take(depth + 1)) is Some);
            lemma_node_at_step(root, position, depth);
        }
    }
    assert(position.take(0) =~= Seq::<int>::empty());
    assert(node_at(root, position.take(0)) == Some(root));
    assert(passable(root));
    lemma_below_iff_reached(root, position);
    lemma_below_distinct(root);
    let found = discoveries(root);
    let at = choose|at: int| 0 <= at < found.len() && found[at] == position;
    assert(found[at] == position);
}

/// Nothing is discovered below a directory that holds a marker file and no
/// `node_modules` directory of its own, however deep below it a
/// `node_modules` directory lies.
pub proof fn lemma_nothing_found_below_package(
    root: FsNode,
    package: Seq<int>,
    position: Seq<int>,
)
    requires
        node_at(root, package) matches Some(dir) && dir.is_dir && has_marker(
            listing_of(dir.children()),
        ) && !has_target(listing_of(dir.children())),
        strictly_above(package, position),
    ensures
        !discoveries(root).contains(position),
{
    if discoveries(root).contains(position) {
        lemma_discovered_iff_reached(root, position);
        assert(step_taken(root, position, package.len() as int));
    }
}

} // verus!
