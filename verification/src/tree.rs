//! A directory tree held in memory, and the walk through it.

use vstd::prelude::*;
use vstd::string::StringExecFns;

use crate::walker::{
    has_marker, has_target, is_node_modules, lemma_found_is_first, lemma_has_first_target,
    lemma_verdict_found, stacked, verdict_of, ChildEntry, PathWalker, Verdict,
};

verus! {

/// A file or a directory of a directory tree held in memory, with what is
/// below it.
pub struct FsNode {
    /// The last segment of the node's path.
    pub name: String,
    /// Whether the node is a directory.
    pub is_dir: bool,
    /// The bytes that a file holds. Not looked at for a directory.
    pub size: u64,
    /// The children of a directory, in the order of its listing. `None` for
    /// a directory that cannot be read, and for a file.
    pub listing: Option<Vec<FsNode>>,
}

impl FsNode {
    /// The children that a listing of the node shows: none for a file and
    /// for a directory that cannot be read.
    pub open spec fn children(self) -> Seq<FsNode> {
        match self.listing {
            Some(nodes) if self.is_dir => nodes@,
            _ => Seq::empty(),
        }
    }

    /// A file named `name` that holds `size` bytes.
    pub fn file(name: String, size: u64) -> (node: FsNode)
        ensures
            node.name == name,
            !node.is_dir,
            node.size == size,
            node.listing is None,
    {
        FsNode { name, is_dir: false, size, listing: None }
    }

    /// A directory named `name` that holds `children`.
    pub fn dir(name: String, children: Vec<FsNode>) -> (node: FsNode)
        ensures
            node.name == name,
            node.is_dir,
            node.listing == Some(children),
    {
        FsNode { name, is_dir: true, size: 0, listing: Some(children) }
    }

    /// A directory named `name` that cannot be read.
    pub fn unreadable(name: String) -> (node: FsNode)
        ensures
            node.name == name,
            node.is_dir,
            node.listing is None,
    {
        FsNode { name, is_dir: true, size: 0, listing: None }
    }
}

/// The children of a directory as a listing shows them, each with its index
/// in the place of a path.
pub open spec fn listing_of(children: Seq<FsNode>) -> Seq<ChildEntry<int>> {
    Seq::new(
        children.len(),
        |i: int| ChildEntry { path: i, name: children[i].name, is_dir: children[i].is_dir },
    )
}

/// Every position of `found` with `index` put before it.
pub open spec fn under(index: int, found: Seq<Seq<int>>) -> Seq<Seq<int>> {
    found.map_values(|position: Seq<int>| seq![index] + position)
}

/// The discoveries of a walk that lists the directory `node`, in the order
/// in which the walk makes them. A discovery is given by its position: the
/// indices of the children to go through from `node` down to it.
///
/// A directory that cannot be read gives nothing. A child directory named
/// `node_modules` is the one discovery, whatever else is there. Failing that,
/// a marker file among the children ends the walk here. Failing both, the
/// walk lists every child directory in turn.
pub open spec fn below(node: FsNode) -> Seq<Seq<int>>
    decreases node, 0nat,
{
    match node.listing {
        Some(nodes) if node.is_dir => match verdict_of(listing_of(nodes@)) {
            Verdict::Found(at) => seq![seq![at as int]],
            Verdict::Pruned => Seq::empty(),
            Verdict::Descend => below_from(nodes@, 0),
        },
        _ => Seq::empty(),
    }
}

/// The discoveries of listing, in turn, the children from index `from` on.
pub open spec fn below_from(children: Seq<FsNode>, from: nat) -> Seq<Seq<int>>
    decreases children, children.len() - from,
{
    if from >= children.len() {
        Seq::empty()
    } else {
        under(from as int, below(children[from as int])) + below_from(children, from + 1)
    }
}

/// The discoveries of a walk that starts at `root`, in the order in which
/// the walk makes them, each given by its position below `root`. A root that
/// is a directory named `node_modules` is the one discovery, at the empty
/// position, and is not listed.
pub open spec fn discoveries(root: FsNode) -> Seq<Seq<int>> {
    if !root.is_dir {
        Seq::empty()
    } else if is_node_modules(root.name@) {
        seq![Seq::empty()]
    } else {
        below(root)
    }
}

/// The path of the child named `name` of the directory at `base`.
pub open spec fn join(base: Seq<char>, name: Seq<char>) -> Seq<char> {
    base + "/"@ + name
}

/// The path of the node at `position` below `node`, which is at `base`.
pub open spec fn path_at(node: FsNode, base: Seq<char>, position: Seq<int>) -> Seq<char>
    decreases position.len(),
{
    if position.len() == 0 {
        base
    } else if 0 <= position[0] < node.children().len() {
        let child = node.children()[position[0]];
        path_at(child, join(base, child.name@), position.drop_first())
    } else {
        base
    }
}

/// The node at `position` below `node`, if there is one.
pub open spec fn node_at(node: FsNode, position: Seq<int>) -> Option<FsNode>
    decreases position.len(),
{
    if position.len() == 0 {
        Some(node)
    } else if 0 <= position[0] < node.children().len() {
        node_at(node.children()[position[0]], position.drop_first())
    } else {
        None
    }
}

/// The paths of the discoveries of a walk that starts at `root`, which is at
/// `base`, in the order in which the walk makes them.
pub open spec fn found_paths(root: FsNode, base: Seq<char>) -> Seq<Seq<char>> {
    discoveries(root).map_values(|position: Seq<int>| path_at(root, base, position))
}

/// The views of a sequence of strings.
pub open spec fn texts(strings: Seq<String>) -> Seq<Seq<char>> {
    strings.map_values(|string: String| string@)
}

/// The paths of the discoveries of a walk that lists the directory `node`,
/// which is at `base`.
spec fn below_paths(node: FsNode, base: Seq<char>) -> Seq<Seq<char>> {
    below(node).map_values(|position: Seq<int>| path_at(node, base, position))
}

/// The paths of the discoveries of listing, in turn, the children from index
/// `from` on of a directory at `base`.
spec fn paths_from(children: Seq<FsNode>, base: Seq<char>, from: nat) -> Seq<Seq<char>>
    decreases children.len() - from,
{
    if from >= children.len() {
        Seq::empty()
    } else {
        below_paths(children[from as int], join(base, children[from as int].name@)) + paths_from(
            children,
            base,
            from + 1,
        )
    }
}

/// The number of nodes at and below `node` that a walk can reach.
spec fn size(node: FsNode) -> nat
    decreases node, 0nat,
{
    match node.listing {
        Some(nodes) if node.is_dir => 1 + size_from(nodes@, 0),
        _ => 1,
    }
}

/// The sizes of the children from index `from` on, added up.
spec fn size_from(children: Seq<FsNode>, from: nat) -> nat
    decreases children, children.len() - from,
{
    if from >= children.len() {
        0
    } else {
        size(children[from as int]) + size_from(children, from + 1)
    }
}

/// A node of a tree with its path.
struct Located<'a> {
    path: String,
    node: &'a FsNode,
}

/// The paths of the discoveries that a walk with the directories `stack`
/// still to list goes on to make. The last directory is listed first.
spec fn pending_paths(stack: Seq<Located>) -> Seq<Seq<char>>
    decreases stack.len(),
{
    if stack.len() == 0 {
        Seq::empty()
    } else {
        below_paths(*stack.last().node, stack.last().path@) + pending_paths(stack.drop_last())
    }
}

/// The sizes of the directories still to list, added up.
spec fn weight(stack: Seq<Located>) -> nat
    decreases stack.len(),
{
    if stack.len() == 0 {
        0
    } else {
        size(*stack.last().node) + weight(stack.drop_last())
    }
}

/// `entries` is the listing of a directory at `base` with the children
/// `nodes`.
spec fn lists(entries: Seq<ChildEntry<Located>>, nodes: Seq<FsNode>, base: Seq<char>) -> bool {
    &&& entries.len() == nodes.len()
    &&& forall|i: int|
        0 <= i < nodes.len() ==> {
            let entry = #[trigger] entries[i];
            &&& entry.name@ == nodes[i].name@
            &&& entry.is_dir == nodes[i].is_dir
            &&& *entry.path.node == nodes[i]
            &&& entry.path.path@ == join(base, nodes[i].name@)
        }
}

/// Two listings with the same names and kinds get the same verdict.
proof fn lemma_same_verdict<P, Q>(a: Seq<ChildEntry<P>>, b: Seq<ChildEntry<Q>>)
    requires
        a.len() == b.len(),
        a.len() <= usize::MAX,
        forall|i: int|
            0 <= i < a.len() ==> (#[trigger] a[i]).name@ == b[i].name@ && a[i].is_dir == b[i].is_dir,
    ensures
        verdict_of(a) == verdict_of(b),
{
    if has_target(a) {
        let at = choose|at: int| 0 <= at < a.len() && (#[trigger] a[at]).is_target();
        let first = lemma_has_first_target(a, at);
        assert forall|j: int| 0 <= j < first implies !(#[trigger] b[j]).is_target() by {
            assert(!a[j].is_target());
        }
        assert(a[first].is_target());
        lemma_verdict_found(a, first);
        lemma_verdict_found(b, first);
    } else {
        assert(!has_target(b)) by {
            if has_target(b) {
                let at = choose|at: int| 0 <= at < b.len() && (#[trigger] b[at]).is_target();
                assert(a[at].is_target());
            }
        }
        if has_marker(a) {
            let at = choose|at: int| 0 <= at < a.len() && (#[trigger] a[at]).is_marker();
            assert(b[at].is_marker());
        } else {
            assert(!has_marker(b)) by {
                if has_marker(b) {
                    let at = choose|at: int| 0 <= at < b.len() && (#[trigger] b[at]).is_marker();
                    assert(a[at].is_marker());
                }
            }
        }
    }
}

/// The path of a position that begins with the index of a child is the
/// path, from that child on, of the rest of the position.
proof fn lemma_path_through_child(node: FsNode, base: Seq<char>, index: int, rest: Seq<int>)
    requires
        0 <= index < node.children().len(),
    ensures
        path_at(node, base, seq![index] + rest) == path_at(
            node.children()[index],
            join(base, node.children()[index].name@),
            rest,
        ),
{
    let position = seq![index] + rest;
    assert(position[0] == index);
    assert(position.drop_first() =~= rest);
}

/// The paths of the discoveries below the children from `from` on are the
/// paths of their positions below the directory.
proof fn lemma_paths_from(node: FsNode, base: Seq<char>, from: nat)
    requires
        node.is_dir,
        node.listing is Some,
    ensures
        below_from(node.children(), from).map_values(
            |position: Seq<int>| path_at(node, base, position),
        ) == paths_from(node.children(), base, from),
    decreases node.children().len() - from,
{
    let children = node.children();
    let to_path = |position: Seq<int>| path_at(node, base, position);
    if from < children.len() {
        let child = children[from as int];
        let head = under(from as int, below(child));
        let tail = below_from(children, from + 1);
        lemma_paths_from(node, base, from + 1);
        assert(head.map_values(to_path) =~= below_paths(child, join(base, child.name@))) by {
            assert forall|k: int| 0 <= k < head.len() implies head.map_values(to_path)[k]
                == below_paths(child, join(base, child.name@))[k] by {
                lemma_path_through_child(node, base, from as int, below(child)[k]);
            }
        }
        assert((head + tail).map_values(to_path) =~= head.map_values(to_path) + tail.map_values(
            to_path,
        ));
    } else {
        assert(below_from(children, from).map_values(to_path) =~= Seq::<Seq<char>>::empty());
    }
}

/// Putting the directories of a listing on the stack adds, before what was
/// pending, the discoveries below the listed children.
proof fn lemma_pending_stacked(
    rest: Seq<Located>,
    entries: Seq<ChildEntry<Located>>,
    nodes: Seq<FsNode>,
    base: Seq<char>,
    from: nat,
)
    requires
        lists(entries, nodes, base),
        from <= nodes.len(),
    ensures
        pending_paths(rest + stacked(entries.subrange(from as int, entries.len() as int)))
            == paths_from(nodes, base, from) + pending_paths(rest),
        weight(rest + stacked(entries.subrange(from as int, entries.len() as int))) <= weight(rest)
            + size_from(nodes, from),
    decreases nodes.len() - from,
{
    let suffix = entries.subrange(from as int, entries.len() as int);
    if from < nodes.len() {
        let next = entries.subrange(from as int + 1, entries.len() as int);
        assert(suffix.drop_first() =~= next);
        assert(suffix[0] == entries[from as int]);
        lemma_pending_stacked(rest, entries, nodes, base, from + 1);
        let entry = entries[from as int];
        let node = nodes[from as int];
        if entry.is_dir {
            let stack = (rest + stacked(next)).push(entry.path);
            assert(rest + stacked(suffix) =~= stack);
            assert(stack.last() == entry.path);
            assert(stack.drop_last() =~= rest + stacked(next));
            assert(pending_paths(stack) =~= below_paths(node, join(base, node.name@))
                + paths_from(nodes, base, from + 1) + pending_paths(rest));
        } else {
            assert(below(node) =~= Seq::<Seq<int>>::empty());
            assert(below_paths(node, join(base, node.name@)) =~= Seq::<Seq<char>>::empty());
            assert(paths_from(nodes, base, from) =~= paths_from(nodes, base, from + 1));
        }
    } else {
        assert(stacked(suffix) =~= Seq::<Located>::empty());
        assert(rest + stacked(suffix) =~= rest);
        assert(paths_from(nodes, base, from) + pending_paths(rest) =~= pending_paths(rest));
    }
}

/// Lists the children of a directory of the tree, each with its path. `None`
/// for a directory that cannot be read, and for a file.
fn list_children<'a>(dir: &Located<'a>) -> (listing: Option<Vec<ChildEntry<Located<'a>>>>)
    ensures
        match dir.node.listing {
            Some(nodes) if dir.node.is_dir => listing matches Some(entries) && lists(
                entries@,
                nodes@,
                dir.path@,
            ),
            _ => listing is None,
        },
{
    if !dir.node.is_dir {
        return None;
    }
    match &dir.node.listing {
        None => None,
        Some(nodes) => {
            let mut entries: Vec<ChildEntry<Located<'a>>> = Vec::new();
            let mut i: usize = 0;
            while i < nodes.len()
                invariant
                    i <= nodes.len(),
                    lists(entries@, nodes@.subrange(0, i as int), dir.path@),
                decreases nodes.len() - i,
            {
                let child = &nodes[i];
                let mut path = dir.path.clone();
                path.append("/");
                path.append(child.name.as_str());
                let entry = ChildEntry {
                    path: Located { path, node: child },
                    name: child.name.clone(),
                    is_dir: child.is_dir,
                };
                entries.push(entry);
                i = i + 1;
            }
            assert(nodes@.subrange(0, nodes@.len() as int) =~= nodes@);
            Some(entries)
        },
    }
}

/// Walks the tree below `root`, which is at the path `base`, and returns the
/// paths of the `node_modules` directories that the walk discovers, in the
/// order of their discovery.
pub fn find_node_modules(root: &FsNode, base: &str) -> (found: Vec<String>)
    ensures
        texts(found@) == found_paths(*root, base@),
{
    let start = ChildEntry {
        path: Located { path: base.to_owned(), node: root },
        name: root.name.clone(),
        is_dir: root.is_dir,
    };
    let (mut walker, first) = PathWalker::start(start);
    let mut found: Vec<String> = Vec::new();
    if let Some(hit) = first {
        found.push(hit.path);
    }
    proof {
        if root.is_dir && is_node_modules(root.name@) {
            assert(texts(found@) =~= seq![base@]);
            assert(found_paths(*root, base@) =~= seq![base@]);
        } else if root.is_dir {
            assert(walker@.last().node == root);
            assert(walker@.drop_last() =~= Seq::<Located>::empty());
            assert(pending_paths(walker@.drop_last()) =~= Seq::<Seq<char>>::empty());
            assert(pending_paths(walker@) =~= below_paths(*root, base@));
        }
        assert(texts(found@) + pending_paths(walker@) =~= found_paths(*root, base@));
    }
    loop
        invariant
            texts(found@) + pending_paths(walker@) == found_paths(*root, base@),
        ensures
            texts(found@) == found_paths(*root, base@),
        decreases weight(walker@),
    {
        let ghost stack = walker@;
        let ghost before = texts(found@);
        match walker.next_directory() {
            None => {
                assert(before + pending_paths(stack) =~= before);
                break ;
            },
            Some(dir) => {
                let ghost rest = walker@;
                let listing = list_children(&dir);
                proof {
                    if listing is Some {
                        let entries = listing->0;
                        let nodes = dir.node.listing->0@;
                        assert(entries@.subrange(0, entries@.len() as int) =~= entries@);
                        assert(entries@.len() == entries.len());
                        lemma_pending_stacked(rest, entries@, nodes, dir.path@, 0);
                        lemma_paths_from(*dir.node, dir.path@, 0);
                        lemma_same_verdict(entries@, listing_of(nodes));
                        if let Verdict::Found(at) = verdict_of(entries@) {
                            lemma_found_is_first(entries@, at);
                            lemma_path_through_child(
                                *dir.node,
                                dir.path@,
                                at as int,
                                Seq::<int>::empty(),
                            );
                            assert(seq![at as int] + Seq::<int>::empty() =~= seq![at as int]);
                        }
                    }
                }
                let hit = walker.visit(listing);
                if let Some(hit) = hit {
                    found.push(hit.path);
                }
                proof {
                    let made = below_paths(*dir.node, dir.path@);
                    assert(texts(found@) + pending_paths(walker@) =~= before + (made
                        + pending_paths(rest)));
                }
            },
        }
    }
    found
}

} // verus!
