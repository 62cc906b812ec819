//! The walk, one directory at a time: what a listing means for it, and which
//! directories it has still to list.

use vstd::prelude::*;

verus! {

/// The name of the directories that the walk looks for.
pub const NODE_MODULES: &'static str = "node_modules";

/// The first of the two file names that mark a directory as a package.
pub const PACKAGE_JSON: &'static str = "package.json";

/// The second of the two file names that mark a directory as a package.
pub const PACKAGE_LOCK_JSON: &'static str = "package-lock.json";

/// Whether `name` is the name that the walk looks for.
pub open spec fn is_node_modules(name: Seq<char>) -> bool {
    name == NODE_MODULES@
}

/// Whether `name` is one of the two file names that mark a package.
pub open spec fn is_marker_name(name: Seq<char>) -> bool {
    name == PACKAGE_LOCK_JSON@ || name == PACKAGE_JSON@
}

/// One child of a directory as its listing shows it. `P` is the form in
/// which the caller keeps paths.
pub struct ChildEntry<P> {
    /// Where the child is.
    pub path: P,
    /// The last segment of the child's path.
    pub name: String,
    /// Whether the child is a directory.
    pub is_dir: bool,
}

impl<P> ChildEntry<P> {
    /// A directory named `node_modules`.
    pub open spec fn is_target(self) -> bool {
        self.is_dir && is_node_modules(self.name@)
    }

    /// A file named `package.json` or `package-lock.json`.
    pub open spec fn is_marker(self) -> bool {
        !self.is_dir && is_marker_name(self.name@)
    }
}

/// Some child is a directory named `node_modules`.
pub open spec fn has_target<P>(children: Seq<ChildEntry<P>>) -> bool {
    exists|i: int| 0 <= i < children.len() && (#[trigger] children[i]).is_target()
}

/// Some child is a file that marks a package.
pub open spec fn has_marker<P>(children: Seq<ChildEntry<P>>) -> bool {
    exists|i: int| 0 <= i < children.len() && (#[trigger] children[i]).is_marker()
}

/// Child `at` is a directory named `node_modules`, and no child before it is.
pub open spec fn is_first_target<P>(children: Seq<ChildEntry<P>>, at: int) -> bool {
    &&& 0 <= at < children.len()
    &&& children[at].is_target()
    &&& forall|j: int| 0 <= j < at ==> !(#[trigger] children[j]).is_target()
}

/// What the listing of a directory means for the walk.
#[derive(Clone, Copy, Debug, PartialEq, Eq, Structural)]
pub enum Verdict {
    /// The child with this index is a discovery; the walk goes no deeper here.
    Found(usize),
    /// The directory is a package without `node_modules`; the walk goes no
    /// deeper here.
    Pruned,
    /// The walk goes on in every child that is a directory.
    Descend,
}

/// The verdict on a listing: a `node_modules` directory among the children
/// is found, whatever else is there; failing that, a marker file prunes;
/// failing both, the walk descends.
pub open spec fn verdict_of<P>(children: Seq<ChildEntry<P>>) -> Verdict {
    if has_target(children) {
        Verdict::Found((choose|at: int| is_first_target(children, at)) as usize)
    } else if has_marker(children) {
        Verdict::Pruned
    } else {
        Verdict::Descend
    }
}

/// A listing has at most one first target.
pub proof fn lemma_first_target_unique<P>(children: Seq<ChildEntry<P>>, a: int, b: int)
    requires
        is_first_target(children, a),
        is_first_target(children, b),
    ensures
        a == b,
{
}

/// A listing with a target has a first one, and `verdict_of` names it.
pub proof fn lemma_verdict_found<P>(children: Seq<ChildEntry<P>>, at: int)
    requires
        is_first_target(children, at),
        children.len() <= usize::MAX,
    ensures
        verdict_of(children) == Verdict::Found(at as usize),
{
    let chosen = choose|k: int| is_first_target(children, k);
    lemma_first_target_unique(children, at, chosen);
}

/// A listing with a target at `at` has a first target, at or before `at`.
pub proof fn lemma_has_first_target<P>(children: Seq<ChildEntry<P>>, at: int) -> (first: int)
    requires
        0 <= at < children.len(),
        children[at].is_target(),
    ensures
        is_first_target(children, first),
        first <= at,
    decreases at,
{
    if exists|j: int| 0 <= j < at && (#[trigger] children[j]).is_target() {
        let j = choose|j: int| 0 <= j < at && (#[trigger] children[j]).is_target();
        lemma_has_first_target(children, j)
    } else {
        at
    }
}

/// The child that `verdict_of` names as found is the first target.
pub proof fn lemma_found_is_first<P>(children: Seq<ChildEntry<P>>, at: usize)
    requires
        verdict_of(children) == Verdict::Found(at),
        children.len() <= usize::MAX,
    ensures
        is_first_target(children, at as int),
{
    let some = choose|i: int| 0 <= i < children.len() && (#[trigger] children[i]).is_target();
    let first = lemma_has_first_target(children, some);
    lemma_verdict_found(children, first);
}

/// A marker file does not hide a `node_modules` directory beside it: a
/// listing that holds such a directory is a find, whatever else it holds.
pub proof fn lemma_target_beats_marker<P>(children: Seq<ChildEntry<P>>)
    requires
        has_target(children),
        children.len() <= usize::MAX,
    ensures
        verdict_of(children) matches Verdict::Found(at) && is_first_target(children, at as int),
{
    let at = (choose|at: int| is_first_target(children, at)) as usize;
    lemma_found_is_first(children, at);
}

/// Whether `name` is `node_modules`.
pub fn names_node_modules(name: &String) -> (yes: bool)
    ensures
        yes == is_node_modules(name@),
{
    let target = NODE_MODULES.to_owned();
    *name == target
}

/// Decides what the listing of a directory means for the walk.
pub fn classify_listing<P>(entries: &Vec<ChildEntry<P>>) -> (verdict: Verdict)
    ensures
        verdict == verdict_of(entries@),
        verdict matches Verdict::Found(at) ==> is_first_target(entries@, at as int),
{
    let target = NODE_MODULES.to_owned();
    let lock = PACKAGE_LOCK_JSON.to_owned();
    let package = PACKAGE_JSON.to_owned();
    let mut marker_seen = false;
    let mut i: usize = 0;
    while i < entries.len()
        invariant
            i <= entries.len(),
            target@ == NODE_MODULES@,
            lock@ == PACKAGE_LOCK_JSON@,
            package@ == PACKAGE_JSON@,
            forall|j: int| 0 <= j < i ==> !(#[trigger] entries@[j]).is_target(),
            marker_seen <==> exists|j: int| 0 <= j < i && (#[trigger] entries@[j]).is_marker(),
        decreases entries.len() - i,
    {
        if entries[i].is_dir {
            if entries[i].name == target {
                proof {
                    lemma_verdict_found(entries@, i as int);
                }
                return Verdict::Found(i);
            }
        } else if entries[i].name == lock || entries[i].name == package {
            marker_seen = true;
        }
        i = i + 1;
    }
    if marker_seen {
        Verdict::Pruned
    } else {
        Verdict::Descend
    }
}

/// The paths of the directories among `entries`, the first of them last: in
/// the order in which they are put on the stack of directories to list, so
/// that the first is listed first.
pub open spec fn stacked<P>(entries: Seq<ChildEntry<P>>) -> Seq<P>
    decreases entries.len(),
{
    if entries.len() == 0 {
        Seq::empty()
    } else {
        let below = stacked(entries.drop_first());
        if entries[0].is_dir {
            below.push(entries[0].path)
        } else {
            below
        }
    }
}

/// How a walk begins at `root`: the directories to list, and the discovery
/// made at once. A root that is no directory gives nothing. A root named
/// `node_modules` is the one discovery and is not listed. Any other root is
/// the first directory to list.
pub open spec fn walk_start<P>(root: ChildEntry<P>) -> (Seq<P>, Option<P>) {
    if !root.is_dir {
        (Seq::empty(), None)
    } else if is_node_modules(root.name@) {
        (Seq::empty(), Some(root.path))
    } else {
        (seq![root.path], None)
    }
}

/// How a walk goes on after a directory was listed: the directories to list,
/// and the discovery made. `listing` is `None` when the directory could not
/// be read, which the walk takes as a directory without children.
pub open spec fn walk_step<P>(pending: Seq<P>, listing: Option<Seq<ChildEntry<P>>>) -> (
    Seq<P>,
    Option<P>,
) {
    match listing {
        None => (pending, None),
        Some(children) => match verdict_of(children) {
            Verdict::Found(at) => (pending, Some(children[at as int].path)),
            Verdict::Pruned => (pending, None),
            Verdict::Descend => (pending + stacked(children), None),
        },
    }
}

/// The directories that a walk has still to list. The last one is listed
/// next, so the walk goes depth first and takes children in the order of
/// their listing.
pub struct PathWalker<P> {
    pending: Vec<P>,
}

impl<P> View for PathWalker<P> {
    type V = Seq<P>;

    closed spec fn view(&self) -> Seq<P> {
        self.pending@
    }
}

impl<P> PathWalker<P> {
    /// Begins a walk at `root` and returns it with the discovery that the
    /// root itself is, if it is one.
    pub fn start(root: ChildEntry<P>) -> (begun: (PathWalker<P>, Option<P>))
        ensures
            (begun.0@, begun.1) == walk_start(root),
    {
        let mut pending: Vec<P> = Vec::new();
        if !root.is_dir {
            (PathWalker { pending }, None)
        } else if names_node_modules(&root.name) {
            (PathWalker { pending }, Some(root.path))
        } else {
            pending.push(root.path);
            assert(pending@ =~= seq![root.path]);
            (PathWalker { pending }, None)
        }
    }

    /// Whether no directory is left to list.
    pub fn is_done(&self) -> (done: bool)
        ensures
            done == (self@.len() == 0),
    {
        self.pending.len() == 0
    }

    /// Takes the directory to list next, if one is left.
    pub fn next_directory(&mut self) -> (next: Option<P>)
        ensures
            old(self)@.len() == 0 ==> next is None && final(self)@ == old(self)@,
            old(self)@.len() > 0 ==> next == Some(old(self)@.last()) && final(self)@ == old(
                self,
            )@.drop_last(),
    {
        self.pending.pop()
    }

    /// Takes in the listing of the directory that `next_directory` gave and
    /// returns the discovery made there, if any. `listing` is `None` when the
    /// directory could not be read.
    pub fn visit(&mut self, listing: Option<Vec<ChildEntry<P>>>) -> (found: Option<P>)
        ensures
            (final(self)@, found) == walk_step(
                old(self)@,
                match listing {
                    Some(entries) => Some(entries@),
                    None => None,
                },
            ),
    {
        match listing {
            None => None,
            Some(entries) => {
                let mut entries = entries;
                match classify_listing(&entries) {
                    Verdict::Found(at) => {
                        let entry = entries.swap_remove(at);
                        Some(entry.path)
                    },
                    Verdict::Pruned => None,
                    Verdict::Descend => {
                        let ghost all = entries@;
                        let ghost before = self.pending@;
                        while entries.len() > 0
                            invariant
                                entries@.len() <= all.len(),
                                entries@ == all.subrange(0, entries@.len() as int),
                                self.pending@ == before + stacked(
                                    all.subrange(entries@.len() as int, all.len() as int),
                                ),
                            decreases entries.len(),
                        {
                            let ghost k = entries@.len() as int;
                            let popped = entries.pop();
                            proof {
                                let tail = all.subrange(k - 1, all.len() as int);
                                assert(tail.drop_first() =~= all.subrange(k, all.len() as int));
                                assert(tail[0] == all[k - 1]);
                                assert(entries@ =~= all.subrange(0, k - 1));
                            }
                            if let Some(entry) = popped {
                                if entry.is_dir {
                                    self.pending.push(entry.path);
                                }
                            }
                        }
                        proof {
                            assert(all.subrange(0, all.len() as int) =~= all);
                        }
                        None
                    },
                }
            },
        }
    }
}

} // verus!
