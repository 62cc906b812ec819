//! Measuring a directory: what a measurement counts for, and the bytes below
//! a node of a tree held in memory.

use vstd::prelude::*;

use crate::tree::FsNode;

verus! {

/// The bytes that a measurement counts for: nothing when it failed.
pub open spec fn measured_bytes(measured: Option<u64>) -> u64 {
    match measured {
        Some(bytes) => bytes,
        None => 0,
    }
}

/// The bytes that a measurement counts for. `measured` is `None` when the
/// directory could not be measured, and such a directory counts for nothing.
pub fn get_dir_size(measured: Option<u64>) -> (bytes: u64)
    ensures
        bytes == measured_bytes(measured),
{
    match measured {
        Some(size) => size,
        None => 0,
    }
}

/// The sum of two counts, if both are there.
pub open spec fn both(one: Option<nat>, other: Option<nat>) -> Option<nat> {
    match (one, other) {
        (Some(a), Some(b)) => Some(a + b),
        _ => None,
    }
}

/// The bytes of the files at and below `node`, added up. `None` when a
/// directory at or below `node` cannot be read.
pub open spec fn bytes_below(node: FsNode) -> Option<nat>
    decreases node, 0nat,
{
    if !node.is_dir {
        Some(node.size as nat)
    } else {
        match node.listing {
            Some(nodes) => bytes_from(nodes@, 0),
            None => None,
        }
    }
}

/// The bytes below the children from index `from` on, added up.
pub open spec fn bytes_from(children: Seq<FsNode>, from: nat) -> Option<nat>
    decreases children, children.len() - from,
{
    if from >= children.len() {
        Some(0)
    } else {
        both(bytes_below(children[from as int]), bytes_from(children, from + 1))
    }
}

/// What measuring `node` gives: the bytes below it, or `None` when a
/// directory there cannot be read or the bytes do not fit in a `u64`.
pub open spec fn measurement(node: FsNode) -> Option<u64> {
    match bytes_below(node) {
        Some(bytes) if bytes <= u64::MAX => Some(bytes as u64),
        _ => None,
    }
}

/// Measures a node of a tree: adds up the bytes of every file at and below
/// it. `None` when a directory at or below it cannot be read, or when the
/// bytes do not fit in a `u64`.
pub fn measure(node: &FsNode) -> (bytes: Option<u64>)
    ensures
        bytes == measurement(*node),
    decreases *node,
{
    if !node.is_dir {
        return Some(node.size);
    }
    match &node.listing {
        None => None,
        Some(nodes) => {
            let mut total: u64 = 0;
            let mut i: usize = 0;
            while i < nodes.len()
                invariant
                    i <= nodes.len(),
                    node.is_dir,
                    node.listing == Some(*nodes),
                    bytes_from(nodes@, 0) == both(Some(total as nat), bytes_from(nodes@, i as nat)),
                decreases nodes.len() - i,
            {
                assert(node.listing->0 == *nodes);
                assert(decreases_to!(*node => node.listing->0));
                assert(decreases_to!(*nodes => nodes[i as int]));
                let part: u64 = match measure(&nodes[i]) {
                    Some(part) => part,
                    None => {
                        return None;
                    },
                };
                total = match total.checked_add(part) {
                    Some(sum) => sum,
                    None => {
                        return None;
                    },
                };
                i = i + 1;
            }
            Some(total)
        },
    }
}

} // verus!
