//! What holds of the results under every sequence of operations.

use vstd::prelude::*;

use crate::entry::DiscoveredEntry;
use crate::store::{
    appended, lemma_ready_bytes_push, lemma_ready_bytes_update, paths_of, RunState, StoreOp,
};

verus! {

/// A path that was just added is the last entry: it waits for its size and
/// has none. Its handle is the number of entries that were there before, and
/// these and the total are as they were.
pub proof fn lemma_added_entry_waits(state: RunState, path: Seq<char>)
    ensures
        ({
            let after = state.append(path);
            let handle = state.entries.len() as int;
            &&& after.entries.len() == state.entries.len() + 1
            &&& after.entries[handle].path == path
            &&& after.entries[handle].status is Loading
            &&& after.entries[handle].bytes is None
            &&& after.awaits(handle)
            &&& after.entries.take(handle) == state.entries
            &&& after.bytes_accounted == state.bytes_accounted
        }),
{
    assert(state.append(path).entries.take(state.entries.len() as int) =~= state.entries);
}

/// Recording the size of a waiting entry makes it `Ready` with that size and
/// raises the total by exactly that size. A second size for the same handle
/// changes nothing.
pub proof fn lemma_size_counts_once(state: RunState, handle: int, bytes: u64, again: u64)
    requires
        state.awaits(handle),
    ensures
        ({
            let after = state.update_size(handle, bytes);
            &&& after.entries[handle].status is Ready
            &&& after.entries[handle].bytes == Some(bytes)
            &&& after.entries[handle].path == state.entries[handle].path
            &&& after.bytes_accounted == state.bytes_accounted + bytes
            &&& after.update_size(handle, again) == after
        }),
{
}

/// A size for a handle that names no waiting entry changes nothing, and so
/// does an error for it.
pub proof fn lemma_stale_handle_ignored(state: RunState, handle: int, bytes: u64)
    requires
        !state.awaits(handle),
    ensures
        state.update_size(handle, bytes) == state,
        state.mark_error(handle) == state,
{
}

/// An entry that failed adds nothing to the total.
pub proof fn lemma_error_counts_nothing(state: RunState, handle: int)
    requires
        state.consistent(),
        state.awaits(handle),
    ensures
        ({
            let after = state.mark_error(handle);
            &&& after.entries[handle].status is Error
            &&& after.entries[handle].bytes is None
            &&& after.bytes_accounted == state.bytes_accounted
        }),
{
}

/// No operation breaks the consistency of the results: the total stays the
/// sum of the sizes of the `Ready` entries.
pub proof fn lemma_apply_keeps_consistent(state: RunState, op: StoreOp)
    requires
        state.consistent(),
    ensures
        state.apply(op).consistent(),
        state.apply(op).bytes_accounted >= state.bytes_accounted,
{
    let entries = state.entries;
    match op {
        StoreOp::Append(path) => {
            lemma_ready_bytes_push(entries, DiscoveredEntry::loading(path));
        },
        StoreOp::UpdateSize(handle, bytes) => {
            if state.awaits(handle) {
                lemma_ready_bytes_update(entries, handle, entries[handle].with_size(bytes));
            }
        },
        StoreOp::MarkError(handle) => {
            if state.awaits(handle) {
                lemma_ready_bytes_update(entries, handle, entries[handle].failed());
            }
        },
        StoreOp::Finish(now) => {},
    }
}

/// After any sequence of operations on consistent results the total is the
/// sum of the sizes of the `Ready` entries, and it is no smaller than before.
pub proof fn lemma_total_is_sum_of_ready(state: RunState, ops: Seq<StoreOp>)
    requires
        state.consistent(),
    ensures
        state.apply_all(ops).consistent(),
        state.apply_all(ops).bytes_accounted >= state.bytes_accounted,
    decreases ops.len(),
{
    if ops.len() > 0 {
        lemma_total_is_sum_of_ready(state, ops.drop_last());
        lemma_apply_keeps_consistent(state.apply_all(ops.drop_last()), ops.last());
    }
}

/// No operation but adding changes the paths, and adding puts the new path
/// last.
pub proof fn lemma_apply_keeps_order(state: RunState, op: StoreOp)
    ensures
        paths_of(state.apply(op).entries) == match op {
            StoreOp::Append(path) => paths_of(state.entries).push(path),
            _ => paths_of(state.entries),
        },
{
    let before = paths_of(state.entries);
    let after = paths_of(state.apply(op).entries);
    match op {
        StoreOp::Append(path) => {
            assert(after =~= before.push(path));
        },
        _ => {
            assert(after =~= before);
        },
    }
}

/// The entries stand in the order in which their paths were added, whatever
/// sizes and errors were recorded in between and in whatever order: the
/// paths after a sequence of operations are the paths before it, followed by
/// the paths that the sequence adds. So the handle of each added path, which
/// is its index, is one more than that of the path added before it.
pub proof fn lemma_entries_keep_insertion_order(state: RunState, ops: Seq<StoreOp>)
    ensures
        paths_of(state.apply_all(ops).entries) == paths_of(state.entries) + appended(ops),
        state.apply_all(ops).entries.len() == state.entries.len() + appended(ops).len(),
    decreases ops.len(),
{
    if ops.len() == 0 {
        assert(paths_of(state.entries) + appended(ops) =~= paths_of(state.entries));
    } else {
        let earlier = state.apply_all(ops.drop_last());
        lemma_entries_keep_insertion_order(state, ops.drop_last());
        lemma_apply_keeps_order(earlier, ops.last());
        match ops.last() {
            StoreOp::Append(path) => {
                assert((paths_of(state.entries) + appended(ops.drop_last())).push(path)
                    =~= paths_of(state.entries) + appended(ops));
            },
            _ => {},
        }
        assert(paths_of(state.apply_all(ops).entries).len() == state.apply_all(ops).entries.len());
        assert(paths_of(state.entries).len() == state.entries.len());
    }
}

/// Handles grow with the order of adding: whatever happens after a path was
/// added, the path that is added next gets a larger handle.
pub proof fn lemma_later_handle_is_larger(state: RunState, path: Seq<char>, between: Seq<StoreOp>)
    ensures
        state.append(path).apply_all(between).entries.len() > state.entries.len(),
{
    lemma_entries_keep_insertion_order(state.append(path), between);
}

} // verus!
