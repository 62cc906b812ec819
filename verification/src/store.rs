//! The ordered results of a run with their running total.

use vstd::prelude::*;

use crate::entry::{DiscoveredEntry, NodeModulePath};
use crate::format::{duration_text, format_size, size_text};
use crate::status::DirStatus;
use crate::time_helpers::get_duration_human_time;

verus! {

/// The bytes of the `Ready` entries of a sequence, added up.
pub open spec fn ready_bytes(entries: Seq<DiscoveredEntry>) -> nat
    decreases entries.len(),
{
    if entries.len() == 0 {
        0
    } else {
        ready_bytes(entries.drop_last()) + entries.last().contribution()
    }
}

/// The paths of a sequence of entries, in its order.
pub open spec fn paths_of(entries: Seq<DiscoveredEntry>) -> Seq<Seq<char>> {
    entries.map_values(|entry: DiscoveredEntry| entry.path)
}

/// An operation on the results.
pub enum StoreOp {
    /// Add an entry for this path.
    Append(Seq<char>),
    /// Record these bytes for the entry with this handle.
    UpdateSize(int, u64),
    /// Mark the entry with this handle as failed.
    MarkError(int),
    /// End the run at this time.
    Finish(u64),
}

/// The paths that a sequence of operations adds, in their order.
pub open spec fn appended(ops: Seq<StoreOp>) -> Seq<Seq<char>>
    decreases ops.len(),
{
    if ops.len() == 0 {
        Seq::empty()
    } else {
        match ops.last() {
            StoreOp::Append(path) => appended(ops.drop_last()).push(path),
            _ => appended(ops.drop_last()),
        }
    }
}

/// The results of one run, as the contracts see them.
pub struct RunState {
    /// The discovered entries in the order of their discovery. An entry's
    /// handle is its index here.
    pub entries: Seq<DiscoveredEntry>,
    /// The row that the cursor is on.
    pub selected: Option<usize>,
    /// Bytes set free by deleting.
    pub bytes_freed: u64,
    /// Bytes of all measured entries.
    pub bytes_accounted: nat,
    /// When the run began, in milliseconds since the Unix epoch.
    pub started_at: u64,
    /// When the run ended; `None` while it goes on.
    pub finished_at: Option<u64>,
}

impl RunState {
    /// Every entry has a size exactly when it is measured, and the total is
    /// the sum over the `Ready` entries.
    pub open spec fn consistent(self) -> bool {
        &&& forall|i: int| 0 <= i < self.entries.len() ==> (#[trigger] self.entries[i]).wf()
        &&& self.bytes_accounted == ready_bytes(self.entries)
    }

    /// The results are consistent and their total fits in a `u64`.
    pub open spec fn wf(self) -> bool {
        self.consistent() && self.bytes_accounted <= u64::MAX
    }

    /// The state of a run that begins at `now` with nothing found.
    pub open spec fn start(now: u64) -> RunState {
        RunState {
            entries: Seq::empty(),
            selected: None,
            bytes_freed: 0,
            bytes_accounted: 0,
            started_at: now,
            finished_at: None,
        }
    }

    /// A new `Loading` entry for `path` at the end.
    pub open spec fn append(self, path: Seq<char>) -> RunState {
        RunState { entries: self.entries.push(DiscoveredEntry::loading(path)), ..self }
    }

    /// Whether `handle` names an entry that still waits for its size.
    pub open spec fn awaits(self, handle: int) -> bool {
        0 <= handle < self.entries.len() && self.entries[handle].status is Loading
    }

    /// The waiting entry `handle` becomes `Ready` with `bytes`, which are added
    /// to the total. With any other handle nothing changes.
    pub open spec fn update_size(self, handle: int, bytes: u64) -> RunState {
        if self.awaits(handle) {
            RunState {
                entries: self.entries.update(handle, self.entries[handle].with_size(bytes)),
                bytes_accounted: self.bytes_accounted + bytes as nat,
                ..self
            }
        } else {
            self
        }
    }

    /// The waiting entry `handle` becomes `Error`. With any other handle
    /// nothing changes.
    pub open spec fn mark_error(self, handle: int) -> RunState {
        if self.awaits(handle) {
            RunState { entries: self.entries.update(handle, self.entries[handle].failed()), ..self }
        } else {
            self
        }
    }

    /// The run ends at `now`.
    pub open spec fn finish(self, now: u64) -> RunState {
        RunState { finished_at: Some(now), ..self }
    }

    /// The results after one operation.
    pub open spec fn apply(self, op: StoreOp) -> RunState {
        match op {
            StoreOp::Append(path) => self.append(path),
            StoreOp::UpdateSize(handle, bytes) => self.update_size(handle, bytes),
            StoreOp::MarkError(handle) => self.mark_error(handle),
            StoreOp::Finish(now) => self.finish(now),
        }
    }

    /// The results after a sequence of operations.
    pub open spec fn apply_all(self, ops: Seq<StoreOp>) -> RunState
        decreases ops.len(),
    {
        if ops.len() == 0 {
            self
        } else {
            self.apply_all(ops.drop_last()).apply(ops.last())
        }
    }

    /// No entry waits for its size.
    pub open spec fn settled(self) -> bool {
        forall|i: int| 0 <= i < self.entries.len() ==> !((#[trigger] self.entries[i]).status is Loading)
    }

    /// The cursor can move: it is not on a row of an empty table.
    pub open spec fn can_move(self) -> bool {
        self.selected is Some ==> self.entries.len() > 0
    }

    /// The cursor one row down, from the last row to the first, and to the
    /// first row when it was nowhere.
    pub open spec fn next(self) -> RunState {
        let row: usize = match self.selected {
            Some(i) => if i >= self.entries.len() - 1 {
                0usize
            } else {
                (i + 1) as usize
            },
            None => 0usize,
        };
        RunState { selected: Some(row), ..self }
    }

    /// The cursor one row up, from the first row to the last, and to the
    /// first row when it was nowhere.
    pub open spec fn previous(self) -> RunState {
        let row: usize = match self.selected {
            Some(i) => if i == 0 {
                (self.entries.len() - 1) as usize
            } else {
                (i - 1) as usize
            },
            None => 0usize,
        };
        RunState { selected: Some(row), ..self }
    }

    /// The text of the run's length: two underscores while it goes on.
    pub open spec fn duration_label(self) -> Seq<char> {
        match self.finished_at {
            None => "__"@,
            Some(end) => duration_text((end - self.started_at) as u64),
        }
    }

    /// The run has not ended before it began, so its length can be shown.
    pub open spec fn has_duration(self) -> bool {
        self.finished_at matches Some(end) ==> self.started_at <= end
    }
}

/// Adding an entry at the end adds its contribution to the sum.
pub proof fn lemma_ready_bytes_push(entries: Seq<DiscoveredEntry>, entry: DiscoveredEntry)
    ensures
        ready_bytes(entries.push(entry)) == ready_bytes(entries) + entry.contribution(),
{
    assert(entries.push(entry).drop_last() =~= entries);
}

/// Replacing one entry changes the sum by the difference of the two
/// contributions.
pub proof fn lemma_ready_bytes_update(
    entries: Seq<DiscoveredEntry>,
    at: int,
    entry: DiscoveredEntry,
)
    requires
        0 <= at < entries.len(),
    ensures
        ready_bytes(entries.update(at, entry)) + entries[at].contribution() == ready_bytes(entries)
            + entry.contribution(),
    decreases entries.len(),
{
    let changed = entries.update(at, entry);
    if at == entries.len() - 1 {
        assert(changed.drop_last() =~= entries.drop_last());
    } else {
        lemma_ready_bytes_update(entries.drop_last(), at, entry);
        assert(changed.drop_last() =~= entries.drop_last().update(at, entry));
    }
}

/// The ordered results of a run with their running total.
pub struct Data {
    items: Vec<NodeModulePath>,
    selected: Option<usize>,
    data_free: u64,
    data_contain: u64,
    start_timestamp: u64,
    end_timestamp: Option<u64>,
}

impl View for Data {
    type V = RunState;

    closed spec fn view(&self) -> RunState {
        RunState {
            entries: self.items@.map_values(|item: NodeModulePath| item@),
            selected: self.selected,
            bytes_freed: self.data_free,
            bytes_accounted: self.data_contain as nat,
            started_at: self.start_timestamp,
            finished_at: self.end_timestamp,
        }
    }
}

impl Data {
    /// The results of a run that begins at `start_timestamp`, in milliseconds
    /// since the Unix epoch.
    pub fn new(start_timestamp: u64) -> (data: Data)
        ensures
            data@ == RunState::start(start_timestamp),
            data@.wf(),
    {
        let data = Data {
            items: Vec::new(),
            selected: None,
            data_free: 0,
            data_contain: 0,
            start_timestamp,
            end_timestamp: None,
        };
        assert(data@.entries =~= Seq::empty());
        data
    }

    /// Adds a `Loading` entry for `path` at the end and returns its handle,
    /// which is its index.
    pub fn add_path(&mut self, path: String) -> (handle: usize)
        requires
            old(self)@.wf(),
        ensures
            final(self)@ == old(self)@.append(path@),
            handle == old(self)@.entries.len(),
            final(self)@.wf(),
    {
        let last_index = self.items.len();
        self.items.push(NodeModulePath::new(path));
        proof {
            let new_entry = DiscoveredEntry::loading(path@);
            assert(self@.entries =~= old(self)@.entries.push(new_entry));
            lemma_ready_bytes_push(old(self)@.entries, new_entry);
        }
        last_index
    }

    /// Records the size of the waiting entry `index` and adds it to the
    /// total. Does nothing when `index` names no entry or the entry does not
    /// wait for a size.
    pub fn update_size(&mut self, index: usize, byte: u64)
        requires
            old(self)@.wf(),
            old(self)@.awaits(index as int) ==> old(self)@.bytes_accounted + byte <= u64::MAX,
        ensures
            final(self)@ == old(self)@.update_size(index as int, byte),
            final(self)@.wf(),
    {
        if index < self.items.len() {
            if let DirStatus::Loading = self.items[index].status() {
                self.items[index].update_size(byte);
                self.data_contain = self.data_contain + byte;
                proof {
                    let before = old(self)@.entries;
                    let entry = before[index as int].with_size(byte);
                    assert(self@.entries =~= before.update(index as int, entry));
                    lemma_ready_bytes_update(before, index as int, entry);
                }
            }
        }
    }

    /// Marks the waiting entry `index` as failed. Does nothing when `index`
    /// names no entry or the entry does not wait for a size.
    pub fn mark_error(&mut self, index: usize)
        requires
            old(self)@.wf(),
        ensures
            final(self)@ == old(self)@.mark_error(index as int),
            final(self)@.wf(),
    {
        if index < self.items.len() {
            if let DirStatus::Loading = self.items[index].status() {
                self.items[index].error();
                proof {
                    let before = old(self)@.entries;
                    let entry = before[index as int].failed();
                    assert(self@.entries =~= before.update(index as int, entry));
                    lemma_ready_bytes_update(before, index as int, entry);
                }
            }
        }
    }

    /// Records `now` as the end of the run.
    pub fn finish_search(&mut self, now: u64)
        ensures
            final(self)@ == old(self)@.finish(now),
    {
        self.end_timestamp = Some(now);
    }

    /// The bytes set free so far, as text.
    pub fn get_free_space(&self) -> (text: String)
        ensures
            text@ == size_text(self@.bytes_freed),
    {
        format_size(self.data_free)
    }

    /// The total of the measured bytes, as text.
    pub fn get_available_space(&self) -> (text: String)
        ensures
            text@ == size_text(self@.bytes_accounted as u64),
    {
        format_size(self.data_contain)
    }

    /// The length of the run as text, or two underscores while it goes on.
    pub fn get_search_duration(&self) -> (text: String)
        requires
            self@.has_duration(),
        ensures
            text@ == self@.duration_label(),
    {
        match self.end_timestamp {
            None => "__".to_owned(),
            Some(value) => get_duration_human_time(self.start_timestamp, value),
        }
    }

    /// Moves the cursor one row down.
    pub fn next(&mut self)
        requires
            old(self)@.can_move(),
        ensures
            final(self)@ == old(self)@.next(),
    {
        let i: usize = match self.selected {
            Some(i) => {
                if i >= self.items.len() - 1 {
                    0
                } else {
                    i + 1
                }
            },
            None => 0,
        };
        self.selected = Some(i);
    }

    /// Moves the cursor one row up.
    pub fn previous(&mut self)
        requires
            old(self)@.can_move(),
        ensures
            final(self)@ == old(self)@.previous(),
    {
        let i: usize = match self.selected {
            Some(i) => {
                if i == 0 {
                    self.items.len() - 1
                } else {
                    i - 1
                }
            },
            None => 0,
        };
        self.selected = Some(i);
    }

    /// Whether the cursor can move: `next` and `previous` ask for this.
    pub fn can_move(&self) -> (yes: bool)
        ensures
            yes == self@.can_move(),
    {
        self.selected.is_none() || self.items.len() > 0
    }

    /// Whether the length of the run can be shown: `get_search_duration`
    /// asks for this.
    pub fn has_duration(&self) -> (yes: bool)
        ensures
            yes == self@.has_duration(),
    {
        match self.end_timestamp {
            None => true,
            Some(end) => self.start_timestamp <= end,
        }
    }

    /// Whether no entry waits for its size.
    pub fn settled(&self) -> (yes: bool)
        ensures
            yes == self@.settled(),
    {
        let mut i: usize = 0;
        while i < self.items.len()
            invariant
                i <= self.items.len(),
                forall|k: int| 0 <= k < i ==> !((#[trigger] self@.entries[k]).status is Loading),
            decreases self.items.len() - i,
        {
            if let DirStatus::Loading = self.items[i].status() {
                assert(self@.entries[i as int].status is Loading);
                return false;
            }
            i = i + 1;
        }
        true
    }

    /// A copy of the results as they stand, for drawing.
    pub fn snapshot(&self) -> (copy: Data)
        ensures
            copy@ == self@,
    {
        let mut items: Vec<NodeModulePath> = Vec::new();
        let mut i: usize = 0;
        while i < self.items.len()
            invariant
                i <= self.items.len(),
                items@.len() == i,
                forall|k: int| 0 <= k < i ==> (#[trigger] items@[k])@ == self.items@[k]@,
            decreases self.items.len() - i,
        {
            items.push(self.items[i].clone());
            i = i + 1;
        }
        let copy = Data {
            items,
            selected: self.selected,
            data_free: self.data_free,
            data_contain: self.data_contain,
            start_timestamp: self.start_timestamp,
            end_timestamp: self.end_timestamp,
        };
        assert(copy@.entries =~= self@.entries);
        copy
    }

    /// The number of entries.
    pub fn len(&self) -> (n: usize)
        ensures
            n == self@.entries.len(),
    {
        self.items.len()
    }

    /// The entry with handle `index`.
    pub fn get(&self, index: usize) -> (entry: Option<&NodeModulePath>)
        ensures
            index < self@.entries.len() ==> (entry matches Some(e) && e@
                == self@.entries[index as int]),
            index >= self@.entries.len() ==> entry is None,
    {
        if index < self.items.len() {
            Some(&self.items[index])
        } else {
            None
        }
    }

    /// The row that the cursor is on.
    pub fn selected(&self) -> (row: Option<usize>)
        ensures
            row == self@.selected,
    {
        self.selected
    }

    /// The total of the measured bytes.
    pub fn bytes_accounted(&self) -> (total: u64)
        ensures
            total == self@.bytes_accounted,
    {
        self.data_contain
    }

    /// When the run began.
    pub fn started_at(&self) -> (at: u64)
        ensures
            at == self@.started_at,
    {
        self.start_timestamp
    }

    /// When the run ended, if it has.
    pub fn finished_at(&self) -> (at: Option<u64>)
        ensures
            at == self@.finished_at,
    {
        self.end_timestamp
    }
}

} // verus!
