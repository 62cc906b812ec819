//! The scan as a state machine: it takes in what the walk and the
//! measurements report and decides when the run is finished.

use vstd::prelude::*;

use crate::entry::DiscoveredEntry;
use crate::input::{after_input, apply_input, takes_input, InputEvent};
use crate::probe::{get_dir_size, measured_bytes};
use crate::store::{lemma_ready_bytes_push, lemma_ready_bytes_update, Data, RunState};

verus! {

/// How far a scan has come.
#[derive(Clone, Copy, Debug, PartialEq, Eq, Structural)]
pub enum ScanPhase {
    /// Nothing has happened yet.
    NotStarted,
    /// The walk runs, or directories are still being measured.
    Scanning,
    /// The walk has ended and every discovery has its result.
    Finished,
    /// The starting directory could not be found; nothing was scanned.
    Failed,
}

/// What can happen to a scan.
pub enum ScanEvent {
    /// The starting directory was looked up: found or not.
    Start(bool),
    /// The walk has discovered the directory at this path.
    PathDiscovered(Seq<char>),
    /// The directory with this handle was measured: its bytes, or `None`
    /// when measuring failed.
    ProbeCompleted(int, Option<u64>),
    /// The walk has ended.
    FeedExhausted,
    /// Every measurement that was started has ended, at this time.
    ProbesJoined(u64),
    /// The display passes on an event of its own.
    Input(InputEvent),
}

/// A scan as the contracts see it.
pub struct ScanState {
    pub phase: ScanPhase,
    /// Whether the walk can still discover paths.
    pub feed_open: bool,
    pub store: RunState,
}

impl ScanState {
    /// A scan that has not started, made at `now`.
    pub open spec fn init(now: u64) -> ScanState {
        ScanState { phase: ScanPhase::NotStarted, feed_open: false, store: RunState::start(now) }
    }

    /// Whether a discovered path is taken in.
    pub open spec fn accepts_paths(self) -> bool {
        self.phase is Scanning && self.feed_open
    }

    /// Whether the scan can end: the walk has ended and no entry waits for
    /// its size.
    pub open spec fn can_finish(self) -> bool {
        self.phase is Scanning && !self.feed_open && self.store.settled()
    }

    /// A scan that has not started begins if the starting directory was
    /// found, and fails if not.
    pub open spec fn start(self, resolved: bool) -> ScanState {
        if self.phase is NotStarted {
            if resolved {
                ScanState { phase: ScanPhase::Scanning, feed_open: true, ..self }
            } else {
                ScanState { phase: ScanPhase::Failed, ..self }
            }
        } else {
            self
        }
    }

    /// While the walk runs, a discovered path gets an entry that waits for
    /// its size.
    pub open spec fn path_discovered(self, path: Seq<char>) -> ScanState {
        if self.accepts_paths() {
            ScanState { store: self.store.append(path), ..self }
        } else {
            self
        }
    }

    /// The entry that waits under `handle` gets the measured bytes, nothing
    /// for a measurement that failed. If the total cannot take them, the
    /// entry is marked as an error instead.
    pub open spec fn probe_completed(self, handle: int, measured: Option<u64>) -> ScanState {
        if self.store.bytes_accounted + measured_bytes(measured) <= u64::MAX {
            ScanState { store: self.store.update_size(handle, measured_bytes(measured)), ..self }
        } else {
            ScanState { store: self.store.mark_error(handle), ..self }
        }
    }

    /// The walk of a running scan ends.
    pub open spec fn feed_exhausted(self) -> ScanState {
        if self.phase is Scanning {
            ScanState { feed_open: false, ..self }
        } else {
            self
        }
    }

    /// A scan that can end does so at `now`.
    pub open spec fn probes_joined(self, now: u64) -> ScanState {
        if self.can_finish() {
            ScanState { phase: ScanPhase::Finished, store: self.store.finish(now), ..self }
        } else {
            self
        }
    }

    /// An event of the display changes the results as `after_input` says.
    pub open spec fn input(self, event: InputEvent) -> ScanState {
        ScanState { store: after_input(self.store, event), ..self }
    }

    /// The scan after one event.
    pub open spec fn step(self, event: ScanEvent) -> ScanState {
        match event {
            ScanEvent::Start(resolved) => self.start(resolved),
            ScanEvent::PathDiscovered(path) => self.path_discovered(path),
            ScanEvent::ProbeCompleted(handle, measured) => self.probe_completed(handle, measured),
            ScanEvent::FeedExhausted => self.feed_exhausted(),
            ScanEvent::ProbesJoined(now) => self.probes_joined(now),
            ScanEvent::Input(event) => self.input(event),
        }
    }

    /// The scan after a sequence of events.
    pub open spec fn run(self, events: Seq<ScanEvent>) -> ScanState
        decreases events.len(),
    {
        if events.len() == 0 {
            self
        } else {
            self.run(events.drop_last()).step(events.last())
        }
    }

    /// What holds of a scan at all times. The results are well formed. The
    /// end of the run is recorded exactly when the scan is finished, and a
    /// finished scan has a walk that ended and no entry that waits. Only a
    /// running scan has a walk, and a scan that never ran has no entries.
    pub open spec fn inv(self) -> bool {
        &&& self.store.wf()
        &&& (self.store.finished_at is Some <==> self.phase is Finished)
        &&& (self.phase is Finished ==> !self.feed_open && self.store.settled())
        &&& (self.feed_open ==> self.phase is Scanning)
        &&& (self.phase is NotStarted || self.phase is Failed ==> self.store.entries.len() == 0)
    }
}

/// The invariant holds of a scan that has not started.
pub proof fn lemma_init_inv(now: u64)
    ensures
        ScanState::init(now).inv(),
{
}

/// Every event keeps the invariant.
pub proof fn lemma_step_keeps_inv(state: ScanState, event: ScanEvent)
    requires
        state.inv(),
    ensures
        state.step(event).inv(),
{
    let entries = state.store.entries;
    match event {
        ScanEvent::PathDiscovered(path) => {
            if state.accepts_paths() {
                lemma_ready_bytes_push(entries, DiscoveredEntry::loading(path));
            }
        },
        ScanEvent::ProbeCompleted(handle, measured) => {
            if state.store.awaits(handle) {
                if state.store.bytes_accounted + measured_bytes(measured) <= u64::MAX {
                    lemma_ready_bytes_update(
                        entries,
                        handle,
                        entries[handle].with_size(measured_bytes(measured)),
                    );
                } else {
                    lemma_ready_bytes_update(entries, handle, entries[handle].failed());
                }
            }
        },
        _ => {},
    }
}

/// A scan: its phase, and the results that it fills.
///
/// The caller runs the walk and the measurements and reports what happens;
/// the scan keeps the results and decides when the run is finished.
pub struct ScanOrchestrator {
    phase: ScanPhase,
    feed_open: bool,
    store: Data,
}

impl View for ScanOrchestrator {
    type V = ScanState;

    closed spec fn view(&self) -> ScanState {
        ScanState { phase: self.phase, feed_open: self.feed_open, store: self.store@ }
    }
}

impl ScanOrchestrator {
    /// A scan that has not started. `now` is the current time in
    /// milliseconds since the Unix epoch.
    pub fn new(now: u64) -> (scan: ScanOrchestrator)
        ensures
            scan@ == ScanState::init(now),
            scan@.inv(),
    {
        ScanOrchestrator { phase: ScanPhase::NotStarted, feed_open: false, store: Data::new(now) }
    }

    /// Begins the scan. `resolved` says whether the starting directory was
    /// found. Returns whether the walk is to run.
    pub fn start(&mut self, resolved: bool) -> (walk: bool)
        requires
            old(self)@.inv(),
        ensures
            final(self)@ == old(self)@.start(resolved),
            final(self)@.inv(),
            walk == (old(self)@.phase is NotStarted && resolved),
    {
        proof {
            lemma_step_keeps_inv(self@, ScanEvent::Start(resolved));
        }
        match self.phase {
            ScanPhase::NotStarted => {
                if resolved {
                    self.phase = ScanPhase::Scanning;
                    self.feed_open = true;
                    true
                } else {
                    self.phase = ScanPhase::Failed;
                    false
                }
            },
            _ => false,
        }
    }

    /// Takes in a path that the walk has discovered. Returns the handle of
    /// the new entry, for which a measurement is to be started, or `None`
    /// when no walk runs and the path is dropped.
    pub fn path_discovered(&mut self, path: String) -> (handle: Option<usize>)
        requires
            old(self)@.inv(),
        ensures
            final(self)@ == old(self)@.path_discovered(path@),
            final(self)@.inv(),
            handle == if old(self)@.accepts_paths() {
                Some(old(self)@.store.entries.len() as usize)
            } else {
                None
            },
    {
        proof {
            lemma_step_keeps_inv(self@, ScanEvent::PathDiscovered(path@));
        }
        match self.phase {
            ScanPhase::Scanning => {
                if self.feed_open {
                    Some(self.store.add_path(path))
                } else {
                    None
                }
            },
            _ => None,
        }
    }

    /// Takes in the result of measuring the entry `handle`: its bytes, or
    /// `None` when measuring failed.
    pub fn probe_completed(&mut self, handle: usize, measured: Option<u64>)
        requires
            old(self)@.inv(),
        ensures
            final(self)@ == old(self)@.probe_completed(handle as int, measured),
            final(self)@.inv(),
    {
        proof {
            lemma_step_keeps_inv(self@, ScanEvent::ProbeCompleted(handle as int, measured));
        }
        let bytes = get_dir_size(measured);
        if bytes <= u64::MAX - self.store.bytes_accounted() {
            self.store.update_size(handle, bytes);
        } else {
            self.store.mark_error(handle);
        }
    }

    /// Takes note that the walk has ended.
    pub fn feed_exhausted(&mut self)
        requires
            old(self)@.inv(),
        ensures
            final(self)@ == old(self)@.feed_exhausted(),
            final(self)@.inv(),
    {
        if let ScanPhase::Scanning = self.phase {
            self.feed_open = false;
        }
    }

    /// Ends the scan at `now` if the walk has ended and no entry waits for
    /// its size. Returns whether the scan ended with this call.
    pub fn probes_joined(&mut self, now: u64) -> (ended: bool)
        requires
            old(self)@.inv(),
        ensures
            final(self)@ == old(self)@.probes_joined(now),
            final(self)@.inv(),
            ended == old(self)@.can_finish(),
    {
        proof {
            lemma_step_keeps_inv(self@, ScanEvent::ProbesJoined(now));
        }
        if let ScanPhase::Scanning = self.phase {
            if !self.feed_open && self.store.settled() {
                self.store.finish_search(now);
                self.phase = ScanPhase::Finished;
                return true;
            }
        }
        false
    }

    /// Applies an event of the display to the results. Returns whether the
    /// display is to close.
    pub fn handle_input(&mut self, event: InputEvent) -> (quit: bool)
        requires
            old(self)@.inv(),
            takes_input(old(self)@.store, event),
        ensures
            final(self)@ == old(self)@.input(event),
            final(self)@.inv(),
            quit == (event is Quit),
    {
        proof {
            lemma_step_keeps_inv(self@, ScanEvent::Input(event));
        }
        apply_input(&mut self.store, event)
    }

    /// How far the scan has come.
    pub fn phase(&self) -> (phase: ScanPhase)
        ensures
            phase == self@.phase,
    {
        self.phase
    }

    /// The results as they stand.
    pub fn store(&self) -> (store: &Data)
        ensures
            store@ == self@.store,
    {
        &self.store
    }
}

} // verus!
