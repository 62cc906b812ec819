//! What holds of every run of a scan.

use vstd::prelude::*;

use crate::path_laws::{lemma_found_paths_differ, well_named};
use crate::scan::{lemma_init_inv, lemma_step_keeps_inv, ScanEvent, ScanState};
use crate::store::{paths_of, ready_bytes};
use crate::tree::{found_paths, FsNode};

verus! {

/// Every sequence of events keeps the invariant.
pub proof fn lemma_run_keeps_inv(state: ScanState, events: Seq<ScanEvent>)
    requires
        state.inv(),
    ensures
        state.run(events).inv(),
    decreases events.len(),
{
    if events.len() > 0 {
        lemma_run_keeps_inv(state, events.drop_last());
        lemma_step_keeps_inv(state.run(events.drop_last()), events.last());
    }
}

/// The end of a run is recorded by one event only: the joining of the
/// measurements, on a running scan whose walk has ended and in which no
/// entry waits for its size. That event changes no entry and not the total.
pub proof fn lemma_finish_waits_for_all(state: ScanState, event: ScanEvent)
    requires
        state.inv(),
        state.store.finished_at is None,
        state.step(event).store.finished_at is Some,
    ensures
        event is ProbesJoined,
        state.phase is Scanning,
        !state.feed_open,
        state.store.settled(),
        state.step(event).store.entries == state.store.entries,
        state.step(event).store.bytes_accounted == ready_bytes(state.store.entries),
{
    lemma_step_keeps_inv(state, event);
}

/// However a scan has run, if the end of the run is recorded, then the walk
/// has ended, no entry waits for its size, and the total is the sum of the
/// sizes of the `Ready` entries.
pub proof fn lemma_finished_run_is_settled(now: u64, events: Seq<ScanEvent>)
    ensures
        ({
            let end = ScanState::init(now).run(events);
            end.store.finished_at is Some ==> {
                &&& !end.feed_open
                &&& end.store.settled()
                &&& end.store.bytes_accounted == ready_bytes(end.store.entries)
            }
        }),
{
    lemma_init_inv(now);
    lemma_run_keeps_inv(ScanState::init(now), events);
}

/// A finished scan takes no further action: no event changes its phase, its
/// entries, its total or the recorded end, and only an event of the display
/// changes anything at all.
pub proof fn lemma_finished_is_final(state: ScanState, event: ScanEvent)
    requires
        state.inv(),
        state.phase is Finished,
    ensures
        state.step(event) == match event {
            ScanEvent::Input(input) => state.input(input),
            _ => state,
        },
        state.step(event).phase is Finished,
        state.step(event).store.entries == state.store.entries,
        state.step(event).store.bytes_accounted == state.store.bytes_accounted,
        state.step(event).store.finished_at == state.store.finished_at,
{
}

/// A scan whose starting directory was not found never scans: no event
/// changes its phase or gives it an entry.
pub proof fn lemma_failed_is_final(state: ScanState, event: ScanEvent)
    requires
        state.inv(),
        state.phase is Failed,
    ensures
        state.step(event).phase is Failed,
        state.step(event).store.entries.len() == 0,
        state.step(event).store.finished_at is None,
{
}

/// Whether an event comes from the walk: its start, a path, or its end.
pub open spec fn of_walk(event: ScanEvent) -> bool {
    event is Start || event is PathDiscovered || event is FeedExhausted
}

/// The events of the walk among `events`, in their order.
pub open spec fn walk_events(events: Seq<ScanEvent>) -> Seq<ScanEvent>
    decreases events.len(),
{
    if events.len() == 0 {
        Seq::empty()
    } else if of_walk(events.last()) {
        walk_events(events.drop_last()).push(events.last())
    } else {
        walk_events(events.drop_last())
    }
}

/// What the walk sees of a scan: whether it can still be started, whether
/// paths are taken in, and the paths taken in so far.
pub struct Feed {
    pub idle: bool,
    pub open: bool,
    pub paths: Seq<Seq<char>>,
}

impl Feed {
    /// What the walk sees of `state`.
    pub open spec fn of(state: ScanState) -> Feed {
        Feed {
            idle: state.phase is NotStarted,
            open: state.accepts_paths(),
            paths: paths_of(state.store.entries),
        }
    }

    /// The feed after an event of the walk.
    pub open spec fn step(self, event: ScanEvent) -> Feed {
        match event {
            ScanEvent::Start(resolved) => if self.idle {
                Feed { idle: false, open: resolved, ..self }
            } else {
                self
            },
            ScanEvent::PathDiscovered(path) => if self.open {
                Feed { paths: self.paths.push(path), ..self }
            } else {
                self
            },
            ScanEvent::FeedExhausted => Feed { open: false, ..self },
            _ => self,
        }
    }

    /// The feed after a sequence of events of the walk.
    pub open spec fn run(self, events: Seq<ScanEvent>) -> Feed
        decreases events.len(),
    {
        if events.len() == 0 {
            self
        } else {
            self.run(events.drop_last()).step(events.last())
        }
    }
}

/// An event of the walk changes the feed as `Feed::step` says, and no other
/// event changes it.
pub proof fn lemma_feed_step(state: ScanState, event: ScanEvent)
    ensures
        Feed::of(state.step(event)) == if of_walk(event) {
            Feed::of(state).step(event)
        } else {
            Feed::of(state)
        },
{
    let before = paths_of(state.store.entries);
    let after = paths_of(state.step(event).store.entries);
    match event {
        ScanEvent::PathDiscovered(path) => {
            if state.accepts_paths() {
                assert(after =~= before.push(path));
            }
        },
        _ => {
            assert(after =~= before);
        },
    }
}

/// The feed after any run is the feed run over the events of the walk alone.
pub proof fn lemma_feed_run(state: ScanState, events: Seq<ScanEvent>)
    ensures
        Feed::of(state.run(events)) == Feed::of(state).run(walk_events(events)),
    decreases events.len(),
{
    if events.len() > 0 {
        let earlier = events.drop_last();
        lemma_feed_run(state, earlier);
        lemma_feed_step(state.run(earlier), events.last());
        if of_walk(events.last()) {
            assert(walk_events(events).drop_last() =~= walk_events(earlier));
        }
    }
}

/// Two runs of a scan in which the walk reports the same end with the same
/// paths in the same order, however the measurements ended and whatever the
/// display did in between.
pub proof fn lemma_paths_follow_walk(state: ScanState, one: Seq<ScanEvent>, other: Seq<ScanEvent>)
    requires
        walk_events(one) == walk_events(other),
    ensures
        paths_of(state.run(one).store.entries) == paths_of(state.run(other).store.entries),
{
    lemma_feed_run(state, one);
    lemma_feed_run(state, other);
}

/// What a walk that finds `paths` reports to the scan: its start, each path
/// in turn, and its end.
pub open spec fn walk_report(paths: Seq<Seq<char>>) -> Seq<ScanEvent> {
    (seq![ScanEvent::Start(true)] + paths.map_values(
        |path: Seq<char>| ScanEvent::PathDiscovered(path),
    )).push(ScanEvent::FeedExhausted)
}

/// A feed that can be started takes in every path that the walk reports
/// after its start.
proof fn lemma_feed_takes_report(paths: Seq<Seq<char>>)
    ensures
        (Feed { idle: true, open: false, paths: Seq::empty() }).run(
            seq![ScanEvent::Start(true)] + paths.map_values(
                |path: Seq<char>| ScanEvent::PathDiscovered(path),
            ),
        ) == (Feed { idle: false, open: true, paths }),
    decreases paths.len(),
{
    let fresh = Feed { idle: true, open: false, paths: Seq::empty() };
    let to_event = |path: Seq<char>| ScanEvent::PathDiscovered(path);
    let events = seq![ScanEvent::Start(true)] + paths.map_values(to_event);
    if paths.len() == 0 {
        assert(events.drop_last() =~= Seq::<ScanEvent>::empty());
        assert(fresh.run(events.drop_last()) == fresh);
        assert(paths =~= Seq::<Seq<char>>::empty());
    } else {
        lemma_feed_takes_report(paths.drop_last());
        assert(events.drop_last() =~= seq![ScanEvent::Start(true)] + paths.drop_last().map_values(
            to_event,
        ));
        assert(events.last() == ScanEvent::PathDiscovered(paths.last()));
        assert(paths.drop_last().push(paths.last()) =~= paths);
    }
}

/// A scan of a tree lists the discoveries of the walk in the order of their
/// discovery, and the same ones every time: whenever the walk reports what
/// it finds below `root`, the paths of the entries are those discoveries,
/// however the measurements ended and whatever the display did in between.
pub proof fn lemma_scan_lists_discoveries(
    now: u64,
    root: FsNode,
    base: Seq<char>,
    events: Seq<ScanEvent>,
)
    requires
        walk_events(events) == walk_report(found_paths(root, base)),
    ensures
        paths_of(ScanState::init(now).run(events).store.entries) == found_paths(root, base),
{
    let paths = found_paths(root, base);
    let report = walk_report(paths);
    lemma_feed_run(ScanState::init(now), events);
    lemma_feed_takes_report(paths);
    assert(report.drop_last() =~= seq![ScanEvent::Start(true)] + paths.map_values(
        |path: Seq<char>| ScanEvent::PathDiscovered(path),
    ));
    assert(paths_of(ScanState::init(now).store.entries) =~= Seq::<Seq<char>>::empty());
}

/// Two scans of the same tree list the same paths in the same order.
pub proof fn lemma_rescan_lists_same_paths(
    first_now: u64,
    second_now: u64,
    root: FsNode,
    base: Seq<char>,
    first: Seq<ScanEvent>,
    second: Seq<ScanEvent>,
)
    requires
        walk_events(first) == walk_report(found_paths(root, base)),
        walk_events(second) == walk_report(found_paths(root, base)),
    ensures
        paths_of(ScanState::init(first_now).run(first).store.entries) == paths_of(
            ScanState::init(second_now).run(second).store.entries,
        ),
{
    lemma_scan_lists_discoveries(first_now, root, base, first);
    lemma_scan_lists_discoveries(second_now, root, base, second);
}

/// In a scan of a tree in which the names fit, no two entries have the same
/// path.
pub proof fn lemma_scan_paths_differ(now: u64, root: FsNode, base: Seq<char>, events: Seq<ScanEvent>)
    requires
        well_named(root),
        walk_events(events) == walk_report(found_paths(root, base)),
    ensures
        paths_of(ScanState::init(now).run(events).store.entries).no_duplicates(),
{
    lemma_scan_lists_discoveries(now, root, base, events);
    lemma_found_paths_differ(root, base);
}

} // verus!
