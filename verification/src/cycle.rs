//! The scan cycle: what one cycle publishes, and the decisions of the loop
//! that runs cycle after cycle on one radio adapter.

use vstd::prelude::*;
use crate::device::{lemma_upserted_all_valid, upserted_all, views_of, DeviceRegistry, Observation, ObservationView};
use crate::enrich::{device_views, enrich, enriched, Device, DeviceView};
use crate::rank::{is_ranking, rank};
use crate::service::ServiceDescriptorIndex;
use crate::vendor::VendorTable;

verus! {

/// The devices that some records become, each enriched.
pub open spec fn enriched_all(
    records: Seq<ObservationView>,
    vendors: Map<int, Seq<char>>,
    files: Seq<Seq<Seq<char>>>,
) -> Seq<DeviceView> {
    Seq::new(records.len(), |i: int| enriched(records[i], vendors, files))
}

/// Whether `snapshot` is what a cycle with the given observations
/// publishes: the records that the observations add up to, enriched and in
/// ranked order.
pub open spec fn is_snapshot_of(
    seen: Seq<ObservationView>,
    vendors: Map<int, Seq<char>>,
    files: Seq<Seq<Seq<char>>>,
    snapshot: Seq<DeviceView>,
) -> bool {
    is_ranking(enriched_all(upserted_all(Seq::empty(), seen), vendors, files), snapshot)
}

/// Takes the observations of a cycle into a new registry, in order.
pub fn collect(observations: Vec<Observation>) -> (registry: DeviceRegistry)
    ensures
        registry.wf(),
        registry@ == upserted_all(Seq::empty(), views_of(observations@)),
{
    let ghost all = views_of(observations@);
    let mut rest: Vec<Observation> = observations;
    let mut registry = DeviceRegistry::new();
    let ghost mut done: int = 0;
    assert(views_of(rest@) =~= all.skip(0));
    while rest.len() > 0
        invariant
            0 <= done <= all.len(),
            views_of(rest@) == all.skip(done),
            registry.wf(),
            registry@ == upserted_all(Seq::empty(), all.take(done)),
        decreases rest@.len(),
    {
        let ghost before = rest@;
        assert(views_of(rest@).len() == rest@.len());
        assert(all.skip(done).len() == all.len() - done);
        assert(views_of(rest@)[0] == rest@[0]@);
        assert(all.skip(done)[0] == all[done]);
        let seen: Observation = rest.remove(0);
        registry.upsert(seen);
        proof {
            done = done + 1;
            assert(all.take(done).drop_last() =~= all.take(done - 1));
            assert(all.take(done).last() == all[done - 1]);
            assert(views_of(rest@) =~= all.skip(done)) by {
                assert forall|i: int| 0 <= i < rest@.len() implies views_of(rest@)[i] == all.skip(
                    done,
                )[i] by {
                    assert(rest@[i] == before[i + 1]);
                    assert(views_of(before)[i + 1] == before[i + 1]@);
                    assert(all.skip(done - 1)[i + 1] == all[done + i]);
                }
            }
        }
    }
    assert(views_of(rest@).len() == 0);
    assert(all.skip(done).len() == all.len() - done);
    assert(all.take(done) =~= all);
    registry
}

/// Enriches each record, in order.
pub fn enrich_all(records: Vec<Observation>, vendors: &VendorTable, index: &ServiceDescriptorIndex) -> (out:
    Vec<Device>)
    ensures
        device_views(out@) == enriched_all(views_of(records@), vendors@, index@),
{
    let ghost all = views_of(records@);
    let mut rest: Vec<Observation> = records;
    let mut out: Vec<Device> = Vec::new();
    assert(views_of(rest@) =~= all.skip(0));
    while rest.len() > 0
        invariant
            out@.len() <= all.len(),
            views_of(rest@) == all.skip(out@.len() as int),
            forall|i: int|
                0 <= i < out@.len() ==> (#[trigger] out@[i])@ == enriched(all[i], vendors@, index@),
        decreases rest@.len(),
    {
        let ghost before = rest@;
        let ghost done = out@.len() as int;
        assert(views_of(rest@).len() == rest@.len());
        assert(all.skip(done).len() == all.len() - done);
        assert(views_of(rest@)[0] == rest@[0]@);
        assert(all.skip(done)[0] == all[done]);
        let raw: Observation = rest.remove(0);
        let d: Device = enrich(raw, vendors, index);
        out.push(d);
        proof {
            assert(views_of(rest@) =~= all.skip(done + 1)) by {
                assert forall|i: int| 0 <= i < rest@.len() implies views_of(rest@)[i] == all.skip(
                    done + 1,
                )[i] by {
                    assert(rest@[i] == before[i + 1]);
                    assert(views_of(before)[i + 1] == before[i + 1]@);
                    assert(all.skip(done)[i + 1] == all[done + 1 + i]);
                }
            }
        }
    }
    assert(views_of(rest@).len() == 0);
    assert(all.skip(out@.len() as int).len() == all.len() - out@.len());
    assert(device_views(out@) =~= enriched_all(all, vendors@, index@));
    out
}

/// What a cycle publishes for the observations it made: one device for each
/// address observed, enriched, the strongest signal first.
pub fn build_snapshot(
    observations: Vec<Observation>,
    vendors: &VendorTable,
    index: &ServiceDescriptorIndex,
) -> (snapshot: Vec<Device>)
    ensures
        is_snapshot_of(views_of(observations@), vendors@, index@, device_views(snapshot@)),
        snapshot@.len() == upserted_all(Seq::empty(), views_of(observations@)).len(),
{
    let registry: DeviceRegistry = collect(observations);
    let records: Vec<Observation> = registry.finalize();
    let devices: Vec<Device> = enrich_all(records, vendors, index);
    assert(devices@.len() == device_views(devices@).len());
    rank(devices)
}

/// Where the loop of an adapter stands.
#[derive(Clone, Copy, PartialEq, Eq, Structural, Debug)]
pub enum Phase {
    /// Between two cycles.
    Idle,
    /// The start of a scan was asked for.
    Scanning,
    /// The scan runs, and advertisements gather for the dwell time.
    Settling,
    /// The visible peripherals were asked for.
    Collecting,
    /// The cycle has its result, and the end of the scan was asked for.
    Publishing,
}

/// Why a cycle gave no snapshot.
#[derive(Clone, Copy, PartialEq, Eq, Structural, Debug)]
pub enum CycleError {
    /// The adapter could not start to scan. The loop of this adapter cannot
    /// go on.
    ScanStart,
    /// The visible peripherals could not be enumerated. Only this cycle is
    /// lost.
    ScanRead,
}

/// What happened outside since the last action.
pub enum Event {
    /// The delay between two cycles is over, or the loop begins.
    Wake,
    /// The scan has started.
    ScanStarted,
    /// The scan could not be started.
    ScanStartFailed,
    /// The dwell time is over.
    DwellElapsed,
    /// The visible peripherals were enumerated; these are their
    /// observations, in the order of enumeration.
    Observed(Vec<Observation>),
    /// The visible peripherals could not be enumerated.
    ReadFailed,
    /// The scan has stopped.
    ScanStopped,
    /// The scan could not be stopped.
    ScanStopFailed,
}

/// What is to be done outside next.
#[derive(Clone, Copy, PartialEq, Eq, Structural, Debug)]
pub enum Action {
    /// Start a scan that accepts every advertisement; answer with
    /// `ScanStarted` or `ScanStartFailed`.
    StartScan,
    /// Wait for the dwell time; answer with `DwellElapsed`.
    Dwell,
    /// Enumerate the visible peripherals; answer with `Observed` or
    /// `ReadFailed`.
    Enumerate,
    /// Publish the snapshot in place of the one before, then stop the scan;
    /// answer with `ScanStopped` or `ScanStopFailed`.
    Publish,
    /// Publish nothing, note the error, then stop the scan; answer with
    /// `ScanStopped` or `ScanStopFailed`.
    Skip(CycleError),
    /// Wait for the delay between two cycles; answer with `Wake`.
    Delay,
    /// Give up the loop of this adapter with the error.
    Fail(CycleError),
    /// The event does not belong to the phase: do nothing.
    Ignore,
}

/// The phase that follows when `event` arrives in `phase`.
pub open spec fn next_phase(phase: Phase, event: Event) -> Phase {
    match (phase, event) {
        (Phase::Idle, Event::Wake) => Phase::Scanning,
        (Phase::Scanning, Event::ScanStarted) => Phase::Settling,
        (Phase::Scanning, Event::ScanStartFailed) => Phase::Idle,
        (Phase::Settling, Event::DwellElapsed) => Phase::Collecting,
        (Phase::Collecting, Event::Observed(_)) => Phase::Publishing,
        (Phase::Collecting, Event::ReadFailed) => Phase::Publishing,
        (Phase::Publishing, Event::ScanStopped) => Phase::Idle,
        (Phase::Publishing, Event::ScanStopFailed) => Phase::Idle,
        _ => phase,
    }
}

/// The action that answers `event` in `phase`.
pub open spec fn action_for(phase: Phase, event: Event) -> Action {
    match (phase, event) {
        (Phase::Idle, Event::Wake) => Action::StartScan,
        (Phase::Scanning, Event::ScanStarted) => Action::Dwell,
        (Phase::Scanning, Event::ScanStartFailed) => Action::Fail(CycleError::ScanStart),
        (Phase::Settling, Event::DwellElapsed) => Action::Enumerate,
        (Phase::Collecting, Event::Observed(_)) => Action::Publish,
        (Phase::Collecting, Event::ReadFailed) => Action::Skip(CycleError::ScanRead),
        (Phase::Publishing, Event::ScanStopped) => Action::Delay,
        (Phase::Publishing, Event::ScanStopFailed) => Action::Delay,
        _ => Action::Ignore,
    }
}

/// Whether `event` in `phase` brings a new snapshot.
pub open spec fn renews_snapshot(phase: Phase, event: Event) -> bool {
    phase == Phase::Collecting && event is Observed
}

/// A cycle in which the peripherals cannot be enumerated publishes nothing
/// and ends like any other: the answer to the failure is to skip, and once
/// the scan was asked to stop, with or without success, the loop waits for
/// the next cycle.
pub proof fn law_failed_read_ends_cycle(phase: Phase)
    ensures
        action_for(phase, Event::ReadFailed) != Action::Publish,
        !renews_snapshot(phase, Event::ReadFailed),
        action_for(Phase::Collecting, Event::ReadFailed) == Action::Skip(CycleError::ScanRead),
        next_phase(next_phase(Phase::Collecting, Event::ReadFailed), Event::ScanStopped)
            == Phase::Idle,
        next_phase(next_phase(Phase::Collecting, Event::ReadFailed), Event::ScanStopFailed)
            == Phase::Idle,
        action_for(next_phase(Phase::Collecting, Event::ReadFailed), Event::ScanStopFailed)
            == Action::Delay,
{
}

/// The loop of one adapter: its phase, and the snapshot that was last
/// published.
pub struct ScanCycleController {
    phase: Phase,
    snapshot: Vec<Device>,
}

impl ScanCycleController {
    /// The phase of the loop.
    pub closed spec fn phase_of(&self) -> Phase {
        self.phase
    }

    /// The snapshot that was last published.
    pub closed spec fn published(&self) -> Seq<Device> {
        self.snapshot@
    }

    /// A loop between cycles that has published nothing yet.
    pub fn new() -> (c: ScanCycleController)
        ensures
            c.phase_of() == Phase::Idle,
            c.published() == Seq::<Device>::empty(),
    {
        ScanCycleController { phase: Phase::Idle, snapshot: Vec::new() }
    }

    /// The phase of the loop.
    pub fn phase(&self) -> (p: Phase)
        ensures
            p == self.phase_of(),
    {
        self.phase
    }

    /// The snapshot that was last published.
    pub fn snapshot(&self) -> (s: &Vec<Device>)
        ensures
            s@ == self.published(),
    {
        &self.snapshot
    }

    /// Takes an event and says what is to be done next. The snapshot
    /// changes only when the peripherals were enumerated in the phase that
    /// asked for them: then it is what the cycle publishes for their
    /// observations. In every other case it stays as it was.
    pub fn step(&mut self, event: Event, vendors: &VendorTable, index: &ServiceDescriptorIndex) -> (action:
        Action)
        ensures
            action == action_for(old(self).phase_of(), event),
            final(self).phase_of() == next_phase(old(self).phase_of(), event),
            !renews_snapshot(old(self).phase_of(), event) ==> final(self).published() == old(
                self,
            ).published(),
            renews_snapshot(old(self).phase_of(), event) ==> is_snapshot_of(
                views_of(event->Observed_0@),
                vendors@,
                index@,
                device_views(final(self).published()),
            ),
    {
        let phase: Phase = self.phase;
        match event {
            Event::Wake => {
                if phase == Phase::Idle {
                    self.phase = Phase::Scanning;
                    Action::StartScan
                } else {
                    Action::Ignore
                }
            },
            Event::ScanStarted => {
                if phase == Phase::Scanning {
                    self.phase = Phase::Settling;
                    Action::Dwell
                } else {
                    Action::Ignore
                }
            },
            Event::ScanStartFailed => {
                if phase == Phase::Scanning {
                    self.phase = Phase::Idle;
                    Action::Fail(CycleError::ScanStart)
                } else {
                    Action::Ignore
                }
            },
            Event::DwellElapsed => {
                if phase == Phase::Settling {
                    self.phase = Phase::Collecting;
                    Action::Enumerate
                } else {
                    Action::Ignore
                }
            },
            Event::Observed(observations) => {
                if phase == Phase::Collecting {
                    self.snapshot = build_snapshot(observations, vendors, index);
                    self.phase = Phase::Publishing;
                    Action::Publish
                } else {
                    Action::Ignore
                }
            },
            Event::ReadFailed => {
                if phase == Phase::Collecting {
                    self.phase = Phase::Publishing;
                    Action::Skip(CycleError::ScanRead)
                } else {
                    Action::Ignore
                }
            },
            Event::ScanStopped => {
                if phase == Phase::Publishing {
                    self.phase = Phase::Idle;
                    Action::Delay
                } else {
                    Action::Ignore
                }
            },
            Event::ScanStopFailed => {
                if phase == Phase::Publishing {
                    self.phase = Phase::Idle;
                    Action::Delay
                } else {
                    Action::Ignore
                }
            },
        }
    }
}

} // verus!
