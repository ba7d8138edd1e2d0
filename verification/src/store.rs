use vstd::prelude::*;
use vstd::string::*;
use crate::model::{GroupView, ProxyGroup, ProxyRecords, ProxySnapshot, SnapshotView};

verus! {

/// Seconds between two refreshes.
pub const POLL_INTERVAL_SECS: u64 = 10;

/// What a successful fetch from upstream brought.
#[derive(Clone, Debug, PartialEq, Eq)]
pub struct Fetched {
    pub global: ProxyGroup,
    pub groups: ProxyRecords,
}

/// The pseudo-group before the first refresh: no candidates, no selection.
pub open spec fn initial_global() -> GroupView {
    GroupView { name: "global"@, all: Seq::empty(), now: None }
}

/// The snapshot before the first refresh: generation zero, no groups.
pub open spec fn initial_snapshot() -> SnapshotView {
    SnapshotView { global: initial_global(), groups: Seq::empty(), updated_at: 0 }
}

/// The snapshot after a successful refresh: what was fetched, one generation on.
pub open spec fn refreshed(before: SnapshotView, global: GroupView, groups: Seq<GroupView>) -> SnapshotView {
    SnapshotView { global, groups, updated_at: before.updated_at + 1 }
}

/// Owner of the current snapshot.
#[derive(Clone, Debug)]
pub struct SnapshotStore {
    snapshot: ProxySnapshot,
}

impl View for SnapshotStore {
    type V = SnapshotView;

    closed spec fn view(&self) -> SnapshotView {
        self.snapshot@
    }
}

impl SnapshotStore {
    /// A store that was never refreshed: generation zero, no groups.
    pub fn new() -> (s: SnapshotStore)
        ensures
            s@ == initial_snapshot(),
    {
        let global = ProxyGroup { name: String::from_str("global"), all: Vec::new(), now: None };
        assert(global@.all =~= Seq::empty());
        SnapshotStore { snapshot: ProxySnapshot { global, groups: ProxyRecords::new(), updated_at: 0 } }
    }

    /// The current snapshot.
    pub fn read(&self) -> (r: &ProxySnapshot)
        ensures
            r@ == self@,
    {
        &self.snapshot
    }

    /// The generation of the last successful refresh, zero where there was none.
    pub fn updated_at(&self) -> (t: u64)
        ensures
            t == self@.updated_at,
    {
        self.snapshot.updated_at
    }

    /// Takes in the outcome of a fetch. A successful one replaces the
    /// snapshot, moves the generation on by one and asks for a notification
    /// to be published (the result is `true`); a failed one leaves the store
    /// as it was.
    pub fn refresh_with(&mut self, fetched: Option<Fetched>) -> (publish: bool)
        requires
            fetched is Some ==> old(self)@.updated_at < u64::MAX,
        ensures
            publish == fetched is Some,
            fetched is Some ==> final(self)@.updated_at > old(self)@.updated_at,
            fetched is None ==> final(self)@ == old(self)@,
            fetched is Some ==> final(self)@ == refreshed(
                old(self)@,
                fetched.unwrap().global@,
                fetched.unwrap().groups@,
            ),
    {
        match fetched {
            Some(f) => {
                let generation: u64 = self.snapshot.updated_at + 1;
                self.snapshot = ProxySnapshot { global: f.global, groups: f.groups, updated_at: generation };
                true
            },
            None => false,
        }
    }
}

/// What the refresher reports after a tick and how long it then sleeps.
#[derive(Clone, Copy, Debug, PartialEq, Eq, Structural)]
pub struct TickReport {
    /// The refresh succeeded (else a warning is due).
    pub refreshed: bool,
    /// The store was never refreshed yet (an error is due).
    pub stale: bool,
    /// Seconds to sleep before the next tick.
    pub sleep_secs: u64,
}

/// One tick of the refresher on the outcome of its fetch: the store takes the
/// outcome in, and the report says what to log, whether to publish a
/// notification (exactly where the refresh succeeded) and how long to sleep.
pub fn refresher_tick(store: &mut SnapshotStore, fetched: Option<Fetched>) -> (report: TickReport)
    requires
        fetched is Some ==> old(store)@.updated_at < u64::MAX,
    ensures
        fetched is None ==> final(store)@ == old(store)@,
        fetched is Some ==> final(store)@ == refreshed(
            old(store)@,
            fetched.unwrap().global@,
            fetched.unwrap().groups@,
        ),
        report == (TickReport {
            refreshed: fetched is Some,
            stale: final(store)@.updated_at == 0,
            sleep_secs: POLL_INTERVAL_SECS,
        }),
{
    let refreshed = store.refresh_with(fetched);
    let stale = store.updated_at() == 0;
    TickReport { refreshed, stale, sleep_secs: POLL_INTERVAL_SECS }
}

} // verus!
