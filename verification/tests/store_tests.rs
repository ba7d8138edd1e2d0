use proxy_tray::model::{ProxyGroup, ProxyItem, ProxyRecords};
use proxy_tray::store::{refresher_tick, Fetched, SnapshotStore, TickReport, POLL_INTERVAL_SECS};

fn grp(name: &str, now: Option<&str>) -> ProxyGroup {
    ProxyGroup {
        name: name.to_string(),
        all: vec![ProxyItem { name: "n1".to_string(), kind: "Http".to_string() }],
        now: now.map(|n| n.to_string()),
    }
}

fn fetched(names: &[&str]) -> Fetched {
    let mut groups = ProxyRecords::new();
    for n in names {
        groups.insert(grp(n, Some("n1")));
    }
    Fetched { global: grp("GLOBAL", Some("n1")), groups }
}

#[test]
fn new_store_was_never_refreshed() {
    let store = SnapshotStore::new();
    assert_eq!(store.updated_at(), 0);
    assert_eq!(store.read().updated_at, 0);
    assert_eq!(store.read().groups.len(), 0);
    assert_eq!(store.read().global, ProxyGroup { name: "global".to_string(), all: vec![], now: None });
}

#[test]
fn successful_refresh_replaces_and_counts_on() {
    let mut store = SnapshotStore::new();
    assert!(store.refresh_with(Some(fetched(&["A", "B"]))));
    assert_eq!(store.updated_at(), 1);
    assert_eq!(store.read().groups, fetched(&["A", "B"]).groups);
    assert_eq!(store.read().global, grp("GLOBAL", Some("n1")));
    assert!(store.refresh_with(Some(fetched(&["C"]))));
    assert_eq!(store.updated_at(), 2);
    assert_eq!(store.read().groups, fetched(&["C"]).groups);
}

#[test]
fn failed_refresh_leaves_the_store() {
    let mut store = SnapshotStore::new();
    assert!(!store.refresh_with(None));
    assert_eq!(store.updated_at(), 0);
    store.refresh_with(Some(fetched(&["A"])));
    assert!(!store.refresh_with(None));
    assert_eq!(store.updated_at(), 1);
    assert_eq!(store.read().groups, fetched(&["A"]).groups);
}

#[test]
fn tick_reports_stale_state_until_first_success() {
    let mut store = SnapshotStore::new();
    assert_eq!(refresher_tick(&mut store, None), TickReport { refreshed: false, stale: true, sleep_secs: 10 });
    assert_eq!(
        refresher_tick(&mut store, Some(fetched(&["A"]))),
        TickReport { refreshed: true, stale: false, sleep_secs: 10 }
    );
    assert_eq!(refresher_tick(&mut store, None), TickReport { refreshed: false, stale: false, sleep_secs: 10 });
    assert_eq!(store.updated_at(), 1);
    assert_eq!(POLL_INTERVAL_SECS, 10);
}
