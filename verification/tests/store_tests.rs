use convcache::CacheError;
use convcache::evict::is_expired;
use convcache::evict::run_eviction_pass;
use convcache::store::CacheModel;

fn key(b: u8) -> Vec<u8> {
    vec![b; 64]
}

#[test]
fn store_payload_creates_then_is_idempotent() {
    let mut store = CacheModel::new();
    let k = key(1);
    let payload = vec![10u8, 20, 30];
    assert!(store.store_payload(k.clone(), payload.clone(), 100));
    assert_eq!(store.read_payload(&k), Ok(payload.clone()));
    // A second write of the same bytes is a no-op: the first writer wins.
    assert!(!store.store_payload(k.clone(), payload.clone(), 200));
    assert_eq!(store.read_payload(&k), Ok(payload));
    let scan = store.scan();
    assert_eq!(scan.len(), 1);
    assert_eq!((scan[0].1, scan[0].2), (100, 100));
}

#[test]
fn lookup_reports_payload_and_derived_presence() {
    let mut store = CacheModel::new();
    let k = key(2);
    assert_eq!(store.lookup(&k), (false, false));
    store.store_payload(k.clone(), vec![1, 2, 3], 5);
    assert_eq!(store.lookup(&k), (true, false));
    assert!(store.store_derived(&k, vec![9, 9]));
    assert_eq!(store.lookup(&k), (true, true));
}

#[test]
fn read_derived_absent_is_not_found() {
    let mut store = CacheModel::new();
    let k = key(3);
    assert_eq!(store.read_derived(&k), Err(CacheError::NotFound));
    store.store_payload(k.clone(), vec![1, 2], 5);
    assert_eq!(store.read_derived(&k), Err(CacheError::NotFound));
}

#[test]
fn derived_artifact_first_writer_wins() {
    let mut store = CacheModel::new();
    let k = key(4);
    store.store_payload(k.clone(), vec![1, 2], 5);
    assert!(store.store_derived(&k, vec![7, 7, 7]));
    assert!(!store.store_derived(&k, vec![8, 8, 8]));
    assert_eq!(store.read_derived(&k), Ok(vec![7, 7, 7]));
}

#[test]
fn visit_moves_last_visit_forward_only() {
    let mut store = CacheModel::new();
    let k = key(5);
    store.store_payload(k.clone(), vec![1, 2], 100);
    store.record_visit(&k, 300);
    let scan = store.scan();
    assert_eq!((scan[0].1, scan[0].2), (100, 300));
    // A visit with an older clock reading never regresses the instant.
    store.record_visit(&k, 200);
    let scan = store.scan();
    assert_eq!((scan[0].1, scan[0].2), (100, 300));
}

#[test]
fn eviction_removes_the_entry_whole() {
    let mut store = CacheModel::new();
    let k = key(6);
    store.store_payload(k.clone(), vec![1, 2, 3], 5);
    store.store_derived(&k, vec![4, 4]);
    store.evict_entry(&k);
    assert_eq!(store.lookup(&k), (false, false));
    assert_eq!(store.read_payload(&k), Err(CacheError::NotFound));
    assert_eq!(store.read_derived(&k), Err(CacheError::NotFound));
    // Deleting an already-removed entry counts as success.
    store.evict_entry(&k);
    assert_eq!(store.lookup(&k), (false, false));
}

#[test]
fn sweep_removes_expired_and_retains_fresh() {
    let mut store = CacheModel::new();
    let stale = key(7);
    let fresh = key(8);
    let boundary = key(9);
    store.store_payload(stale.clone(), vec![1, 2], 0);
    store.store_payload(fresh.clone(), vec![3, 4], 0);
    store.store_payload(boundary.clone(), vec![5, 6], 0);
    store.record_visit(&stale, 1_000);
    store.record_visit(&fresh, 70_000);
    store.record_visit(&boundary, 60_000);
    // A one-minute window at instant 120000: visited at 1000 is long
    // expired, at 60000 exactly a window ago (expired), at 70000 fresh.
    store.evict_expired(120_000, 1);
    assert_eq!(store.lookup(&stale), (false, false));
    assert_eq!(store.lookup(&boundary), (false, false));
    assert_eq!(store.lookup(&fresh).0, true);
    assert_eq!(store.read_payload(&fresh), Ok(vec![3, 4]));
}

#[test]
fn expiry_rule_is_exact_at_the_boundary() {
    // A 20160-minute window, as the default configuration sets it.
    let window_ms: i64 = 20160 * 60_000;
    assert!(is_expired(0, window_ms, 20160));
    assert!(!is_expired(0, window_ms - 1, 20160));
    assert!(is_expired(0, window_ms + 1, 20160));
    // Extreme instants must not overflow the comparison.
    assert!(!is_expired(i64::MAX, 0, 20160));
    assert!(is_expired(i64::MIN, 0, 20160));
}

#[test]
fn live_sweep_reads_the_clock_itself() {
    let mut store = CacheModel::new();
    let ancient = key(10);
    let future = key(11);
    store.store_payload(ancient.clone(), vec![1, 2], 0);
    store.store_payload(future.clone(), vec![3, 4], 0);
    store.record_visit(&future, i64::MAX - 1);
    run_eviction_pass(&mut store, 1);
    // Whatever instant the clock returned, an entry last visited at the
    // epoch has long expired and one visited at the end of time has not.
    assert_eq!(store.lookup(&ancient), (false, false));
    assert_eq!(store.lookup(&future).0, true);
}

#[test]
fn sweep_on_empty_store_is_a_no_op() {
    let mut store = CacheModel::new();
    store.evict_expired(1_000_000, 1);
    assert_eq!(store.scan().len(), 0);
}
