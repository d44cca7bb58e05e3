use load_reducer::config::Config;
use load_reducer::domain::{CacheEntry, InflightUpdate};
use load_reducer::service::{LoadReducerService, Reconcile};
use std::collections::HashMap;

fn empty() -> CacheEntry {
    CacheEntry { data: None, last_mongo_fetch: None, last_crawler_send: None }
}

fn apply(store: &mut HashMap<String, CacheEntry>, u: &InflightUpdate) {
    store.entry(u.key.clone()).or_insert_with(empty).set_inflight_fields(u);
}

/// Runs a call up to its missing-key reconciliation against `store`, with an empty source.
fn start(svc: &LoadReducerService<(), (), ()>, store: &HashMap<String, CacheEntry>, url: &str, now: u64) -> Reconcile {
    let probe = svc.begin(vec![url.to_string()], now);
    let entries = probe.cache_keys().iter().map(|k| store.get(k).cloned().unwrap_or_else(empty)).collect();
    probe.classify(entries).absorb(Vec::new())
}

/// Re-reads and reconciles the next missing key of `rec`.
fn reconcile_one(rec: &mut Reconcile, store: &mut HashMap<String, CacheEntry>) {
    let key = rec.pending_key().unwrap();
    let fresh = store.get(&key).cloned().unwrap_or_else(empty);
    if let Some(u) = rec.record(&fresh) {
        apply(store, &u);
    }
}

fn sends(recs: &[&Reconcile]) -> usize {
    recs.iter().filter(|r| !r.trigger_batch().is_empty()).count()
}

#[test]
fn interleaved_reread_after_first_write_sends_once() {
    let svc = LoadReducerService::new((), (), (), Config::from_overrides(None, None, None, None));
    let mut store = HashMap::new();
    let url = "https://example.com/concurrent";
    let now = 1_700_000_000_000;
    let mut r1 = start(&svc, &store, url, now);
    let mut r2 = start(&svc, &store, url, now);
    reconcile_one(&mut r1, &mut store);
    reconcile_one(&mut r2, &mut store);
    assert_eq!(sends(&[&r1, &r2]), 1);
    assert_eq!(r1.trigger_batch(), &vec![url.to_string()]);
    assert!(r2.trigger_batch().is_empty());
}

#[test]
fn simultaneous_rereads_may_both_send() {
    let svc = LoadReducerService::new((), (), (), Config::from_overrides(None, None, None, None));
    let mut store = HashMap::new();
    let url = "https://example.com/concurrent";
    let now = 1_700_000_000_000;
    let mut r1 = start(&svc, &store, url, now);
    let mut r2 = start(&svc, &store, url, now);
    let key = r1.pending_key().unwrap();
    let fresh1 = store.get(&key).cloned().unwrap_or_else(empty);
    let fresh2 = store.get(&key).cloned().unwrap_or_else(empty);
    let u1 = r1.record(&fresh1).unwrap();
    let u2 = r2.record(&fresh2).unwrap();
    apply(&mut store, &u1);
    apply(&mut store, &u2);
    assert_eq!(sends(&[&r1, &r2]), 2);
}

#[test]
fn zero_backfill_window_does_not_suppress_a_second_trigger() {
    let mut cfg = Config::from_overrides(None, None, None, None);
    cfg.crawler_prevent_ms = 0;
    let svc = LoadReducerService::new((), (), (), cfg);
    let mut store = HashMap::new();
    let url = "https://example.com/concurrent";
    let now = 1_700_000_000_000;
    let mut r1 = start(&svc, &store, url, now);
    let mut r2 = start(&svc, &store, url, now);
    reconcile_one(&mut r1, &mut store);
    reconcile_one(&mut r2, &mut store);
    assert_eq!(sends(&[&r1, &r2]), 2);
}
