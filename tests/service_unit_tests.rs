use load_reducer::config::Config;
use load_reducer::domain::{CacheEntry, UrlData};
use load_reducer::service::LoadReducerService;
use std::collections::HashMap;

#[derive(Default)]
struct MockRedis {
    store: HashMap<String, CacheEntry>,
}

#[derive(Default)]
struct MockMongo {
    data: HashMap<String, String>,
    calls: Vec<Vec<String>>,
}

#[derive(Default)]
struct MockCrawler {
    sent: Vec<Vec<String>>,
}

type Service = LoadReducerService<MockRedis, MockMongo, MockCrawler>;

fn empty() -> CacheEntry {
    CacheEntry { data: None, last_mongo_fetch: None, last_crawler_send: None }
}

fn process(svc: &mut Service, urls: Vec<String>, now_ms: u64) -> Vec<UrlData> {
    let probe = svc.begin(urls, now_ms);
    let entries: Vec<CacheEntry> = probe
        .cache_keys()
        .iter()
        .map(|k| svc.redis.store.get(k).cloned().unwrap_or_else(empty))
        .collect();
    let lookup = probe.classify(entries);
    let query = lookup.source_query();
    let mut found = Vec::new();
    if !query.is_empty() {
        svc.mongo.calls.push(query.clone());
        for u in &query {
            if let Some(d) = svc.mongo.data.get(u) {
                found.push(UrlData { url: u.clone(), data: d.clone() });
            }
        }
    }
    let mut rec = lookup.absorb(found);
    for w in rec.cache_writes() {
        let e = svc.redis.store.entry(w.key.clone()).or_insert_with(empty);
        e.write_value_and_clear(w.data.clone());
    }
    while let Some(key) = rec.pending_key() {
        let fresh = svc.redis.store.get(&key).cloned().unwrap_or_else(empty);
        if let Some(u) = rec.record(&fresh) {
            let e = svc.redis.store.entry(u.key.clone()).or_insert_with(empty);
            e.set_inflight_fields(&u);
        }
    }
    if !rec.trigger_batch().is_empty() {
        svc.crawler.sent.push(rec.trigger_batch().clone());
    }
    rec.response()
}

fn default_config() -> Config {
    Config::from_overrides(None, None, None, None)
}

fn service(config: Config) -> Service {
    LoadReducerService::new(MockRedis::default(), MockMongo::default(), MockCrawler::default(), config)
}

const NOW: u64 = 1_700_000_000_000;

#[test]
fn test_cache_hit_no_mongo_no_crawler() {
    let mut svc = service(default_config());
    let mut hash = empty();
    hash.data = Some("cached-value".to_string());
    svc.redis.store.insert("rcs::https://example.com/a".to_string(), hash);

    let res = process(&mut svc, vec!["https://example.com/a".to_string()], NOW);
    assert_eq!(res.len(), 1);
    assert_eq!(res[0].data, "cached-value");

    assert!(svc.mongo.data.is_empty());
    assert!(svc.mongo.calls.is_empty());
    assert!(svc.crawler.sent.is_empty());
}

#[test]
fn test_mongo_fetch_and_cache_write() {
    let mut svc = service(default_config());
    svc.mongo.data.insert("https://example.com/b".to_string(), "mongo-value".to_string());

    let res = process(&mut svc, vec!["https://example.com/b".to_string()], NOW);
    assert_eq!(res.len(), 1);
    assert_eq!(res[0].data, "mongo-value");

    let hash = svc.redis.store.get("rcs::https://example.com/b").unwrap();
    assert_eq!(hash.data.as_deref().unwrap(), "mongo-value");
    assert!(hash.last_mongo_fetch.is_none());
    assert!(hash.last_crawler_send.is_none());
}

#[test]
fn test_missing_triggers_crawler_and_inflight_update() {
    let mut cfg = default_config();
    cfg.crawler_prevent_ms = 0;
    let mut svc = service(cfg);

    let url = "https://example.com/missing".to_string();
    let res = process(&mut svc, vec![url.clone()], NOW);
    assert_eq!(res.len(), 0);

    assert_eq!(svc.crawler.sent.len(), 1);
    assert_eq!(svc.crawler.sent[0][0], url.clone());

    let hash = svc.redis.store.get(&format!("rcs::{}", url)).unwrap();
    assert!(hash.last_crawler_send.is_some() || hash.last_mongo_fetch.is_some());
    assert_eq!(hash.last_crawler_send, Some(NOW));
    assert_eq!(hash.last_mongo_fetch, Some(NOW));
}

#[test]
fn order_preserved_and_unresolved_omitted() {
    let mut svc = service(default_config());
    let mut hit = empty();
    hit.data = Some("va".to_string());
    svc.redis.store.insert("rcs::a".to_string(), hit);
    svc.mongo.data.insert("c".to_string(), "vc".to_string());

    let res = process(&mut svc, vec!["a".to_string(), "b".to_string(), "c".to_string()], NOW);
    let got: Vec<(String, String)> = res.into_iter().map(|d| (d.url, d.data)).collect();
    assert_eq!(got, vec![("a".to_string(), "va".to_string()), ("c".to_string(), "vc".to_string())]);
    assert_eq!(svc.mongo.calls, vec![vec!["b".to_string(), "c".to_string()]]);
}

#[test]
fn suppressed_key_is_not_requeried() {
    let mut svc = service(default_config());
    let mut pending = empty();
    pending.last_mongo_fetch = Some(NOW - 5_000);
    pending.last_crawler_send = Some(NOW - 5_000);
    svc.redis.store.insert("rcs::k".to_string(), pending);
    svc.mongo.data.insert("k".to_string(), "v".to_string());

    let res = process(&mut svc, vec!["k".to_string()], NOW);
    assert!(res.is_empty());
    assert!(svc.mongo.calls.is_empty());
    assert!(svc.crawler.sent.is_empty());
    // an assumed-missing key keeps the source-fetch time of its first miss
    assert_eq!(svc.redis.store["rcs::k"].last_mongo_fetch, Some(NOW - 5_000));
}

#[test]
fn source_window_boundary_requeries() {
    let mut svc = service(default_config());
    let mut pending = empty();
    pending.last_mongo_fetch = Some(NOW - 10_000);
    svc.redis.store.insert("rcs::k".to_string(), pending);
    let res = process(&mut svc, vec!["k".to_string()], NOW);
    assert!(res.is_empty());
    assert_eq!(svc.mongo.calls.len(), 1);
    assert_eq!(svc.crawler.sent, vec![vec!["k".to_string()]]);
}

#[test]
fn suppressed_key_triggers_once_backfill_window_passed() {
    let mut svc = service(default_config());
    let mut pending = empty();
    pending.last_mongo_fetch = Some(NOW - 1);
    pending.last_crawler_send = Some(NOW - 900_000);
    svc.redis.store.insert("rcs::k".to_string(), pending);
    let res = process(&mut svc, vec!["k".to_string()], NOW);
    assert!(res.is_empty());
    assert!(svc.mongo.calls.is_empty());
    assert_eq!(svc.crawler.sent, vec![vec!["k".to_string()]]);
    let e = &svc.redis.store["rcs::k"];
    assert_eq!(e.last_mongo_fetch, Some(NOW - 1));
    assert_eq!(e.last_crawler_send, Some(NOW));
}

#[test]
fn second_resolution_is_served_from_cache() {
    let mut svc = service(default_config());
    svc.mongo.data.insert("k".to_string(), "v".to_string());
    let first = process(&mut svc, vec!["k".to_string()], NOW);
    let second = process(&mut svc, vec!["k".to_string()], NOW + 1);
    assert_eq!(first.len(), 1);
    assert_eq!(second.len(), 1);
    assert_eq!(first[0].data, second[0].data);
    assert_eq!(svc.mongo.calls.len(), 1);
    assert!(svc.crawler.sent.is_empty());
}

#[test]
fn duplicate_keys_each_resolve_and_are_queried_once() {
    let mut svc = service(default_config());
    svc.mongo.data.insert("k".to_string(), "v".to_string());
    let res = process(&mut svc, vec!["k".to_string(), "x".to_string(), "k".to_string()], NOW);
    assert_eq!(res.len(), 2);
    assert_eq!(res[0].url, "k");
    assert_eq!(res[1].url, "k");
    assert_eq!(res[1].data, "v");
    assert_eq!(svc.mongo.calls, vec![vec!["k".to_string(), "x".to_string()]]);
    assert_eq!(svc.crawler.sent, vec![vec!["x".to_string()]]);
}

#[test]
fn empty_batch_makes_no_calls() {
    let mut svc = service(default_config());
    let res = process(&mut svc, Vec::new(), NOW);
    assert!(res.is_empty());
    assert!(svc.mongo.calls.is_empty());
    assert!(svc.crawler.sent.is_empty());
}

#[test]
fn cache_keys_carry_the_namespace_prefix() {
    let svc = service(default_config());
    let probe = svc.begin(vec!["u1".to_string(), "u2".to_string(), "u1".to_string()], NOW);
    assert_eq!(probe.cache_keys(), vec!["rcs::u1".to_string(), "rcs::u2".to_string()]);
}

#[test]
fn config_defaults_and_overrides() {
    let d = default_config();
    assert_eq!(d.cache_ttl_sec, 3600);
    assert_eq!(d.mongo_prevent_ms, 10_000);
    assert_eq!(d.crawler_prevent_ms, 900_000);
    assert_eq!(d.inflight_ttl_sec, 86_400);
    let c = Config::from_overrides(Some(1), None, Some(0), Some(7));
    assert_eq!(c, Config { cache_ttl_sec: 1, mongo_prevent_ms: 10_000, crawler_prevent_ms: 0, inflight_ttl_sec: 7 });
}

#[test]
fn writes_and_updates_carry_the_configured_ttls() {
    let cfg = Config::from_overrides(Some(11), Some(0), Some(0), Some(22));
    let svc = service(cfg);
    let lookup = svc.begin(vec!["f".to_string(), "m".to_string()], NOW).classify(Vec::new());
    let mut rec = lookup.absorb(vec![UrlData { url: "f".to_string(), data: "d".to_string() }]);
    assert_eq!(rec.cache_writes().len(), 1);
    assert_eq!(rec.cache_writes()[0].key, "rcs::f");
    assert_eq!(rec.cache_writes()[0].ttl_sec, 11);
    assert_eq!(rec.pending_key(), Some("rcs::m".to_string()));
    let u = rec.record(&empty()).unwrap();
    assert_eq!(u.key, "rcs::m");
    assert_eq!(u.ttl_sec, 22);
    assert_eq!(rec.pending_key(), None);
    assert!(rec.record(&empty()).is_none());
    assert_eq!(rec.trigger_batch(), &vec!["m".to_string()]);
}

#[test]
fn future_trigger_time_counts_as_no_time_elapsed() {
    let cfg = Config::from_overrides(None, None, Some(1), None);
    let svc = service(cfg);
    let lookup = svc.begin(vec!["m".to_string()], NOW).classify(Vec::new());
    let mut rec = lookup.absorb(Vec::new());
    let mut fresh = empty();
    fresh.last_crawler_send = Some(NOW + 50);
    let u = rec.record(&fresh).unwrap();
    assert_eq!(u.last_mongo_fetch, Some(NOW));
    assert_eq!(u.last_crawler_send, None);
    assert!(rec.trigger_batch().is_empty());
}


#[test]
fn write_through_clears_bookkeeping() {
    let mut e = CacheEntry { data: None, last_mongo_fetch: Some(5), last_crawler_send: Some(6) };
    e.write_value_and_clear("v".to_string());
    assert_eq!(e.data.as_deref(), Some("v"));
    assert_eq!(e.last_mongo_fetch, None);
    assert_eq!(e.last_crawler_send, None);
}

#[test]
fn bookkeeping_write_sets_only_present_fields() {
    let mut e = CacheEntry { data: None, last_mongo_fetch: Some(5), last_crawler_send: Some(6) };
    let u = load_reducer::domain::InflightUpdate {
        key: "rcs::k".to_string(),
        last_mongo_fetch: None,
        last_crawler_send: Some(9),
        ttl_sec: 1,
    };
    e.set_inflight_fields(&u);
    assert_eq!(e.last_mongo_fetch, Some(5));
    assert_eq!(e.last_crawler_send, Some(9));
}
