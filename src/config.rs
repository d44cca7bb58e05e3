use vstd::prelude::*;

verus! {

/// Suppression policy: the four durations that drive every resolution.
#[derive(Clone, Copy, Debug, PartialEq, Eq)]
pub struct Config {
    pub cache_ttl_sec: u64,
    pub mongo_prevent_ms: u64,
    pub crawler_prevent_ms: u64,
    pub inflight_ttl_sec: u64,
}

pub const DEFAULT_CACHE_TTL_SEC: u64 = 3600;
pub const DEFAULT_MONGO_PREVENT_MS: u64 = 10_000;
pub const DEFAULT_CRAWLER_PREVENT_MS: u64 = 900_000;
pub const DEFAULT_INFLIGHT_TTL_SEC: u64 = 86_400;

impl Config {
    /// Builds a policy from optional overrides; each absent setting takes its default.
    pub fn from_overrides(
        cache_ttl_sec: Option<u64>,
        mongo_prevent_ms: Option<u64>,
        crawler_prevent_ms: Option<u64>,
        inflight_ttl_sec: Option<u64>,
    ) -> (r: Config)
        ensures
            r.cache_ttl_sec == match cache_ttl_sec { Some(v) => v, None => DEFAULT_CACHE_TTL_SEC },
            r.mongo_prevent_ms == match mongo_prevent_ms { Some(v) => v, None => DEFAULT_MONGO_PREVENT_MS },
            r.crawler_prevent_ms == match crawler_prevent_ms { Some(v) => v, None => DEFAULT_CRAWLER_PREVENT_MS },
            r.inflight_ttl_sec == match inflight_ttl_sec { Some(v) => v, None => DEFAULT_INFLIGHT_TTL_SEC },
    {
        Config {
            cache_ttl_sec: match cache_ttl_sec { Some(v) => v, None => DEFAULT_CACHE_TTL_SEC },
            mongo_prevent_ms: match mongo_prevent_ms { Some(v) => v, None => DEFAULT_MONGO_PREVENT_MS },
            crawler_prevent_ms: match crawler_prevent_ms { Some(v) => v, None => DEFAULT_CRAWLER_PREVENT_MS },
            inflight_ttl_sec: match inflight_ttl_sec { Some(v) => v, None => DEFAULT_INFLIGHT_TTL_SEC },
        }
    }
}

} // verus!
