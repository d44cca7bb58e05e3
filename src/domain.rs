use vstd::prelude::*;

verus! {

/// A resolved key together with its payload.
#[derive(Clone, Debug)]
pub struct UrlData {
    pub url: String,
    pub data: String,
}

/// The fields of one cache entry, as the cache store reports them.
/// An absent entry reads as an entry with every field absent.
#[derive(Clone, Debug)]
pub struct CacheEntry {
    /// The resolved payload, present only for a confirmed hit.
    pub data: Option<String>,
    /// Milliseconds since epoch of the last source query that did not resolve the key.
    pub last_mongo_fetch: Option<u64>,
    /// Milliseconds since epoch of the last backfill trigger for the key.
    pub last_crawler_send: Option<u64>,
}

/// A write-through of a value found in the source-of-truth store:
/// set `data`, clear both bookkeeping timestamps, expire after `ttl_sec`.
#[derive(Clone, Debug)]
pub struct CacheWrite {
    pub key: String,
    pub data: String,
    pub ttl_sec: u64,
}

/// A bookkeeping write: set the timestamps that are present, expire after `ttl_sec`.
#[derive(Clone, Debug)]
pub struct InflightUpdate {
    pub key: String,
    pub last_mongo_fetch: Option<u64>,
    pub last_crawler_send: Option<u64>,
    pub ttl_sec: u64,
}

pub open spec fn keys_view(v: Seq<String>) -> Seq<Seq<char>> {
    v.map_values(|s: String| s@)
}

pub open spec fn pair_view(d: UrlData) -> (Seq<char>, Seq<char>) {
    (d.url@, d.data@)
}

pub open spec fn pairs_view(v: Seq<UrlData>) -> Seq<(Seq<char>, Seq<char>)> {
    v.map_values(|d: UrlData| pair_view(d))
}

pub open spec fn opt_view(o: Option<String>) -> Option<Seq<char>> {
    match o {
        Some(s) => Some(s@),
        None => None,
    }
}

/// The namespace under which every entry is stored.
pub open spec fn storage_prefix() -> Seq<char> {
    seq!['r', 'c', 's', ':', ':']
}

/// The storage key that addresses the entry of `k`.
pub open spec fn storage_key_of(k: Seq<char>) -> Seq<char> {
    storage_prefix() + k
}

/// The storage key that addresses the entry of `url`.
pub fn storage_key(url: &String) -> (r: String)
    ensures
        r@ == storage_key_of(url@),
{
    let mut s = String::from_str("rcs::");
    proof {
        reveal_strlit("rcs::");
    }
    s.append(url.as_str());
    assert(s@ =~= storage_key_of(url@));
    s
}

/// `e` is what a write-through of `v` leaves: the value set, both timestamps cleared.
pub open spec fn holds_written(e: CacheEntry, v: Seq<char>) -> bool {
    &&& opt_view(e.data) == Some(v)
    &&& e.last_mongo_fetch is None
    &&& e.last_crawler_send is None
}

/// `after` is `before` once the bookkeeping write `u` is applied: the timestamps that `u`
/// holds are set, every other field is kept.
pub open spec fn inflight_applied(after: CacheEntry, before: CacheEntry, u: InflightUpdate) -> bool {
    &&& opt_view(after.data) == opt_view(before.data)
    &&& after.last_mongo_fetch == if u.last_mongo_fetch is Some {
        u.last_mongo_fetch
    } else {
        before.last_mongo_fetch
    }
    &&& after.last_crawler_send == if u.last_crawler_send is Some {
        u.last_crawler_send
    } else {
        before.last_crawler_send
    }
}

impl CacheEntry {
    /// The cache store's atomic write-through, applied to one entry.
    pub fn write_value_and_clear(&mut self, data: String)
        ensures
            holds_written(*final(self), data@),
    {
        self.data = Some(data);
        self.last_mongo_fetch = None;
        self.last_crawler_send = None;
    }

    /// The cache store's atomic bookkeeping write, applied to one entry.
    pub fn set_inflight_fields(&mut self, u: &InflightUpdate)
        ensures
            inflight_applied(*final(self), *old(self), *u),
    {
        if let Some(m) = u.last_mongo_fetch {
            self.last_mongo_fetch = Some(m);
        }
        if let Some(c) = u.last_crawler_send {
            self.last_crawler_send = Some(c);
        }
    }
}

/// Time elapsed from `t` to `now`, saturating at zero for a timestamp in the future.
pub open spec fn elapsed(now: u64, t: u64) -> int {
    if now >= t {
        now - t
    } else {
        0
    }
}

/// Whether an action last taken at `last` (never, when absent) may be taken again at `now`.
pub open spec fn window_passed(now: u64, last: Option<u64>, window: u64) -> bool {
    match last {
        None => true,
        Some(t) => elapsed(now, t) >= window,
    }
}

pub fn window_has_passed(now: u64, last: Option<u64>, window: u64) -> (r: bool)
    ensures
        r == window_passed(now, last, window),
{
    match last {
        None => true,
        Some(t) => {
            let d: u64 = if now >= t {
                now - t
            } else {
                0
            };
            d >= window
        },
    }
}

} // verus!
