use vstd::prelude::*;

use crate::config::Config;
use crate::domain::{
    keys_view, opt_view, pairs_view, storage_key, storage_key_of, window_has_passed,
    window_passed, CacheEntry, CacheWrite, InflightUpdate, UrlData,
};
use crate::keys::{dedup, distinct_keys, lemma_dedup_distinct};

verus! {

/// The entry that an absent cache entry reads as.
pub open spec fn empty_entry() -> CacheEntry {
    CacheEntry { data: None, last_mongo_fetch: None, last_crawler_send: None }
}

/// The entry reported for position `i` of a batched read; a missing position reads as absent.
pub open spec fn entry_at(es: Seq<CacheEntry>, i: int) -> CacheEntry {
    if 0 <= i < es.len() {
        es[i]
    } else {
        empty_entry()
    }
}

/// A key without a cached value whose source-suppression window has passed.
pub open spec fn is_query_candidate(e: CacheEntry, now: u64, window: u64) -> bool {
    e.data is None && window_passed(now, e.last_mongo_fetch, window)
}

/// The value that the source-of-truth answer `fs` gives for `k` (the last pair for it wins).
pub open spec fn found_value(fs: Seq<(Seq<char>, Seq<char>)>, k: Seq<char>, n: int) -> Option<
    Seq<char>,
>
    decreases n,
{
    if n <= 0 {
        None
    } else if fs[n - 1].0 == k {
        Some(fs[n - 1].1)
    } else {
        found_value(fs, k, n - 1)
    }
}

/// What the pipeline knows of one distinct key of the batch.
#[derive(Clone, Debug)]
pub struct KeyState {
    pub key: String,
    /// The key was handed to the source-of-truth store.
    pub queried: bool,
    /// The value resolved so far.
    pub value: Option<String>,
}

/// The keys of the rows handed to the source-of-truth store, in row order.
pub open spec fn pick_queried(rows: Seq<KeyState>, n: int) -> Seq<Seq<char>>
    decreases n,
{
    if n <= 0 {
        Seq::empty()
    } else {
        let p = pick_queried(rows, n - 1);
        if rows[n - 1].queried {
            p.push(rows[n - 1].key@)
        } else {
            p
        }
    }
}

/// The queried keys that the source-of-truth answer leaves unresolved.
pub open spec fn pick_not_found(rows: Seq<KeyState>, fs: Seq<(Seq<char>, Seq<char>)>, n: int) -> Seq<
    Seq<char>,
>
    decreases n,
{
    if n <= 0 {
        Seq::empty()
    } else {
        let p = pick_not_found(rows, fs, n - 1);
        if rows[n - 1].queried && found_value(fs, rows[n - 1].key@, fs.len() as int) is None {
            p.push(rows[n - 1].key@)
        } else {
            p
        }
    }
}

/// The keys that were neither resolved from cache nor queried: assumed missing.
pub open spec fn pick_suppressed(rows: Seq<KeyState>, n: int) -> Seq<Seq<char>>
    decreases n,
{
    if n <= 0 {
        Seq::empty()
    } else {
        let p = pick_suppressed(rows, n - 1);
        if !rows[n - 1].queried && rows[n - 1].value is None {
            p.push(rows[n - 1].key@)
        } else {
            p
        }
    }
}

/// The write-throughs (storage key, value) for the queried keys that the source resolved.
pub open spec fn pick_writes(rows: Seq<KeyState>, fs: Seq<(Seq<char>, Seq<char>)>, n: int) -> Seq<
    (Seq<char>, Seq<char>),
>
    decreases n,
{
    if n <= 0 {
        Seq::empty()
    } else {
        let p = pick_writes(rows, fs, n - 1);
        if rows[n - 1].queried {
            match found_value(fs, rows[n - 1].key@, fs.len() as int) {
                Some(v) => p.push((storage_key_of(rows[n - 1].key@), v)),
                None => p,
            }
        } else {
            p
        }
    }
}

/// The value resolved for `k` among the first `n` rows.
pub open spec fn lookup_value(rows: Seq<KeyState>, k: Seq<char>, n: int) -> Option<Seq<char>>
    decreases n,
{
    if n <= 0 {
        None
    } else if rows[n - 1].key@ == k {
        opt_view(rows[n - 1].value)
    } else {
        lookup_value(rows, k, n - 1)
    }
}

/// The response for the first `n` input keys: one (key, value) pair per resolved key, in input order.
pub open spec fn assemble(urls: Seq<Seq<char>>, rows: Seq<KeyState>, n: int) -> Seq<
    (Seq<char>, Seq<char>),
>
    decreases n,
{
    if n <= 0 {
        Seq::empty()
    } else {
        let p = assemble(urls, rows, n - 1);
        match lookup_value(rows, urls[n - 1], rows.len() as int) {
            Some(v) => p.push((urls[n - 1], v)),
            None => p,
        }
    }
}

pub open spec fn rows_keys(rows: Seq<KeyState>) -> Seq<Seq<char>> {
    rows.map_values(|r: KeyState| r.key@)
}

/// `rows` classifies the distinct `keys` by the entries `es` read for them at `now`:
/// a cached value resolves the key; otherwise it is queried iff its source window has passed.
pub open spec fn classified(
    rows: Seq<KeyState>,
    keys: Seq<Seq<char>>,
    es: Seq<CacheEntry>,
    now: u64,
    cfg: Config,
) -> bool {
    &&& rows_keys(rows) == keys
    &&& forall|i: int|
        0 <= i < rows.len() ==> (#[trigger] rows[i]).queried == is_query_candidate(
            entry_at(es, i),
            now,
            cfg.mongo_prevent_ms,
        ) && opt_view(rows[i].value) == opt_view(entry_at(es, i).data)
}

/// `after` is `before` once the source-of-truth answer `fs` is taken in: each queried key
/// takes the value the answer gives it, if any; the others keep theirs.
pub open spec fn absorbed(
    after: Seq<KeyState>,
    before: Seq<KeyState>,
    fs: Seq<(Seq<char>, Seq<char>)>,
) -> bool {
    &&& after.len() == before.len()
    &&& forall|i: int|
        0 <= i < after.len() ==> {
            &&& (#[trigger] after[i]).key@ == before[i].key@
            &&& after[i].queried == before[i].queried
            &&& opt_view(after[i].value) == if before[i].queried {
                found_value(fs, before[i].key@, fs.len() as int)
            } else {
                opt_view(before[i].value)
            }
        }
}

/// The orchestrator: the three ports it is driven against and its suppression policy.
pub struct LoadReducerService<R, M, C> {
    pub redis: R,
    pub mongo: M,
    pub crawler: C,
    pub config: Config,
}

impl<R, M, C> LoadReducerService<R, M, C> {
    pub fn new(redis: R, mongo: M, crawler: C, config: Config) -> (r: Self)
        ensures
            r.redis == redis,
            r.mongo == mongo,
            r.crawler == crawler,
            r.config == config,
    {
        LoadReducerService { redis, mongo, crawler, config }
    }

    /// Starts the resolution of `urls` at time `now_ms`.
    pub fn begin(&self, urls: Vec<String>, now_ms: u64) -> (r: Probe)
        ensures
            r.config() == self.config,
            r.now() == now_ms,
            r.urls() == keys_view(urls@),
            r.keys() == dedup(keys_view(urls@), urls@.len() as int),
            r.keys().no_duplicates(),
            forall|k: Seq<char>| r.keys().contains(k) <==> keys_view(urls@).contains(k),
    {
        let keys = distinct_keys(&urls);
        proof {
            lemma_dedup_distinct(keys_view(urls@), urls@.len() as int);
        }
        Probe { config: self.config, now_ms, urls, keys }
    }
}

/// A resolution waiting for the batched cache read of its distinct keys.
pub struct Probe {
    config: Config,
    now_ms: u64,
    urls: Vec<String>,
    keys: Vec<String>,
}

impl Probe {
    pub closed spec fn config(&self) -> Config {
        self.config
    }

    pub closed spec fn now(&self) -> u64 {
        self.now_ms
    }

    pub closed spec fn urls(&self) -> Seq<Seq<char>> {
        keys_view(self.urls@)
    }

    pub closed spec fn keys(&self) -> Seq<Seq<char>> {
        keys_view(self.keys@)
    }

    /// The storage keys to read in one batch, one per distinct key.
    pub fn cache_keys(&self) -> (r: Vec<String>)
        ensures
            r@.len() == self.keys().len(),
            forall|i: int| 0 <= i < r@.len() ==> #[trigger] r@[i]@ == storage_key_of(self.keys()[i]),
    {
        let mut r: Vec<String> = Vec::new();
        let mut i: usize = 0;
        while i < self.keys.len()
            invariant
                i <= self.keys@.len(),
                r@.len() == i,
                forall|j: int| 0 <= j < i ==> #[trigger] r@[j]@ == storage_key_of(self.keys@[j]@),
            decreases self.keys@.len() - i,
        {
            r.push(storage_key(&self.keys[i]));
            i += 1;
        }
        r
    }

    /// Classifies each distinct key by the entry read for it: `entries[i]` is the
    /// entry of the `i`-th key of `cache_keys`.
    pub fn classify(self, entries: Vec<CacheEntry>) -> (r: Lookup)
        ensures
            r.config() == self.config(),
            r.now() == self.now(),
            r.urls() == self.urls(),
            classified(r.rows(), self.keys(), entries@, self.now(), self.config()),
    {
        let mut rows: Vec<KeyState> = Vec::new();
        let mut i: usize = 0;
        while i < self.keys.len()
            invariant
                i <= self.keys@.len(),
                rows@.len() == i,
                forall|j: int| 0 <= j < i ==> (#[trigger] rows@[j]).key@ == self.keys@[j]@,
                forall|j: int|
                    0 <= j < i ==> (#[trigger] rows@[j]).queried == is_query_candidate(
                        entry_at(entries@, j),
                        self.now_ms,
                        self.config.mongo_prevent_ms,
                    ),
                forall|j: int|
                    0 <= j < i ==> #[trigger] opt_view(rows@[j].value) == opt_view(
                        entry_at(entries@, j).data,
                    ),
            decreases self.keys@.len() - i,
        {
            let row = if i < entries.len() {
                let e = &entries[i];
                match &e.data {
                    Some(d) => KeyState { key: self.keys[i].clone(), queried: false, value: Some(d.clone()) },
                    None => {
                        let q = window_has_passed(self.now_ms, e.last_mongo_fetch, self.config.mongo_prevent_ms);
                        KeyState { key: self.keys[i].clone(), queried: q, value: None }
                    },
                }
            } else {
                KeyState { key: self.keys[i].clone(), queried: true, value: None }
            };
            rows.push(row);
            i += 1;
        }
        assert(rows_keys(rows@) =~= keys_view(self.keys@));
        Lookup { config: self.config, now_ms: self.now_ms, urls: self.urls, rows }
    }
}

/// A resolution whose cache read is classified, waiting for the source-of-truth answer.
pub struct Lookup {
    config: Config,
    now_ms: u64,
    urls: Vec<String>,
    rows: Vec<KeyState>,
}

impl Lookup {
    pub closed spec fn config(&self) -> Config {
        self.config
    }

    pub closed spec fn now(&self) -> u64 {
        self.now_ms
    }

    pub closed spec fn urls(&self) -> Seq<Seq<char>> {
        keys_view(self.urls@)
    }

    pub closed spec fn rows(&self) -> Seq<KeyState> {
        self.rows@
    }

    /// The keys to hand to the source-of-truth store in one batch; when empty, no call is made.
    pub fn source_query(&self) -> (r: Vec<String>)
        ensures
            keys_view(r@) == pick_queried(self.rows(), self.rows().len() as int),
    {
        let mut r: Vec<String> = Vec::new();
        let mut i: usize = 0;
        while i < self.rows.len()
            invariant
                i <= self.rows@.len(),
                keys_view(r@) == pick_queried(self.rows@, i as int),
            decreases self.rows@.len() - i,
        {
            if self.rows[i].queried {
                let ghost before = r@;
                r.push(self.rows[i].key.clone());
                assert(keys_view(r@) =~= keys_view(before).push(self.rows@[i as int].key@));
            }
            i += 1;
        }
        r
    }
}

/// The value that the source-of-truth answer `found` gives for `k`.
fn find_value(found: &Vec<UrlData>, k: &String) -> (r: Option<String>)
    ensures
        opt_view(r) == found_value(pairs_view(found@), k@, found@.len() as int),
{
    let mut r: Option<String> = None;
    let mut j: usize = 0;
    while j < found.len()
        invariant
            j <= found@.len(),
            opt_view(r) == found_value(pairs_view(found@), k@, j as int),
        decreases found@.len() - j,
    {
        assert(pairs_view(found@)[j as int] == (found@[j as int].url@, found@[j as int].data@));
        if found[j].url.eq(k) {
            r = Some(found[j].data.clone());
        }
        j += 1;
    }
    r
}

pub open spec fn writes_view(ws: Seq<CacheWrite>) -> Seq<(Seq<char>, Seq<char>)> {
    ws.map_values(|w: CacheWrite| (w.key@, w.data@))
}

impl Lookup {
    /// Takes in the source-of-truth answer (key, value pairs): resolves the queried keys it
    /// holds, plans their write-through, and lists the missing keys (queried and not found,
    /// then assumed missing).
    pub fn absorb(self, found: Vec<UrlData>) -> (r: Reconcile)
        ensures
            r.config() == self.config(),
            r.now() == self.now(),
            r.urls() == self.urls(),
            absorbed(r.rows(), self.rows(), pairs_view(found@)),
            writes_view(r.writes()) == pick_writes(
                self.rows(),
                pairs_view(found@),
                self.rows().len() as int,
            ),
            forall|i: int|
                0 <= i < r.writes().len() ==> (#[trigger] r.writes()[i]).ttl_sec
                    == self.config().cache_ttl_sec,
            r.missing() == pick_not_found(self.rows(), pairs_view(found@), self.rows().len() as int)
                + pick_suppressed(self.rows(), self.rows().len() as int),
            r.n_not_found() == pick_not_found(
                self.rows(),
                pairs_view(found@),
                self.rows().len() as int,
            ).len(),
            r.cursor() == 0,
            r.triggers() == Seq::<Seq<char>>::empty(),
    {
        let ghost fs = pairs_view(found@);
        let mut rows: Vec<KeyState> = Vec::new();
        let mut writes: Vec<CacheWrite> = Vec::new();
        let mut not_found: Vec<String> = Vec::new();
        let mut suppressed: Vec<String> = Vec::new();
        let mut i: usize = 0;
        while i < self.rows.len()
            invariant
                i <= self.rows@.len(),
                fs == pairs_view(found@),
                rows@.len() == i,
                forall|j: int|
                    0 <= j < i ==> (#[trigger] rows@[j]).key@ == self.rows@[j].key@
                        && rows@[j].queried == self.rows@[j].queried,
                forall|j: int|
                    0 <= j < i ==> #[trigger] opt_view(rows@[j].value) == if self.rows@[j].queried {
                        found_value(fs, self.rows@[j].key@, fs.len() as int)
                    } else {
                        opt_view(self.rows@[j].value)
                    },
                writes_view(writes@) == pick_writes(self.rows@, fs, i as int),
                forall|j: int|
                    0 <= j < writes@.len() ==> (#[trigger] writes@[j]).ttl_sec
                        == self.config.cache_ttl_sec,
                keys_view(not_found@) == pick_not_found(self.rows@, fs, i as int),
                keys_view(suppressed@) == pick_suppressed(self.rows@, i as int),
            decreases self.rows@.len() - i,
        {
            let row = &self.rows[i];
            let ghost w0 = writes@;
            let ghost n0 = not_found@;
            let ghost s0 = suppressed@;
            if row.queried {
                let v = find_value(&found, &row.key);
                match v {
                    Some(d) => {
                        let w = CacheWrite {
                            key: storage_key(&row.key),
                            data: d.clone(),
                            ttl_sec: self.config.cache_ttl_sec,
                        };
                        writes.push(w);
                        assert(writes_view(writes@) =~= writes_view(w0).push(
                            (storage_key_of(row.key@), d@),
                        ));
                        rows.push(KeyState { key: row.key.clone(), queried: true, value: Some(d) });
                    },
                    None => {
                        not_found.push(row.key.clone());
                        assert(keys_view(not_found@) =~= keys_view(n0).push(row.key@));
                        rows.push(KeyState { key: row.key.clone(), queried: true, value: None });
                    },
                }
            } else {
                if row.value.is_none() {
                    suppressed.push(row.key.clone());
                    assert(keys_view(suppressed@) =~= keys_view(s0).push(row.key@));
                }
                rows.push(KeyState { key: row.key.clone(), queried: false, value: row.value.clone() });
            }
            i += 1;
        }
        let n_not_found = not_found.len();
        let mut missing = not_found;
        let ghost m0 = missing@;
        let mut tail = suppressed;
        missing.append(&mut tail);
        assert(keys_view(missing@) =~= keys_view(m0) + keys_view(suppressed@));
        Reconcile {
            config: self.config,
            now_ms: self.now_ms,
            urls: self.urls,
            rows,
            writes,
            missing,
            n_not_found,
            cursor: 0,
            triggers: Vec::new(),
        }
    }
}

/// A resolution in missing-key reconciliation: for each missing key in turn, the caller
/// re-reads its entry and hands it to `record`, then sends the trigger batch and replies.
pub struct Reconcile {
    config: Config,
    now_ms: u64,
    urls: Vec<String>,
    rows: Vec<KeyState>,
    writes: Vec<CacheWrite>,
    missing: Vec<String>,
    n_not_found: usize,
    cursor: usize,
    triggers: Vec<String>,
}

impl Reconcile {
    pub closed spec fn config(&self) -> Config {
        self.config
    }

    pub closed spec fn now(&self) -> u64 {
        self.now_ms
    }

    pub closed spec fn urls(&self) -> Seq<Seq<char>> {
        keys_view(self.urls@)
    }

    pub closed spec fn rows(&self) -> Seq<KeyState> {
        self.rows@
    }

    pub closed spec fn writes(&self) -> Seq<CacheWrite> {
        self.writes@
    }

    /// The missing keys: those queried and not found come first.
    pub closed spec fn missing(&self) -> Seq<Seq<char>> {
        keys_view(self.missing@)
    }

    pub closed spec fn n_not_found(&self) -> nat {
        self.n_not_found as nat
    }

    /// How many missing keys have been reconciled.
    pub closed spec fn cursor(&self) -> nat {
        self.cursor as nat
    }

    pub closed spec fn triggers(&self) -> Seq<Seq<char>> {
        keys_view(self.triggers@)
    }
}

/// A missing key is sent for backfill at `now` iff the trigger time in its freshly re-read
/// entry is absent or at least a backfill window old.
pub open spec fn should_trigger(fresh: CacheEntry, now: u64, cfg: Config) -> bool {
    window_passed(now, fresh.last_crawler_send, cfg.crawler_prevent_ms)
}

impl Reconcile {
    /// The write-throughs to issue, one per key that the source resolved.
    pub fn cache_writes(&self) -> (r: &Vec<CacheWrite>)
        ensures
            r@ == self.writes(),
    {
        &self.writes
    }

    /// The storage key of the next missing key to re-read, or `None` when all are reconciled.
    pub fn pending_key(&self) -> (r: Option<String>)
        ensures
            r is None <==> self.cursor() >= self.missing().len(),
            r matches Some(k) ==> k@ == storage_key_of(self.missing()[self.cursor() as int]),
    {
        if self.cursor < self.missing.len() {
            Some(storage_key(&self.missing[self.cursor]))
        } else {
            None
        }
    }

    /// Reconciles the next missing key against `fresh`, its entry as re-read now.
    /// Returns the bookkeeping write to issue, if any; with no key pending, nothing changes.
    pub fn record(&mut self, fresh: &CacheEntry) -> (r: Option<InflightUpdate>)
        ensures
            final(self).config() == old(self).config(),
            final(self).now() == old(self).now(),
            final(self).urls() == old(self).urls(),
            final(self).rows() == old(self).rows(),
            final(self).writes() == old(self).writes(),
            final(self).missing() == old(self).missing(),
            final(self).n_not_found() == old(self).n_not_found(),
            old(self).cursor() >= old(self).missing().len() ==> r is None && final(self).cursor()
                == old(self).cursor() && final(self).triggers() == old(self).triggers(),
            old(self).cursor() < old(self).missing().len() ==> {
                let k = old(self).missing()[old(self).cursor() as int];
                let queried = old(self).cursor() < old(self).n_not_found();
                let trigger = should_trigger(*fresh, old(self).now(), old(self).config());
                &&& final(self).cursor() == old(self).cursor() + 1
                &&& final(self).triggers() == if trigger {
                    old(self).triggers().push(k)
                } else {
                    old(self).triggers()
                }
                &&& (r is Some <==> (queried || trigger))
                &&& (r matches Some(u) ==> {
                    &&& u.key@ == storage_key_of(k)
                    &&& u.last_mongo_fetch == if queried {
                        Some(old(self).now())
                    } else {
                        None::<u64>
                    }
                    &&& u.last_crawler_send == if trigger {
                        Some(old(self).now())
                    } else {
                        None::<u64>
                    }
                    &&& u.ttl_sec == old(self).config().inflight_ttl_sec
                })
            },
    {
        if self.cursor >= self.missing.len() {
            return None;
        }
        let c = self.cursor;
        let queried = c < self.n_not_found;
        let trigger = window_has_passed(
            self.now_ms,
            fresh.last_crawler_send,
            self.config.crawler_prevent_ms,
        );
        let ghost t0 = self.triggers@;
        if trigger {
            self.triggers.push(self.missing[c].clone());
            assert(keys_view(self.triggers@) =~= keys_view(t0).push(self.missing@[c as int]@));
        }
        self.cursor = c + 1;
        if queried || trigger {
            Some(
                InflightUpdate {
                    key: storage_key(&self.missing[c]),
                    last_mongo_fetch: if queried {
                        Some(self.now_ms)
                    } else {
                        None
                    },
                    last_crawler_send: if trigger {
                        Some(self.now_ms)
                    } else {
                        None
                    },
                    ttl_sec: self.config.inflight_ttl_sec,
                },
            )
        } else {
            None
        }
    }

    /// The keys to send to the backfill service in one batch; when empty, no call is made.
    pub fn trigger_batch(&self) -> (r: &Vec<String>)
        ensures
            keys_view(r@) == self.triggers(),
    {
        &self.triggers
    }

    /// The response: one record per input key that ended resolved, in input order.
    pub fn response(&self) -> (r: Vec<UrlData>)
        ensures
            pairs_view(r@) == assemble(self.urls(), self.rows(), self.urls().len() as int),
    {
        let mut r: Vec<UrlData> = Vec::new();
        let mut i: usize = 0;
        while i < self.urls.len()
            invariant
                i <= self.urls@.len(),
                pairs_view(r@) == assemble(keys_view(self.urls@), self.rows@, i as int),
            decreases self.urls@.len() - i,
        {
            let v = resolved_value(&self.rows, &self.urls[i]);
            assert(keys_view(self.urls@)[i as int] == self.urls@[i as int]@);
            match v {
                Some(d) => {
                    let ghost r0 = r@;
                    r.push(UrlData { url: self.urls[i].clone(), data: d });
                    assert(pairs_view(r@) =~= pairs_view(r0).push(
                        (self.urls@[i as int]@, r@.last().data@),
                    ));
                },
                None => {},
            }
            i += 1;
        }
        r
    }
}

/// The value resolved for `k`.
fn resolved_value(rows: &Vec<KeyState>, k: &String) -> (r: Option<String>)
    ensures
        opt_view(r) == lookup_value(rows@, k@, rows@.len() as int),
{
    let mut r: Option<String> = None;
    let mut j: usize = 0;
    while j < rows.len()
        invariant
            j <= rows@.len(),
            opt_view(r) == lookup_value(rows@, k@, j as int),
        decreases rows@.len() - j,
    {
        if rows[j].key.eq(k) {
            r = rows[j].value.clone();
        }
        j += 1;
    }
    r
}

} // verus!
