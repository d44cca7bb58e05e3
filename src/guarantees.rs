use vstd::prelude::*;

use crate::config::Config;
use crate::domain::{
    holds_written, inflight_applied, opt_view, storage_key_of, window_passed, CacheEntry,
    InflightUpdate,
};
use crate::service::{
    absorbed, classified, entry_at, is_query_candidate, found_value, lookup_value, pick_not_found,
    pick_queried, pick_suppressed, pick_writes, rows_keys, should_trigger, KeyState,
};

verus! {

/// No two rows share a key.
pub open spec fn distinct_rows(rows: Seq<KeyState>) -> bool {
    forall|a: int, b: int|
        0 <= a < rows.len() && 0 <= b < rows.len() && a != b ==> (#[trigger] rows[a]).key@
            != (#[trigger] rows[b]).key@
}

proof fn lemma_distinct_rows(rows: Seq<KeyState>)
    requires
        rows_keys(rows).no_duplicates(),
    ensures
        distinct_rows(rows),
{
    assert forall|a: int, b: int|
        0 <= a < rows.len() && 0 <= b < rows.len() && a != b implies (#[trigger] rows[a]).key@
            != (#[trigger] rows[b]).key@ by {
        assert(rows_keys(rows)[a] == rows[a].key@);
        assert(rows_keys(rows)[b] == rows[b].key@);
    }
}

proof fn lemma_pick_queried(rows: Seq<KeyState>, n: int, k: Seq<char>)
    requires
        0 <= n <= rows.len(),
    ensures
        pick_queried(rows, n).contains(k) <==> exists|j: int|
            0 <= j < n && (#[trigger] rows[j]).queried && rows[j].key@ == k,
    decreases n,
{
    if n > 0 {
        lemma_pick_queried(rows, n - 1, k);
        let p = pick_queried(rows, n - 1);
        if pick_queried(rows, n).contains(k) {
            let x = choose|x: int| 0 <= x < pick_queried(rows, n).len() && pick_queried(rows, n)[x] == k;
            if x < p.len() {
                assert(p[x] == k);
            } else {
                assert(rows[n - 1].queried && rows[n - 1].key@ == k);
            }
        }
        if exists|j: int| 0 <= j < n && (#[trigger] rows[j]).queried && rows[j].key@ == k {
            let j = choose|j: int| 0 <= j < n && (#[trigger] rows[j]).queried && rows[j].key@ == k;
            if j < n - 1 {
                let x = choose|x: int| 0 <= x < p.len() && p[x] == k;
                assert(pick_queried(rows, n)[x] == k);
            } else {
                assert(pick_queried(rows, n)[p.len() as int] == k);
            }
        }
    }
}

proof fn lemma_pick_not_found(
    rows: Seq<KeyState>,
    fs: Seq<(Seq<char>, Seq<char>)>,
    n: int,
    k: Seq<char>,
)
    requires
        0 <= n <= rows.len(),
    ensures
        pick_not_found(rows, fs, n).contains(k) <==> exists|j: int|
            0 <= j < n && (#[trigger] rows[j]).queried && rows[j].key@ == k && found_value(
                fs,
                k,
                fs.len() as int,
            ) is None,
    decreases n,
{
    if n > 0 {
        lemma_pick_not_found(rows, fs, n - 1, k);
        let p = pick_not_found(rows, fs, n - 1);
        let q = pick_not_found(rows, fs, n);
        if q.contains(k) {
            let x = choose|x: int| 0 <= x < q.len() && q[x] == k;
            if x < p.len() {
                assert(p[x] == k);
            } else {
                assert(rows[n - 1].key@ == k);
            }
        }
        if exists|j: int|
            0 <= j < n && (#[trigger] rows[j]).queried && rows[j].key@ == k && found_value(
                fs,
                k,
                fs.len() as int,
            ) is None {
            let j = choose|j: int|
                0 <= j < n && (#[trigger] rows[j]).queried && rows[j].key@ == k && found_value(
                    fs,
                    k,
                    fs.len() as int,
                ) is None;
            if j < n - 1 {
                let x = choose|x: int| 0 <= x < p.len() && p[x] == k;
                assert(q[x] == k);
            } else {
                assert(q[p.len() as int] == k);
            }
        }
    }
}

proof fn lemma_pick_suppressed(rows: Seq<KeyState>, n: int, k: Seq<char>)
    requires
        0 <= n <= rows.len(),
    ensures
        pick_suppressed(rows, n).contains(k) <==> exists|j: int|
            0 <= j < n && !(#[trigger] rows[j]).queried && rows[j].value is None && rows[j].key@
                == k,
    decreases n,
{
    if n > 0 {
        lemma_pick_suppressed(rows, n - 1, k);
        let p = pick_suppressed(rows, n - 1);
        let q = pick_suppressed(rows, n);
        if q.contains(k) {
            let x = choose|x: int| 0 <= x < q.len() && q[x] == k;
            if x < p.len() {
                assert(p[x] == k);
            } else {
                assert(rows[n - 1].key@ == k);
            }
        }
        if exists|j: int|
            0 <= j < n && !(#[trigger] rows[j]).queried && rows[j].value is None && rows[j].key@
                == k {
            let j = choose|j: int|
                0 <= j < n && !(#[trigger] rows[j]).queried && rows[j].value is None
                    && rows[j].key@ == k;
            if j < n - 1 {
                let x = choose|x: int| 0 <= x < p.len() && p[x] == k;
                assert(q[x] == k);
            } else {
                assert(q[p.len() as int] == k);
            }
        }
    }
}

proof fn lemma_pick_writes(rows: Seq<KeyState>, fs: Seq<(Seq<char>, Seq<char>)>, n: int, i: int)
    requires
        0 <= i < n <= rows.len(),
        rows[i].queried,
        found_value(fs, rows[i].key@, fs.len() as int) is Some,
    ensures
        pick_writes(rows, fs, n).contains(
            (
                storage_key_of(rows[i].key@),
                found_value(fs, rows[i].key@, fs.len() as int).unwrap(),
            ),
        ),
    decreases n,
{
    let w = (storage_key_of(rows[i].key@), found_value(fs, rows[i].key@, fs.len() as int).unwrap());
    let p = pick_writes(rows, fs, n - 1);
    let q = pick_writes(rows, fs, n);
    if i < n - 1 {
        lemma_pick_writes(rows, fs, n - 1, i);
        let x = choose|x: int| 0 <= x < p.len() && p[x] == w;
        assert(q[x] == w);
    } else {
        assert(q[p.len() as int] == w);
    }
}

proof fn lemma_lookup_row(rows: Seq<KeyState>, n: int, i: int)
    requires
        0 <= i < n <= rows.len(),
        distinct_rows(rows),
    ensures
        lookup_value(rows, rows[i].key@, n) == opt_view(rows[i].value),
    decreases n,
{
    if i < n - 1 {
        assert(rows[n - 1].key@ != rows[i].key@);
        lemma_lookup_row(rows, n - 1, i);
    }
}

/// A key whose entry holds a cached value resolves to that value, is not handed to the
/// source-of-truth store, and is not among the missing keys, so it is neither re-read
/// nor sent for backfill.
pub proof fn lemma_cache_hit_short_circuit(
    rows: Seq<KeyState>,
    keys: Seq<Seq<char>>,
    es: Seq<CacheEntry>,
    now: u64,
    cfg: Config,
    fs: Seq<(Seq<char>, Seq<char>)>,
    after: Seq<KeyState>,
    i: int,
)
    requires
        keys.no_duplicates(),
        classified(rows, keys, es, now, cfg),
        absorbed(after, rows, fs),
        0 <= i < keys.len(),
        entry_at(es, i).data is Some,
    ensures
        !pick_queried(rows, rows.len() as int).contains(keys[i]),
        !pick_not_found(rows, fs, rows.len() as int).contains(keys[i]),
        !pick_suppressed(rows, rows.len() as int).contains(keys[i]),
        lookup_value(after, keys[i], after.len() as int) == opt_view(entry_at(es, i).data),
{
    lemma_distinct_rows(rows);
    assert(rows_keys(rows)[i] == rows[i].key@);
    lemma_pick_queried(rows, rows.len() as int, keys[i]);
    lemma_pick_not_found(rows, fs, rows.len() as int, keys[i]);
    lemma_pick_suppressed(rows, rows.len() as int, keys[i]);
    assert(distinct_rows(after)) by {
        assert forall|a: int, b: int|
            0 <= a < after.len() && 0 <= b < after.len() && a != b implies (#[trigger] after[a]).key@
                != (#[trigger] after[b]).key@ by {
            assert(rows[a].key@ != rows[b].key@);
        }
    }
    lemma_lookup_row(after, after.len() as int, i);
}

/// When every distinct key of the batch is a cache hit, neither the source-of-truth store
/// nor the backfill service is called: the source query and the missing keys are empty.
pub proof fn lemma_all_hits_no_downstream(
    rows: Seq<KeyState>,
    keys: Seq<Seq<char>>,
    es: Seq<CacheEntry>,
    now: u64,
    cfg: Config,
    fs: Seq<(Seq<char>, Seq<char>)>,
)
    requires
        classified(rows, keys, es, now, cfg),
        forall|i: int| 0 <= i < keys.len() ==> (#[trigger] entry_at(es, i)).data is Some,
    ensures
        pick_queried(rows, rows.len() as int).len() == 0,
        pick_not_found(rows, fs, rows.len() as int).len() == 0,
        pick_suppressed(rows, rows.len() as int).len() == 0,
{
    assert(rows.len() == keys.len()) by {
        assert(rows_keys(rows).len() == rows.len());
    }
    lemma_all_hits_rec(rows, keys, es, now, cfg, fs, rows.len() as int);
}

proof fn lemma_all_hits_rec(
    rows: Seq<KeyState>,
    keys: Seq<Seq<char>>,
    es: Seq<CacheEntry>,
    now: u64,
    cfg: Config,
    fs: Seq<(Seq<char>, Seq<char>)>,
    n: int,
)
    requires
        classified(rows, keys, es, now, cfg),
        rows.len() == keys.len(),
        0 <= n <= rows.len(),
        forall|i: int| 0 <= i < keys.len() ==> (#[trigger] entry_at(es, i)).data is Some,
    ensures
        pick_queried(rows, n).len() == 0,
        pick_not_found(rows, fs, n).len() == 0,
        pick_suppressed(rows, n).len() == 0,
    decreases n,
{
    if n > 0 {
        lemma_all_hits_rec(rows, keys, es, now, cfg, fs, n - 1);
        assert(entry_at(es, n - 1).data is Some);
        assert(rows[n - 1].queried == false);
    }
}

/// A key without a cached value whose source window has passed (an absent entry among
/// them), and which the source-of-truth store holds, is queried, resolves to the source's
/// value, and that value is written through under the key's storage key.
pub proof fn lemma_source_writes_through(
    rows: Seq<KeyState>,
    keys: Seq<Seq<char>>,
    es: Seq<CacheEntry>,
    now: u64,
    cfg: Config,
    fs: Seq<(Seq<char>, Seq<char>)>,
    after: Seq<KeyState>,
    i: int,
)
    requires
        keys.no_duplicates(),
        classified(rows, keys, es, now, cfg),
        absorbed(after, rows, fs),
        0 <= i < keys.len(),
        is_query_candidate(entry_at(es, i), now, cfg.mongo_prevent_ms),
        found_value(fs, keys[i], fs.len() as int) is Some,
    ensures
        pick_queried(rows, rows.len() as int).contains(keys[i]),
        pick_writes(rows, fs, rows.len() as int).contains(
            (storage_key_of(keys[i]), found_value(fs, keys[i], fs.len() as int).unwrap()),
        ),
        !pick_not_found(rows, fs, rows.len() as int).contains(keys[i]),
        !pick_suppressed(rows, rows.len() as int).contains(keys[i]),
        lookup_value(after, keys[i], after.len() as int) == found_value(fs, keys[i], fs.len() as int),
{
    lemma_distinct_rows(rows);
    assert(rows_keys(rows)[i] == rows[i].key@);
    lemma_pick_queried(rows, rows.len() as int, keys[i]);
    lemma_pick_not_found(rows, fs, rows.len() as int, keys[i]);
    lemma_pick_suppressed(rows, rows.len() as int, keys[i]);
    lemma_pick_writes(rows, fs, rows.len() as int, i);
    assert(distinct_rows(after)) by {
        assert forall|a: int, b: int|
            0 <= a < after.len() && 0 <= b < after.len() && a != b implies (#[trigger] after[a]).key@
                != (#[trigger] after[b]).key@ by {
            assert(rows[a].key@ != rows[b].key@);
        }
    }
    lemma_lookup_row(after, after.len() as int, i);
}

/// A key without a cached value whose last source query lies within the source window is
/// not handed to the source-of-truth store: it is assumed missing and stays unresolved.
pub proof fn lemma_suppressed_requery(
    rows: Seq<KeyState>,
    keys: Seq<Seq<char>>,
    es: Seq<CacheEntry>,
    now: u64,
    cfg: Config,
    fs: Seq<(Seq<char>, Seq<char>)>,
    after: Seq<KeyState>,
    i: int,
)
    requires
        keys.no_duplicates(),
        classified(rows, keys, es, now, cfg),
        absorbed(after, rows, fs),
        0 <= i < keys.len(),
        entry_at(es, i).data is None,
        !window_passed(now, entry_at(es, i).last_mongo_fetch, cfg.mongo_prevent_ms),
    ensures
        !pick_queried(rows, rows.len() as int).contains(keys[i]),
        pick_suppressed(rows, rows.len() as int).contains(keys[i]),
        lookup_value(after, keys[i], after.len() as int) is None,
{
    lemma_distinct_rows(rows);
    assert(rows_keys(rows)[i] == rows[i].key@);
    lemma_pick_queried(rows, rows.len() as int, keys[i]);
    lemma_pick_suppressed(rows, rows.len() as int, keys[i]);
    assert(distinct_rows(after)) by {
        assert forall|a: int, b: int|
            0 <= a < after.len() && 0 <= b < after.len() && a != b implies (#[trigger] after[a]).key@
                != (#[trigger] after[b]).key@ by {
            assert(rows[a].key@ != rows[b].key@);
        }
    }
    lemma_lookup_row(after, after.len() as int, i);
}

/// A key found neither in the cache nor in the source-of-truth store is queried and not
/// found, so it is reconciled with a fresh source-fetch time; with a zero backfill window it
/// is sent for backfill whatever its re-read entry holds.
pub proof fn lemma_missing_key_triggers(
    rows: Seq<KeyState>,
    keys: Seq<Seq<char>>,
    es: Seq<CacheEntry>,
    now: u64,
    cfg: Config,
    fs: Seq<(Seq<char>, Seq<char>)>,
    i: int,
    fresh: CacheEntry,
)
    requires
        keys.no_duplicates(),
        classified(rows, keys, es, now, cfg),
        0 <= i < keys.len(),
        entry_at(es, i).data is None,
        entry_at(es, i).last_mongo_fetch is None,
        found_value(fs, keys[i], fs.len() as int) is None,
        cfg.crawler_prevent_ms == 0,
    ensures
        pick_queried(rows, rows.len() as int).contains(keys[i]),
        pick_not_found(rows, fs, rows.len() as int).contains(keys[i]),
        should_trigger(fresh, now, cfg),
{
    assert(rows_keys(rows)[i] == rows[i].key@);
    lemma_pick_queried(rows, rows.len() as int, keys[i]);
    lemma_pick_not_found(rows, fs, rows.len() as int, keys[i]);
}

/// Once a call has recorded a trigger for a key, a later call whose re-read sees that
/// bookkeeping applied to the entry does not trigger the key again while the backfill
/// window has not passed since.
pub proof fn lemma_reread_suppresses_duplicate_trigger(
    first: InflightUpdate,
    before: CacheEntry,
    fresh: CacheEntry,
    now: u64,
    cfg: Config,
)
    requires
        first.last_crawler_send is Some,
        inflight_applied(fresh, before, first),
        !window_passed(now, first.last_crawler_send, cfg.crawler_prevent_ms),
    ensures
        !should_trigger(fresh, now, cfg),
{
}

/// A key whose entry holds what a write-through of `v` left resolves to `v` again, without
/// reaching the source-of-truth store or the backfill service.
pub proof fn lemma_idempotent_reresolution(
    v: Seq<char>,
    rows: Seq<KeyState>,
    keys: Seq<Seq<char>>,
    es: Seq<CacheEntry>,
    now: u64,
    cfg: Config,
    fs: Seq<(Seq<char>, Seq<char>)>,
    after: Seq<KeyState>,
    i: int,
)
    requires
        keys.no_duplicates(),
        classified(rows, keys, es, now, cfg),
        absorbed(after, rows, fs),
        0 <= i < keys.len(),
        holds_written(entry_at(es, i), v),
    ensures
        !pick_queried(rows, rows.len() as int).contains(keys[i]),
        !pick_not_found(rows, fs, rows.len() as int).contains(keys[i]),
        !pick_suppressed(rows, rows.len() as int).contains(keys[i]),
        lookup_value(after, keys[i], after.len() as int) == Some(v),
{
    lemma_cache_hit_short_circuit(rows, keys, es, now, cfg, fs, after, i);
}

/// The keys handed to the source-of-truth store are distinct, and a key of the batch is
/// among them iff its entry holds no value and its source window has passed.
pub proof fn lemma_source_query_exact(
    rows: Seq<KeyState>,
    keys: Seq<Seq<char>>,
    es: Seq<CacheEntry>,
    now: u64,
    cfg: Config,
)
    requires
        keys.no_duplicates(),
        classified(rows, keys, es, now, cfg),
    ensures
        pick_queried(rows, rows.len() as int).no_duplicates(),
        forall|k: Seq<char>|
            #[trigger] pick_queried(rows, rows.len() as int).contains(k) <==> exists|i: int|
                0 <= i < keys.len() && keys[i] == k && is_query_candidate(
                    entry_at(es, i),
                    now,
                    cfg.mongo_prevent_ms,
                ),
{
    lemma_distinct_rows(rows);
    assert(rows.len() == keys.len()) by {
        assert(rows_keys(rows).len() == rows.len());
    }
    lemma_pick_queried_distinct(rows, rows.len() as int);
    assert forall|k: Seq<char>|
        #[trigger] pick_queried(rows, rows.len() as int).contains(k) <==> exists|i: int|
            0 <= i < keys.len() && keys[i] == k && is_query_candidate(
                entry_at(es, i),
                now,
                cfg.mongo_prevent_ms,
            ) by {
        lemma_pick_queried(rows, rows.len() as int, k);
        if pick_queried(rows, rows.len() as int).contains(k) {
            let j = choose|j: int| 0 <= j < rows.len() && (#[trigger] rows[j]).queried && rows[j].key@ == k;
            assert(rows_keys(rows)[j] == rows[j].key@);
        }
        if exists|i: int|
            0 <= i < keys.len() && keys[i] == k && is_query_candidate(
                entry_at(es, i),
                now,
                cfg.mongo_prevent_ms,
            ) {
            let i = choose|i: int|
                0 <= i < keys.len() && keys[i] == k && is_query_candidate(
                    entry_at(es, i),
                    now,
                    cfg.mongo_prevent_ms,
                );
            assert(rows_keys(rows)[i] == rows[i].key@);
            assert(rows[i].queried);
        }
    }
}

proof fn lemma_pick_queried_distinct(rows: Seq<KeyState>, n: int)
    requires
        0 <= n <= rows.len(),
        distinct_rows(rows),
    ensures
        pick_queried(rows, n).no_duplicates(),
    decreases n,
{
    if n > 0 {
        lemma_pick_queried_distinct(rows, n - 1);
        let p = pick_queried(rows, n - 1);
        if rows[n - 1].queried {
            lemma_pick_queried(rows, n - 1, rows[n - 1].key@);
            if p.contains(rows[n - 1].key@) {
                let j = choose|j: int|
                    0 <= j < n - 1 && (#[trigger] rows[j]).queried && rows[j].key@ == rows[n - 1].key@;
                assert(rows[j].key@ != rows[n - 1].key@);
            }
            let q = pick_queried(rows, n);
            assert forall|a: int, b: int| 0 <= a < q.len() && 0 <= b < q.len() && a != b implies q[a] != q[b] by {
                if a < p.len() && b < p.len() {
                    assert(q[a] == p[a] && q[b] == p[b]);
                } else if a < p.len() {
                    assert(q[a] == p[a]);
                    assert(p.contains(q[a]));
                } else if b < p.len() {
                    assert(q[b] == p[b]);
                    assert(p.contains(q[b]));
                }
            }
        }
    }
}

} // verus!
