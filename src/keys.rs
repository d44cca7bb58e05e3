use vstd::prelude::*;

use crate::domain::keys_view;

verus! {

/// The distinct keys among the first `n` of `ks`, in order of first occurrence.
pub open spec fn dedup(ks: Seq<Seq<char>>, n: int) -> Seq<Seq<char>>
    decreases n,
{
    if n <= 0 {
        Seq::empty()
    } else {
        let p = dedup(ks, n - 1);
        if p.contains(ks[n - 1]) {
            p
        } else {
            p.push(ks[n - 1])
        }
    }
}

/// Whether `k` occurs in `v`.
pub fn contains_key(v: &Vec<String>, k: &String) -> (r: bool)
    ensures
        r == keys_view(v@).contains(k@),
{
    let mut j: usize = 0;
    while j < v.len()
        invariant
            j <= v.len(),
            forall|l: int| 0 <= l < j ==> v@[l]@ != k@,
        decreases v.len() - j,
    {
        if v[j].eq(k) {
            assert(keys_view(v@)[j as int] == k@);
            return true;
        }
        j += 1;
    }
    assert forall|l: int| 0 <= l < keys_view(v@).len() implies keys_view(v@)[l] != k@ by {
        assert(keys_view(v@)[l] == v@[l]@);
    }
    false
}

/// The distinct keys of `urls`, in order of first occurrence.
pub fn distinct_keys(urls: &Vec<String>) -> (r: Vec<String>)
    ensures
        keys_view(r@) == dedup(keys_view(urls@), urls@.len() as int),
{
    let mut r: Vec<String> = Vec::new();
    let mut i: usize = 0;
    while i < urls.len()
        invariant
            i <= urls.len(),
            keys_view(r@) == dedup(keys_view(urls@), i as int),
        decreases urls.len() - i,
    {
        let ghost before = r@;
        let present = contains_key(&r, &urls[i]);
        if !present {
            r.push(urls[i].clone());
            assert(keys_view(r@) =~= keys_view(before).push(urls@[i as int]@));
        }
        assert(keys_view(urls@)[i as int] == urls@[i as int]@);
        i += 1;
    }
    r
}

/// Each distinct key occurs once.
pub proof fn lemma_dedup_distinct(ks: Seq<Seq<char>>, n: int)
    requires
        n <= ks.len(),
    ensures
        dedup(ks, n).no_duplicates(),
        forall|k: Seq<char>| dedup(ks, n).contains(k) <==> (exists|i: int| 0 <= i < n && ks[i] == k),
    decreases n,
{
    if n > 0 {
        lemma_dedup_distinct(ks, n - 1);
        let p = dedup(ks, n - 1);
        assert forall|k: Seq<char>| dedup(ks, n).contains(k) implies (exists|i: int| 0 <= i < n && ks[i] == k) by {
            if p.contains(k) {
                let i = choose|i: int| 0 <= i < n - 1 && ks[i] == k;
                assert(0 <= i < n && ks[i] == k);
            } else {
                assert(ks[n - 1] == k);
            }
        }
        assert forall|k: Seq<char>| (exists|i: int| 0 <= i < n && ks[i] == k) implies dedup(ks, n).contains(k) by {
            let i = choose|i: int| 0 <= i < n && ks[i] == k;
            if i < n - 1 {
                assert(p.contains(k));
                if !p.contains(ks[n - 1]) {
                    let j = choose|j: int| 0 <= j < p.len() && p[j] == k;
                    assert(dedup(ks, n)[j] == k);
                }
            } else if !p.contains(ks[n - 1]) {
                assert(dedup(ks, n)[p.len() as int] == k);
            }
        }
    }
}

} // verus!
