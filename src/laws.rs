//! What holds of every build and every search, stated over the models of
//! `snapshot` and `record`.

use vstd::prelude::*;

use crate::models::FileView;
use crate::record::{key_of, record_of, CrawlEntry};
use crate::snapshot::{
    keys_unique, lemma_merge_keeps, lemma_merge_last, lemma_merge_origin, lemma_merge_present,
    lemma_merge_unique, lookup, matching, normalized, records_of, roots_index, search_result,
    Entries,
};
use crate::text::{has_substring, lower_of};

verus! {

/// The entry at `(r2, e2)` is built after the one at `(r, e)`.
pub open spec fn built_after(r: int, e: int, r2: int, e2: int) -> bool {
    r2 > r || (r2 == r && e2 > e)
}

/// No entry built after `(r, e)` yields a record under key `k`.
pub open spec fn none_later_with_key(roots: Seq<Vec<CrawlEntry>>, r: int, e: int, k: u128) -> bool {
    forall|r2: int, e2: int|
        0 <= r2 < roots.len() && 0 <= e2 < roots[r2]@.len() && built_after(r, e, r2, e2)
            ==> !(#[trigger] record_of(roots[r2]@[e2]) matches Some((k2, _)) && k2 == k)
}

/// Some entry of the crawl yields a record under key `k`.
pub open spec fn indexed_with_key(roots: Seq<Vec<CrawlEntry>>, k: u128) -> bool {
    exists|r: int, e: int|
        0 <= r < roots.len() && 0 <= e < roots[r]@.len() && (#[trigger] record_of(roots[r]@[e])
            matches Some((k2, _)) && k2 == k)
}

/// Every snapshot a build produces holds each key at most once.
pub proof fn lemma_roots_unique(roots: Seq<Vec<CrawlEntry>>)
    ensures
        keys_unique(roots_index(roots)),
    decreases roots.len(),
{
    if roots.len() > 0 {
        lemma_roots_unique(roots.drop_last());
        lemma_merge_unique(roots_index(roots.drop_last()), records_of(roots.last()@));
    }
}

proof fn lemma_roots_last(roots: Seq<Vec<CrawlEntry>>, r: int, e: int, k: u128, v: FileView)
    requires
        0 <= r < roots.len(),
        0 <= e < roots[r]@.len(),
        record_of(roots[r]@[e]) == Some((k, v)),
        none_later_with_key(roots, r, e, k),
    ensures
        lookup(roots_index(roots), k) == Some(v),
    decreases roots.len(),
{
    let front = roots.drop_last();
    let last = roots.len() - 1;
    let items = records_of(roots.last()@);
    lemma_roots_unique(front);
    if r == last {
        assert forall|j2: int| e < j2 < items.len() implies !(#[trigger] items[j2] matches Some((k2, _)) && k2 == k) by {
            assert(items[j2] == record_of(roots[last]@[j2]));
        }
        lemma_merge_last(roots_index(front), items, e, k, v);
    } else {
        assert forall|r2: int, e2: int|
            0 <= r2 < front.len() && 0 <= e2 < front[r2]@.len() && built_after(
                r,
                e,
                r2,
                e2,
            ) implies !(#[trigger] record_of(front[r2]@[e2]) matches Some((k2, _)) && k2 == k) by {
            assert(front[r2] == roots[r2]);
        }
        assert(front[r] == roots[r]);
        lemma_roots_last(front, r, e, k, v);
        assert forall|j: int| 0 <= j < items.len() implies !(#[trigger] items[j] matches Some((k2, _)) && k2 == k) by {
            assert(items[j] == record_of(roots[last]@[j]));
        }
        lemma_merge_keeps(roots_index(front), items, k);
    }
}

proof fn lemma_roots_present(roots: Seq<Vec<CrawlEntry>>, r: int, e: int, k: u128)
    requires
        0 <= r < roots.len(),
        0 <= e < roots[r]@.len(),
        record_of(roots[r]@[e]) matches Some((k2, _)) && k2 == k,
    ensures
        lookup(roots_index(roots), k) is Some,
    decreases roots.len(),
{
    let front = roots.drop_last();
    let last = roots.len() - 1;
    let items = records_of(roots.last()@);
    lemma_roots_unique(front);
    if r == last {
        assert(items[e] == record_of(roots[r]@[e]));
        lemma_merge_present(roots_index(front), items, e, k);
    } else {
        assert(front[r] == roots[r]);
        lemma_roots_present(front, r, e, k);
        if exists|j: int| 0 <= j < items.len() && (#[trigger] items[j] matches Some((k2, _)) && k2 == k) {
            let j = choose|j: int| 0 <= j < items.len() && (#[trigger] items[j] matches Some((k2, _)) && k2 == k);
            lemma_merge_present(roots_index(front), items, j, k);
        } else {
            lemma_merge_keeps(roots_index(front), items, k);
        }
    }
}

proof fn lemma_roots_origin(roots: Seq<Vec<CrawlEntry>>, k: u128)
    requires
        lookup(roots_index(roots), k) is Some,
    ensures
        exists|r: int, e: int|
            0 <= r < roots.len() && 0 <= e < roots[r]@.len() && #[trigger] record_of(roots[r]@[e])
                == Some((k, lookup(roots_index(roots), k)->0)),
    decreases roots.len(),
{
    if roots.len() == 0 {
        assert(lookup(Seq::<(u128, FileView)>::empty(), k) is None);
    } else {
        let front = roots.drop_last();
        let last = roots.len() - 1;
        let items = records_of(roots.last()@);
        let v = lookup(roots_index(roots), k)->0;
        lemma_roots_unique(front);
        lemma_merge_origin(roots_index(front), items, k);
        if lookup(roots_index(roots), k) == lookup(roots_index(front), k) {
            lemma_roots_origin(front, k);
            let (r, e) = choose|r: int, e: int|
                0 <= r < front.len() && 0 <= e < front[r]@.len() && #[trigger] record_of(
                    front[r]@[e],
                ) == Some((k, v));
            assert(front[r] == roots[r]);
        } else {
            let j = choose|j: int| 0 <= j < items.len() && #[trigger] items[j] == Some((k, v));
            assert(items[j] == record_of(roots[last]@[j]));
        }
    }
}

/// A rebuilt snapshot holds exactly the keys of the entries that the crawl
/// indexed, whatever the order in which it met them.
pub proof fn lemma_index_keys(roots: Seq<Vec<CrawlEntry>>, k: u128)
    ensures
        lookup(roots_index(roots), k) is Some <==> indexed_with_key(roots, k),
{
    if lookup(roots_index(roots), k) is Some {
        lemma_roots_origin(roots, k);
        let (r, e) = choose|r: int, e: int|
            0 <= r < roots.len() && 0 <= e < roots[r]@.len() && #[trigger] record_of(roots[r]@[e])
                == Some((k, lookup(roots_index(roots), k)->0));
        assert(record_of(roots[r]@[e]) matches Some((k2, _)) && k2 == k);
    }
    if indexed_with_key(roots, k) {
        let (r, e) = choose|r: int, e: int|
            0 <= r < roots.len() && 0 <= e < roots[r]@.len() && (#[trigger] record_of(
                roots[r]@[e],
            ) matches Some((k2, _)) && k2 == k);
        lemma_roots_present(roots, r, e, k);
    }
}

/// Rebuilding over crawls that found the same entries in the same order
/// yields the same snapshot: the same keys with the same records, in the
/// same order.
pub proof fn lemma_rebuild_idempotent(roots1: Seq<Vec<CrawlEntry>>, roots2: Seq<Vec<CrawlEntry>>)
    requires
        roots1.len() == roots2.len(),
        forall|r: int| 0 <= r < roots1.len() ==> #[trigger] roots1[r]@ == roots2[r]@,
    ensures
        roots_index(roots1) == roots_index(roots2),
    decreases roots1.len(),
{
    if roots1.len() > 0 {
        let f1 = roots1.drop_last();
        let f2 = roots2.drop_last();
        assert forall|r: int| 0 <= r < f1.len() implies #[trigger] f1[r]@ == f2[r]@ by {
            assert(f1[r] == roots1[r]);
            assert(f2[r] == roots2[r]);
        }
        lemma_rebuild_idempotent(f1, f2);
        assert(roots1.last()@ == roots2.last()@);
    }
}

/// After a build that indexed a file named `n`, a search whose query trims
/// and lowercases to `n` lowercased takes the exact-match path and returns
/// one record: one that the build made under the key of that name, and the
/// file's own record unless an entry built after it shares the key.
pub proof fn lemma_exact_name_found(roots: Seq<Vec<CrawlEntry>>, r: int, e: int, query: Seq<char>)
    requires
        0 <= r < roots.len(),
        0 <= e < roots[r]@.len(),
        roots[r]@[e].metadata is Some,
        roots[r]@[e].name matches Some(n) && normalized(query) == lower_of(n@),
        normalized(query).len() > 0,
    ensures
        search_result(roots_index(roots), query).len() == 1,
        exists|r2: int, e2: int|
            0 <= r2 < roots.len() && 0 <= e2 < roots[r2]@.len() && #[trigger] record_of(
                roots[r2]@[e2],
            ) == Some((key_of(normalized(query)), search_result(roots_index(roots), query)[0])),
        none_later_with_key(roots, r, e, key_of(normalized(query))) ==> record_of(roots[r]@[e])
            == Some((key_of(normalized(query)), search_result(roots_index(roots), query)[0])),
{
    let k = key_of(normalized(query));
    let s = roots_index(roots);
    assert(record_of(roots[r]@[e]) matches Some((k2, _)) && k2 == k);
    lemma_roots_present(roots, r, e, k);
    lemma_roots_origin(roots, k);
    if none_later_with_key(roots, r, e, k) {
        let v = (record_of(roots[r]@[e])->0).1;
        lemma_roots_last(roots, r, e, k, v);
    }
}

proof fn lemma_matching_contains(s: Entries, q: Seq<char>, i: int)
    requires
        0 <= i < s.len(),
        has_substring(s[i].1.lower_name, q),
    ensures
        matching(s, q).contains(s[i].1),
    decreases s.len(),
{
    let prev = matching(s.drop_last(), q);
    if i == s.len() - 1 {
        assert(matching(s, q)[prev.len() as int] == s[i].1);
    } else {
        assert(s.drop_last()[i] == s[i]);
        lemma_matching_contains(s.drop_last(), q, i);
        let j = choose|j: int| 0 <= j < prev.len() && prev[j] == s[i].1;
        assert(matching(s, q)[j] == s[i].1);
    }
}

/// A search for a non-empty piece of some record's lowercased name returns
/// that record by the substring scan, unless the piece is itself the key of
/// a record.
pub proof fn lemma_substring_found(s: Entries, i: int, query: Seq<char>)
    requires
        0 <= i < s.len(),
        normalized(query).len() > 0,
        has_substring(s[i].1.lower_name, normalized(query)),
        lookup(s, key_of(normalized(query))) is None,
    ensures
        search_result(s, query).contains(s[i].1),
{
    lemma_matching_contains(s, normalized(query), i);
}

} // verus!
