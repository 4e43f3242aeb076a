//! An immutable index snapshot: records in build order, unique by key, with
//! a hash map from key to position.

use vstd::prelude::*;

use std::collections::HashMap;

use crate::models::{FileInfo, FileView};
use crate::record::{build_records_parallel, key_of, keyed_view, name_key, record_of, CrawlEntry};
use crate::text::{contains_text, has_substring, lower_of, lowercase, trim_text, trimmed};

verus! {

broadcast use vstd::std_specs::hash::group_hash_axioms;

/// The model of a snapshot: keyed records in iteration order.
pub type Entries = Seq<(u128, FileView)>;

/// No key occurs twice.
pub open spec fn keys_unique(s: Entries) -> bool {
    forall|i: int, j: int| 0 <= i < j < s.len() ==> s[i].0 != s[j].0
}

/// The last position holding key `k`, or -1.
pub open spec fn slot_of(s: Entries, k: u128) -> int
    decreases s.len(),
{
    if s.len() == 0 {
        -1
    } else if s.last().0 == k {
        s.len() - 1
    } else {
        slot_of(s.drop_last(), k)
    }
}

/// The record stored under `k`.
pub open spec fn lookup(s: Entries, k: u128) -> Option<FileView> {
    if slot_of(s, k) >= 0 {
        Some(s[slot_of(s, k)].1)
    } else {
        None
    }
}

/// `s` with `v` under `k`: in place of the record with that key, or added at
/// the end.
pub open spec fn upsert(s: Entries, k: u128, v: FileView) -> Entries {
    if slot_of(s, k) >= 0 {
        s.update(slot_of(s, k), (k, v))
    } else {
        s.push((k, v))
    }
}

/// `s` with the built records in `items` put in one after another, so that
/// of two with the same key the later one stays.
pub open spec fn merge_all(s: Entries, items: Seq<Option<(u128, FileView)>>) -> Entries
    decreases items.len(),
{
    if items.len() == 0 {
        s
    } else {
        let prev = merge_all(s, items.drop_last());
        match items.last() {
            Some((k, v)) => upsert(prev, k, v),
            None => prev,
        }
    }
}

/// The records that the entries of one crawl yield, in crawl order.
pub open spec fn records_of(entries: Seq<CrawlEntry>) -> Seq<Option<(u128, FileView)>> {
    entries.map_values(|e: CrawlEntry| record_of(e))
}

/// The snapshot that a build over these roots, in order, produces.
pub open spec fn roots_index(roots: Seq<Vec<CrawlEntry>>) -> Entries
    decreases roots.len(),
{
    if roots.len() == 0 {
        Seq::empty()
    } else {
        merge_all(roots_index(roots.drop_last()), records_of(roots.last()@))
    }
}

/// The records whose lowercased name contains `q`, in iteration order.
pub open spec fn matching(s: Entries, q: Seq<char>) -> Seq<FileView>
    decreases s.len(),
{
    if s.len() == 0 {
        Seq::empty()
    } else {
        let prev = matching(s.drop_last(), q);
        if has_substring(s.last().1.lower_name, q) {
            prev.push(s.last().1)
        } else {
            prev
        }
    }
}

/// The record under `key` if there is one, else every record whose
/// lowercased name contains `q`.
pub open spec fn keyed_result(s: Entries, key: u128, q: Seq<char>) -> Seq<FileView> {
    match lookup(s, key) {
        Some(f) => seq![f],
        None => matching(s, q),
    }
}

/// The answer to the lowercased query `q`: the record under its key if there
/// is one, else every record whose lowercased name contains `q`.
pub open spec fn found(s: Entries, q: Seq<char>) -> Seq<FileView> {
    keyed_result(s, key_of(q), q)
}

/// A query with surrounding white space removed, lowercased.
pub open spec fn normalized(query: Seq<char>) -> Seq<char> {
    lower_of(trimmed(query))
}

/// The answer to `query`: nothing for a blank query, else [`found`].
pub open spec fn search_result(s: Entries, query: Seq<char>) -> Seq<FileView> {
    if normalized(query).len() == 0 {
        Seq::empty()
    } else {
        found(s, normalized(query))
    }
}

/// The values of a list of records.
pub open spec fn views(v: Seq<FileInfo>) -> Seq<FileView> {
    v.map_values(|f: FileInfo| f@)
}

pub proof fn lemma_slot_of(s: Entries, k: u128)
    ensures
        -1 <= slot_of(s, k) < s.len(),
        slot_of(s, k) >= 0 ==> s[slot_of(s, k)].0 == k,
        slot_of(s, k) < 0 ==> forall|i: int| 0 <= i < s.len() ==> s[i].0 != k,
        keys_unique(s) ==> forall|i: int| 0 <= i < s.len() && s[i].0 == k ==> slot_of(s, k) == i,
    decreases s.len(),
{
    if s.len() > 0 {
        let t = s.drop_last();
        lemma_slot_of(t, k);
        assert(forall|i: int| 0 <= i < t.len() ==> t[i] == s[i]);
        if keys_unique(s) {
            assert(keys_unique(t));
        }
    }
}

/// Putting `v` in under `k` keeps keys unique, stores `v` under `k`, and
/// leaves every other key's record as it was.
pub proof fn lemma_upsert(s: Entries, k: u128, v: FileView)
    requires
        keys_unique(s),
    ensures
        keys_unique(upsert(s, k, v)),
        lookup(upsert(s, k, v), k) == Some(v),
        forall|k2: u128| k2 != k ==> lookup(upsert(s, k, v), k2) == lookup(s, k2),
{
    let t = upsert(s, k, v);
    lemma_slot_of(s, k);
    if slot_of(s, k) < 0 {
        assert(forall|i: int| 0 <= i < s.len() ==> t[i] == s[i]);
    }
    assert(keys_unique(t));
    lemma_slot_of(t, k);
    let at = if slot_of(s, k) >= 0 { slot_of(s, k) } else { s.len() as int };
    assert(t[at].0 == k);
    assert forall|k2: u128| k2 != k implies lookup(t, k2) == lookup(s, k2) by {
        lemma_slot_of(s, k2);
        lemma_slot_of(t, k2);
        if slot_of(s, k2) >= 0 {
            assert(t[slot_of(s, k2)] == s[slot_of(s, k2)]);
        }
        if slot_of(t, k2) >= 0 {
            assert(t[slot_of(t, k2)] == s[slot_of(t, k2)]);
        }
    }
}

/// Merging keeps keys unique.
pub proof fn lemma_merge_unique(s: Entries, items: Seq<Option<(u128, FileView)>>)
    requires
        keys_unique(s),
    ensures
        keys_unique(merge_all(s, items)),
    decreases items.len(),
{
    if items.len() > 0 {
        lemma_merge_unique(s, items.drop_last());
        if let Some((k, v)) = items.last() {
            lemma_upsert(merge_all(s, items.drop_last()), k, v);
        }
    }
}

/// A key that no item carries keeps its record through a merge.
pub proof fn lemma_merge_keeps(s: Entries, items: Seq<Option<(u128, FileView)>>, k: u128)
    requires
        keys_unique(s),
        forall|j: int| 0 <= j < items.len() ==> !(#[trigger] items[j] matches Some((k2, _)) && k2 == k),
    ensures
        lookup(merge_all(s, items), k) == lookup(s, k),
    decreases items.len(),
{
    if items.len() > 0 {
        let front = items.drop_last();
        assert forall|j: int| 0 <= j < front.len() implies !(#[trigger] front[j] matches Some((k2, _)) && k2 == k) by {
            assert(front[j] == items[j]);
        }
        lemma_merge_keeps(s, front, k);
        lemma_merge_unique(s, front);
        if let Some((k1, v)) = items.last() {
            lemma_upsert(merge_all(s, front), k1, v);
        }
    }
}

/// After a merge, a key holds the record of the last item that carries it.
pub proof fn lemma_merge_last(
    s: Entries,
    items: Seq<Option<(u128, FileView)>>,
    j: int,
    k: u128,
    v: FileView,
)
    requires
        keys_unique(s),
        0 <= j < items.len(),
        items[j] == Some((k, v)),
        forall|j2: int| j < j2 < items.len() ==> !(#[trigger] items[j2] matches Some((k2, _)) && k2 == k),
    ensures
        lookup(merge_all(s, items), k) == Some(v),
    decreases items.len(),
{
    let front = items.drop_last();
    lemma_merge_unique(s, front);
    if j == items.len() - 1 {
        lemma_upsert(merge_all(s, front), k, v);
    } else {
        assert forall|j2: int| j < j2 < front.len() implies !(#[trigger] front[j2] matches Some((k2, _)) && k2 == k) by {
            assert(front[j2] == items[j2]);
        }
        assert(front[j] == items[j]);
        lemma_merge_last(s, front, j, k, v);
        if let Some((k1, v1)) = items.last() {
            lemma_upsert(merge_all(s, front), k1, v1);
        }
    }
}

/// Every key that an item carries is present after a merge.
pub proof fn lemma_merge_present(s: Entries, items: Seq<Option<(u128, FileView)>>, j: int, k: u128)
    requires
        keys_unique(s),
        0 <= j < items.len(),
        items[j] matches Some((k2, _)) && k2 == k,
    ensures
        lookup(merge_all(s, items), k) is Some,
    decreases items.len(),
{
    let front = items.drop_last();
    lemma_merge_unique(s, front);
    if let Some((k1, v1)) = items.last() {
        lemma_upsert(merge_all(s, front), k1, v1);
    }
    if j < items.len() - 1 {
        assert(front[j] == items[j]);
        lemma_merge_present(s, front, j, k);
    }
}

/// A record found after a merge was there before or came with an item.
pub proof fn lemma_merge_origin(s: Entries, items: Seq<Option<(u128, FileView)>>, k: u128)
    requires
        keys_unique(s),
        lookup(merge_all(s, items), k) is Some,
    ensures
        lookup(merge_all(s, items), k) == lookup(s, k) || exists|j: int|
            0 <= j < items.len() && #[trigger] items[j] == Some(
                (k, lookup(merge_all(s, items), k)->0),
            ),
    decreases items.len(),
{
    if items.len() > 0 {
        let front = items.drop_last();
        lemma_merge_unique(s, front);
        let prev = merge_all(s, front);
        match items.last() {
            Some((k1, v1)) => {
                lemma_upsert(prev, k1, v1);
                if k1 == k {
                    assert(items[items.len() - 1] == Some((k, v1)));
                } else {
                    lemma_merge_origin(s, front, k);
                    if lookup(prev, k) != lookup(s, k) {
                        let j = choose|j: int|
                            0 <= j < front.len() && #[trigger] front[j] == Some(
                                (k, lookup(prev, k)->0),
                            );
                        assert(items[j] == front[j]);
                    }
                }
            },
            None => {
                lemma_merge_origin(s, front, k);
                if lookup(prev, k) != lookup(s, k) {
                    let j = choose|j: int|
                        0 <= j < front.len() && #[trigger] front[j] == Some((k, lookup(prev, k)->0));
                    assert(items[j] == front[j]);
                }
            },
        }
    }
}

/// Keys, records and key positions agree.
pub open spec fn parts_wf(keys: Seq<u128>, recs: Seq<FileInfo>, slots: Map<u128, usize>) -> bool {
    &&& keys.len() == recs.len()
    &&& forall|i: int, j: int| 0 <= i < j < keys.len() ==> keys[i] != keys[j]
    &&& forall|i: int|
        0 <= i < keys.len() ==> #[trigger] slots.contains_key(keys[i]) && slots[keys[i]] == i
    &&& forall|k: u128| #[trigger]
        slots.contains_key(k) ==> slots[k] < keys.len() && keys[slots[k] as int] == k
}

pub open spec fn parts_view(keys: Seq<u128>, recs: Seq<FileInfo>) -> Entries {
    Seq::new(keys.len(), |i: int| (keys[i], recs[i]@))
}

fn upsert_parts(
    keys: &mut Vec<u128>,
    records: &mut Vec<FileInfo>,
    slots: &mut HashMap<u128, usize>,
    k: u128,
    f: FileInfo,
)
    requires
        parts_wf(old(keys)@, old(records)@, old(slots)@),
    ensures
        parts_wf(final(keys)@, final(records)@, final(slots)@),
        parts_view(final(keys)@, final(records)@) == upsert(
            parts_view(old(keys)@, old(records)@),
            k,
            f@,
        ),
{
    let ghost s = parts_view(keys@, records@);
    proof {
        lemma_slot_of(s, k);
    }
    match slots.get(&k) {
        Some(i) => {
            let i = *i;
            assert(s[i as int].0 == k);
            records.set(i, f);
            assert(parts_wf(keys@, records@, slots@));
            assert(parts_view(keys@, records@) =~= s.update(i as int, (k, f@)));
        },
        None => {
            assert(forall|i: int| 0 <= i < s.len() ==> s[i].0 != k);
            let n = keys.len();
            keys.push(k);
            records.push(f);
            slots.insert(k, n);
            assert(forall|i: int| 0 <= i < n ==> keys@[i] == old(keys)@[i]);
            assert(parts_wf(keys@, records@, slots@));
            assert(parts_view(keys@, records@) =~= s.push((k, f@)));
        },
    }
}

proof fn lemma_parts_unique(keys: Seq<u128>, recs: Seq<FileInfo>, slots: Map<u128, usize>)
    requires
        parts_wf(keys, recs, slots),
    ensures
        keys_unique(parts_view(keys, recs)),
{
}

/// An immutable index over file records, keyed by the digest of each
/// lowercased name.
pub struct IndexSnapshot {
    keys: Vec<u128>,
    records: Vec<FileInfo>,
    slots: HashMap<u128, usize>,
}

impl View for IndexSnapshot {
    type V = Entries;

    closed spec fn view(&self) -> Entries {
        parts_view(self.keys@, self.records@)
    }
}

impl IndexSnapshot {
    #[verifier::type_invariant]
    spec fn well_formed(self) -> bool {
        parts_wf(self.keys@, self.records@, self.slots@)
    }

    /// The empty snapshot.
    pub fn new() -> (r: IndexSnapshot)
        ensures
            r@ == Seq::<(u128, FileView)>::empty(),
    {
        let r = IndexSnapshot { keys: Vec::new(), records: Vec::new(), slots: HashMap::new() };
        assert(r@ =~= Seq::<(u128, FileView)>::empty());
        r
    }

    /// The snapshot that a build over the crawl results of these roots
    /// produces: each root's entries are turned into records in parallel and
    /// put in crawl order, later roots after earlier ones, so that of two
    /// records with one key the last built stays.
    pub fn from_roots(roots: &Vec<Vec<CrawlEntry>>) -> (r: IndexSnapshot)
        ensures
            r@ == roots_index(roots@),
            keys_unique(r@),
    {
        let mut snap = IndexSnapshot::new();
        let mut i: usize = 0;
        assert(roots@.take(0) =~= Seq::<Vec<CrawlEntry>>::empty());
        while i < roots.len()
            invariant
                i <= roots@.len(),
                snap@ == roots_index(roots@.take(i as int)),
            decreases roots@.len() - i,
        {
            let items = build_records_parallel(&roots[i]);
            assert(items@.map_values(|o: Option<(u128, FileInfo)>| keyed_view(o)) =~= records_of(
                roots@[i as int]@,
            ));
            assert(roots@.take(i + 1).drop_last() =~= roots@.take(i as int));
            snap = snap.merged(items);
            i = i + 1;
        }
        assert(roots@.take(i as int) =~= roots@);
        proof {
            use_type_invariant(&snap);
            lemma_parts_unique(snap.keys@, snap.records@, snap.slots@);
        }
        snap
    }

    /// The records for the lowercased query `q`: the one stored under the key
    /// of `q` if there is one, else every record whose lowercased name
    /// contains `q`, in iteration order.
    pub fn find(&self, q: &str) -> (r: Vec<FileInfo>)
        ensures
            views(r@) == found(self@, q@),
            keys_unique(self@),
    {
        self.find_keyed(name_key(q), q)
    }

    /// The record stored under `k` if there is one, else every record whose
    /// lowercased name contains `q`, in iteration order.
    pub fn find_keyed(&self, k: u128, q: &str) -> (r: Vec<FileInfo>)
        ensures
            views(r@) == keyed_result(self@, k, q@),
            keys_unique(self@),
    {
        proof {
            use_type_invariant(self);
            lemma_parts_unique(self.keys@, self.records@, self.slots@);
        }
        proof {
            lemma_slot_of(self@, k);
        }
        match self.slots.get(&k) {
            Some(i) => {
                let i = *i;
                assert(self.slots@.contains_key(k) && self.slots@[k] == i);
                assert(self@[i as int].0 == k);
                assert(slot_of(self@, k) == i);
                assert(lookup(self@, k) == Some(self.records@[i as int]@));
                let mut out: Vec<FileInfo> = Vec::new();
                out.push(self.records[i].duplicate());
                assert(views(out@) =~= keyed_result(self@, k, q@));
                out
            },
            None => {
                assert(!self.slots@.contains_key(k));
                assert(lookup(self@, k) is None);
                let mut out: Vec<FileInfo> = Vec::new();
                let mut i: usize = 0;
                let ghost s = self@;
                assert(s.take(0) =~= Seq::<(u128, FileView)>::empty());
                assert(views(out@) =~= Seq::<FileView>::empty());
                while i < self.records.len()
                    invariant
                        i <= self.records@.len(),
                        s == self@,
                        s.len() == self.records@.len(),
                        views(out@) == matching(s.take(i as int), q@),
                    decreases self.records@.len() - i,
                {
                    assert(s.take(i + 1).drop_last() =~= s.take(i as int));
                    assert(s.take(i + 1).last() == s[i as int]);
                    if contains_text(self.records[i].lower_name.as_str(), q) {
                        let ghost before = out@;
                        out.push(self.records[i].duplicate());
                        assert(views(out@) =~= views(before).push(self.records@[i as int]@));
                    }
                    i = i + 1;
                }
                assert(s.take(i as int) =~= s);
                out
            },
        }
    }

    /// The records for `query`: nothing where the query is blank once
    /// trimmed, else [`IndexSnapshot::find`] on the trimmed, lowercased query.
    pub fn search(&self, query: &str) -> (r: Vec<FileInfo>)
        ensures
            views(r@) == search_result(self@, query@),
            keys_unique(self@),
    {
        let q = lowercase(trim_text(query));
        if q.as_str().is_empty() {
            proof {
                use_type_invariant(self);
                lemma_parts_unique(self.keys@, self.records@, self.slots@);
            }
            let out: Vec<FileInfo> = Vec::new();
            assert(views(out@) =~= Seq::<FileView>::empty());
            out
        } else {
            self.find(q.as_str())
        }
    }

    /// The number of records.
    pub fn len(&self) -> (r: usize)
        ensures
            r == self@.len(),
    {
        self.keys.len()
    }

    /// This snapshot with `items` put in one after another; `None` items are
    /// skipped.
    fn merged(self, items: Vec<Option<(u128, FileInfo)>>) -> (r: IndexSnapshot)
        ensures
            r@ == merge_all(self@, items@.map_values(|o: Option<(u128, FileInfo)>| keyed_view(o))),
            keys_unique(r@),
    {
        proof {
            use_type_invariant(&self);
        }
        let ghost start = self@;
        let ghost all = items@.map_values(|o: Option<(u128, FileInfo)>| keyed_view(o));
        let IndexSnapshot { mut keys, mut records, mut slots } = self;
        let mut items = items;
        let mut rest: Vec<Option<(u128, FileInfo)>> = Vec::new();
        // Put the items in from the front: reverse them so that `pop` yields
        // the first one.
        while items.len() > 0
            invariant
                rest@.len() + items@.len() == all.len(),
                forall|j: int| 0 <= j < items@.len() ==> keyed_view(#[trigger] items@[j]) == all[j],
                forall|j: int|
                    0 <= j < rest@.len() ==> keyed_view(#[trigger] rest@[j]) == all[all.len() - 1
                        - j],
            decreases items.len(),
        {
            let o = items.pop().unwrap();
            rest.push(o);
        }
        let mut done: usize = 0;
        let total = rest.len();
        let ghost n = all.len();
        assert(n == total);
        while rest.len() > 0
            invariant
                parts_wf(keys@, records@, slots@),
                done + rest@.len() == n,
                n == all.len(),
                n <= usize::MAX,
                forall|j: int|
                    0 <= j < rest@.len() ==> keyed_view(#[trigger] rest@[j]) == all[n - 1 - j],
                parts_view(keys@, records@) == merge_all(start, all.take(done as int)),
            decreases rest.len(),
        {
            let o = rest.pop().unwrap();
            assert(keyed_view(o) == all[done as int]);
            assert(all.take(done + 1).drop_last() =~= all.take(done as int));
            match o {
                Some((k, f)) => {
                    upsert_parts(&mut keys, &mut records, &mut slots, k, f);
                },
                None => {},
            }
            done = done + 1;
        }
        assert(all.take(n as int) =~= all);
        proof {
            lemma_parts_unique(keys@, records@, slots@);
        }
        IndexSnapshot { keys, records, slots }
    }
}

} // verus!
