//! The process-wide index store: one atomically replaceable reference to the
//! current snapshot.

use vstd::prelude::*;

use std::sync::Arc;

use arc_swap::ArcSwap;

use crate::models::{FileInfo, FileView};
use crate::record::CrawlEntry;
use crate::snapshot::{keys_unique, normalized, search_result, views, Entries, IndexSnapshot};
use crate::text::{lowercase, trim_text};

verus! {

/// The current snapshot of the index, shared by every reader that loaded it
/// and replaced as a whole when a build is published. The cell is arc_swap's
/// `ArcSwap`, whose default strategy type Verus cannot be told of, so the
/// struct is opaque and its three operations below are trusted.
#[verifier::external_body]
pub struct IndexStore {
    current: ArcSwap<IndexSnapshot>,
}

impl IndexStore {
    /// Relies on `ArcSwap::from_pointee`: a cell holding `snap`.
    #[verifier::external_body]
    fn make_cell(snap: IndexSnapshot) -> IndexStore {
        IndexStore { current: ArcSwap::from_pointee(snap) }
    }

    /// Relies on `ArcSwapAny::store`, which replaces the held reference in
    /// one atomic step; readers that loaded the previous one keep it.
    #[verifier::external_body]
    fn store_cell(&self, snap: IndexSnapshot) {
        self.current.store(Arc::new(snap))
    }

    /// Relies on `ArcSwapAny::load_full`, which copies the held reference
    /// atomically with respect to concurrent stores.
    #[verifier::external_body]
    fn load_cell(&self) -> Arc<IndexSnapshot> {
        self.current.load_full()
    }

    /// A store whose current snapshot is empty.
    pub fn new() -> IndexStore {
        IndexStore::make_cell(IndexSnapshot::new())
    }

    /// Makes `snap` the current snapshot in one indivisible step. Readers
    /// that loaded the previous one keep it.
    pub fn publish(&self, snap: IndexSnapshot) {
        self.store_cell(snap)
    }

    /// The snapshot current at the instant of the call.
    pub fn current_snapshot(&self) -> Arc<IndexSnapshot> {
        self.load_cell()
    }

    /// Builds a snapshot over the crawl results of the roots, off to the side,
    /// and publishes it.
    pub fn build_index(&self, roots: &Vec<Vec<CrawlEntry>>) {
        let snap = IndexSnapshot::from_roots(roots);
        self.publish(snap);
    }

    /// Searches the snapshot current at the call for `query`. A blank query
    /// is answered with nothing before the store is read. The whole answer
    /// comes from one snapshot, whatever builds are published meanwhile.
    pub fn search_files(&self, query: &str) -> (r: Vec<FileInfo>)
        ensures
            normalized(query@).len() == 0 ==> r@.len() == 0,
            exists|s: Entries| keys_unique(s) && views(r@) == #[trigger] search_result(s, query@),
    {
        let q = lowercase(trim_text(query));
        if q.as_str().is_empty() {
            let out: Vec<FileInfo> = Vec::new();
            assert(views(out@) =~= search_result(Seq::empty(), query@));
            assert(keys_unique(Seq::<(u128, FileView)>::empty()));
            return out;
        }
        let snap = self.current_snapshot();
        let out = snap.find(q.as_str());
        assert(views(out@) == search_result(snap@, query@));
        out
    }
}

} // verus!
