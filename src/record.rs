//! Turning crawled filesystem entries into index records and their keys.

use vstd::prelude::*;

use crate::models::{date_text, file_view, modification_text, EntryMetadata, FileInfo, FileView};
use crate::text::lower_of;

use rayon::prelude::{IntoParallelRefIterator, ParallelIterator};

verus! {

/// One regular file found by a crawl, as read from the filesystem.
#[derive(Debug, Clone)]
pub struct CrawlEntry {
    /// The absolute path at the time of the crawl.
    pub path: String,
    /// The file name, or `None` where it could not be decoded as text.
    pub name: Option<String>,
    /// The metadata, or `None` where it could not be read.
    pub metadata: Option<EntryMetadata>,
}

/// What `blake3::hash` returns for the UTF-8 encoding of these characters.
pub uninterp spec fn blake3_digest(s: Seq<char>) -> Seq<u8>;

/// Relies on `blake3::hash` over the bytes of `s`, and `Hash::as_bytes`,
/// which gives its 32 bytes.
#[verifier::external_body]
fn name_digest(s: &str) -> (r: [u8; 32])
    ensures
        r@ == blake3_digest(s@),
{
    *blake3::hash(s.as_bytes()).as_bytes()
}

/// The number whose little-endian bytes are `b`.
pub open spec fn le_value(b: Seq<u8>) -> nat
    decreases b.len(),
{
    if b.len() == 0 {
        0
    } else {
        b[0] as nat + 256 * le_value(b.subrange(1, b.len() as int))
    }
}

pub open spec fn pow256(n: nat) -> nat
    decreases n,
{
    if n == 0 {
        1
    } else {
        256 * pow256((n - 1) as nat)
    }
}

proof fn lemma_le_value_bound(b: Seq<u8>)
    ensures
        le_value(b) < pow256(b.len()),
    decreases b.len(),
{
    if b.len() > 0 {
        let rest = b.subrange(1, b.len() as int);
        lemma_le_value_bound(rest);
        assert(pow256(b.len()) == 256 * pow256(rest.len()));
        assert(le_value(b) < pow256(b.len())) by (nonlinear_arith)
            requires
                le_value(b) == b[0] as nat + 256 * le_value(rest),
                b[0] < 256,
                le_value(rest) < pow256(rest.len()),
                pow256(b.len()) == 256 * pow256(rest.len()),
        ;
    }
}

proof fn lemma_pow256_mono(m: nat, n: nat)
    requires
        m <= n,
    ensures
        pow256(m) <= pow256(n),
    decreases n,
{
    if m < n {
        lemma_pow256_mono(m, (n - 1) as nat);
    }
}

/// The lookup key of a lowercased name: the first 16 bytes of its BLAKE3
/// digest, read as a little-endian number.
pub open spec fn key_of(lower: Seq<char>) -> u128 {
    le_value(blake3_digest(lower).subrange(0, 16)) as u128
}

/// The key that a digest gives: its first 16 bytes as a little-endian number.
pub fn digest_key(d: &[u8; 32]) -> (r: u128)
    ensures
        r == le_value(d@.subrange(0, 16)),
{
    let ghost b = d@.subrange(0, 16);
    proof {
        reveal_with_fuel(pow256, 17);
        assert(pow256(16) == 0x1_0000_0000_0000_0000_0000_0000_0000_0000);
    }
    let mut acc: u128 = 0;
    let mut i: usize = 16;
    while i > 0
        invariant
            i <= 16,
            acc as nat == le_value(d@.subrange(i as int, 16)),
            acc < pow256((16 - i) as nat),
            pow256(16) == 0x1_0000_0000_0000_0000_0000_0000_0000_0000,
        decreases i,
    {
        let ghost tail = d@.subrange(i as int, 16);
        let ghost next = d@.subrange(i - 1, 16);
        assert(next.subrange(1, next.len() as int) =~= tail);
        proof {
            lemma_pow256_mono((17 - i) as nat, 16);
        }
        assert(pow256((17 - i) as nat) == 256 * pow256((16 - i) as nat));
        assert(d[i - 1] as nat + 256 * acc < pow256((17 - i) as nat)) by (nonlinear_arith)
            requires
                acc < pow256((16 - i) as nat),
                d[i - 1] < 256,
                pow256((17 - i) as nat) == 256 * pow256((16 - i) as nat),
        ;
        acc = d[i - 1] as u128 + 256 * acc;
        i = i - 1;
    }
    assert(d@.subrange(0, 16) =~= b);
    acc
}

/// Computes [`key_of`] for a lowercased name.
pub fn name_key(lower: &str) -> (r: u128)
    ensures
        r == key_of(lower@),
{
    let d = name_digest(lower);
    digest_key(&d)
}

/// The key and record that an entry yields: none where its name could not
/// be decoded or its metadata not read.
pub open spec fn record_of(e: CrawlEntry) -> Option<(u128, FileView)> {
    match (e.name, e.metadata) {
        (Some(n), Some(m)) => Some(
            (
                key_of(lower_of(n@)),
                file_view(n@, m.size, date_text(m.modified_secs), e.path@, "file"@),
            ),
        ),
        _ => None,
    }
}

/// The value of a built record with its key.
pub open spec fn keyed_view(o: Option<(u128, FileInfo)>) -> Option<(u128, FileView)> {
    match o {
        Some((k, f)) => Some((k, f@)),
        None => None,
    }
}

/// Builds the record of one crawled entry, keyed by its lowercased name.
pub fn build_record(entry: &CrawlEntry) -> (r: Option<(u128, FileInfo)>)
    ensures
        keyed_view(r) == record_of(*entry),
{
    match (&entry.name, &entry.metadata) {
        (Some(name), Some(metadata)) => {
            let modification_date = modification_text(metadata.modified_secs);
            let record = FileInfo::new(
                name.clone(),
                metadata.size,
                modification_date,
                entry.path.clone(),
                "file".to_string(),
            );
            let key = name_key(record.lower_name.as_str());
            Some((key, record))
        },
        _ => None,
    }
}

/// Relies on rayon's `par_iter` over a slice with `map` and `collect` into a
/// `Vec`, which applies `build_record` to every entry and keeps the order.
#[verifier::external_body]
pub(crate) fn build_records_parallel(entries: &Vec<CrawlEntry>) -> (r: Vec<Option<(u128, FileInfo)>>)
    ensures
        r@.len() == entries@.len(),
        forall|i: int| 0 <= i < r@.len() ==> keyed_view(#[trigger] r@[i]) == record_of(entries@[i]),
{
    entries.par_iter().map(build_record).collect()
}

} // verus!
