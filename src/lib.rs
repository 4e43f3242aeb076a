//! An in-memory file index: records built from crawled filesystem entries,
//! immutable snapshots keyed by a digest of the lowercased file name, a store
//! that publishes snapshots atomically, and a search over one snapshot.

pub mod laws;
pub mod models;
pub mod record;
pub mod snapshot;
pub mod store;
pub mod text;

pub use models::{
    file_type_name, get_file_type_info, modification_text, DiskInfo, EntryMetadata, FileInfo,
    FileView,
};
pub use record::{build_record, digest_key, name_key, CrawlEntry};
pub use snapshot::IndexSnapshot;
pub use store::IndexStore;
