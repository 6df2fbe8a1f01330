//! NCBI taxonomy lookups with merged-identifier resolution, and the mapping of
//! a lineage onto the coarse antiSMASH taxon buckets.

pub mod cache;
pub mod classify;
pub mod codec;
pub mod entry;
pub mod error;
pub mod text;

pub use classify::{classify, Bucket};
pub use entry::TaxonEntry;
pub use error::TaxonError;
pub use cache::{CacheView, TaxonCache};
