use vstd::prelude::*;

verus! {

/// The ways in which building, persisting or querying a taxon cache fails.
#[derive(Debug, Clone, PartialEq, Eq)]
pub enum TaxonError {
    /// The taxonomy dumps could not be read or parsed.
    Build(String),
    /// A cache file could not be read or written, or its contents are not a
    /// valid cache.
    Persistence(String),
    /// The identifier resolves to no entry.
    NotFound(i64),
    /// The lineage holds a rank value that no classification rule covers.
    InvalidAntismashTaxon(String),
}

impl TaxonError {
    /// Whether the error is one the caller can act on (a bad identifier or
    /// lineage) rather than a failure of the environment.
    pub fn is_validation(&self) -> (r: bool)
        ensures
            r == (self is NotFound || self is InvalidAntismashTaxon),
    {
        match self {
            TaxonError::NotFound(_) | TaxonError::InvalidAntismashTaxon(_) => true,
            _ => false,
        }
    }
}

} // verus!
