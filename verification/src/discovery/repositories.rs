//! Repository listings.
use vstd::prelude::*;

verus! {

/// One repository as a listing shows it.
#[derive(Debug, Clone)]
pub struct RepositorySnapshot {
    pub name: String,
    pub enabled: bool,
    pub url: Option<String>,
}

/// The repositories found by discovery.
#[derive(Debug, Clone)]
pub struct RepositoryDiscovery {
    pub repositories: Vec<RepositorySnapshot>,
}

impl RepositoryDiscovery {
    /// A discovery that has found nothing yet.
    pub fn new() -> (d: Self)
        ensures
            d.repositories@.len() == 0,
    {
        RepositoryDiscovery { repositories: Vec::new() }
    }
}

} // verus!
