//! The trust-info data model.
//!
//! An override document records, per ancestor recipe and per non-core
//! processor, a fingerprint of the trusted content.  This crate only
//! carries these records and assembles the per-level basis for them; it
//! never computes hashes or touches version control state.

use vstd::prelude::*;

use crate::recipes::Recipe;

verus! {

/// One recorded fingerprint: the repository commit, the path relative to
/// the repository, and the content hash.  Immutable once recorded.
#[derive(Debug, PartialEq, Eq)]
pub struct TrustBlock {
    pub git_hash: String,
    pub path: String,
    pub sha256_hash: String,
}

/// Trust fingerprints carried by an override: non-core processors by name
/// or path, and every ancestor recipe by identifier.
#[derive(Debug, PartialEq, Eq)]
pub struct ParentRecipeTrust {
    pub non_core_processors: Vec<(String, TrustBlock)>,
    pub parent_recipes: Vec<(String, TrustBlock)>,
}

/// Enumerates, root to child, each chain level's identifier and the path
/// its document was loaded from.  This pairing is the basis an external
/// override-authoring step uses to fill in trust fingerprints.
pub fn collect_chain_fingerprints(chain: &Vec<Recipe>, paths: &Vec<String>) -> (r: Vec<
    (String, String),
>)
    requires
        chain@.len() == paths@.len(),
    ensures
        r@.len() == chain@.len(),
        forall|i: int|
            0 <= i < r@.len() ==> (#[trigger] r@[i]).0@ == chain@[i].identifier@ && r@[i].1@
                == paths@[i]@,
{
    let n = chain.len();
    let mut r: Vec<(String, String)> = Vec::new();
    let mut i: usize = 0;
    while i < n
        invariant
            n == chain@.len(),
            n == paths@.len(),
            i <= n,
            r@.len() == i,
            forall|j: int|
                0 <= j < i ==> (#[trigger] r@[j]).0@ == chain@[j].identifier@ && r@[j].1@
                    == paths@[j]@,
        decreases n - i,
    {
        r.push((chain[i].identifier.clone(), paths[i].clone()));
        i = i + 1;
    }
    r
}

} // verus!
