//! Auxiliary payload types of the request surface.

use vstd::prelude::*;

verus! {

/// Opaque metadata bytes handed through to the external minting
/// collaborator when a child asset is produced; the core never reads them.
#[derive(Debug, PartialEq, Eq)]
pub struct Metadata(pub Vec<u8>);

} // verus!
