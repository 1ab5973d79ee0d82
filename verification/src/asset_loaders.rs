//! Asset loaders that read a navigation mesh from a file.
use vstd::prelude::*;

verus! {

/// Loader of a navigation mesh from a file in the `mesh 2` format of Polyanya.
#[derive(Debug, Clone, Copy)]
pub struct NavMeshPolyanyaLoader;

impl Default for NavMeshPolyanyaLoader {
    /// The loader has no settings.
    fn default() -> (r: Self)
        ensures
            r == NavMeshPolyanyaLoader,
    {
        NavMeshPolyanyaLoader
    }
}

impl NavMeshPolyanyaLoader {
    /// The file extensions the loader reads: only `polyanya.mesh`.
    pub fn extensions(&self) -> (r: [&'static str; 1])
        ensures
            r@.len() == 1,
            r@[0]@ == "polyanya.mesh"@,
    {
        ["polyanya.mesh"]
    }
}

} // verus!
