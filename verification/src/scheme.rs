//! Schemes and their namespaces.

pub mod null;

use vstd::prelude::*;

verus! {

/// A namespace in which schemes are looked up.
#[derive(Clone, Copy, Debug, PartialEq, Eq, Structural)]
pub struct SchemeNamespace {
    /// Its number.
    pub id: usize,
}

impl SchemeNamespace {
    /// The namespace with the given number.
    pub fn new(id: usize) -> (namespace: Self)
        ensures
            namespace.id == id,
    {
        SchemeNamespace { id }
    }
}

} // verus!
