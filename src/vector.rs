//! The stored unit: an embedding whose components are kept as the bit
//! patterns of single-precision floats, with optional key/value tags.

use std::collections::HashMap;
use vstd::prelude::*;

verus! {

/// An embedding vector. Each component is the IEEE-754 bit pattern of an
/// `f32`; the tags in `metadata` are not part of the segment layout.
#[derive(Debug, Clone)]
pub struct Vector {
    pub data: Vec<u32>,
    pub metadata: HashMap<String, String>,
}

impl View for Vector {
    type V = Seq<u32>;

    /// A vector is seen as its components.
    open spec fn view(&self) -> Seq<u32> {
        self.data@
    }
}

/// The components of each vector of `vs`, in order.
pub open spec fn vectors_view(vs: Seq<Vector>) -> Seq<Seq<u32>> {
    vs.map_values(|v: Vector| v@)
}

impl Vector {
    /// A vector with the given components and no tags.
    pub fn new(data: Vec<u32>) -> (r: Vector)
        ensures
            r.data == data,
            r.metadata@ == Map::<String, String>::empty(),
    {
        Vector { data, metadata: HashMap::new() }
    }

    /// A vector with the given components and tags.
    pub fn with_metadata(data: Vec<u32>, metadata: HashMap<String, String>) -> (r: Vector)
        ensures
            r.data == data,
            r.metadata == metadata,
    {
        Vector { data, metadata }
    }

    /// The number of components.
    pub fn dimension(&self) -> (r: usize)
        ensures
            r == self@.len(),
    {
        self.data.len()
    }
}

} // verus!
