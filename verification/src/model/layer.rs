//! Layers: the partitions each stage of the pipeline holds.

use crate::model::types::{LayerType, PartitionId};
use vstd::prelude::*;

verus! {

/// A layer of the pipeline and the partitions it holds.
#[derive(Debug)]
pub struct Layer {
    pub layer_type: LayerType,
    pub partitions: Vec<PartitionId>,
}

impl Layer {
    /// An empty layer of the given kind.
    pub fn new(layer_type: LayerType) -> (r: Layer)
        ensures
            r.layer_type == layer_type,
            r.partitions@.len() == 0,
    {
        Layer { layer_type, partitions: Vec::new() }
    }
}

} // verus!
