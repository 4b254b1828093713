use vstd::prelude::*;
use crate::conv2d::Conv2D;
use crate::conv2d::Filter;
use crate::fully_connected::FullyConnected;
use crate::input::Input;
use crate::pool::Pool2D;

verus! {

/// A layer of the network: a closed union of the supported layer kinds,
/// dispatched by pattern matching.
#[derive(Clone, Debug, PartialEq, Eq)]
pub enum LayerEnum {
    Input(Input),
    FullyConnected(FullyConnected),
    Pool2D(Pool2D),
    Conv2D(Conv2D),
}

impl LayerEnum {
    /// Shape invariant of the wrapped layer.
    pub open spec fn wf(self) -> bool {
        match self {
            LayerEnum::Input(_) => true,
            LayerEnum::FullyConnected(layer) => layer.wf(),
            LayerEnum::Pool2D(layer) => layer.wf(),
            LayerEnum::Conv2D(layer) => layer.wf(),
        }
    }

    /// Number of values the wrapped layer emits.
    pub open spec fn spec_size(self) -> int {
        match self {
            LayerEnum::Input(layer) => layer.size as int,
            LayerEnum::FullyConnected(layer) => layer.spec_size(),
            LayerEnum::Pool2D(layer) => layer.spec_size(),
            LayerEnum::Conv2D(layer) => layer.spec_size(),
        }
    }

    /// Whether the wrapped layer carries trainable parameters.
    pub open spec fn spec_trainable(self) -> bool {
        match self {
            LayerEnum::Input(_) => false,
            LayerEnum::FullyConnected(_) => true,
            LayerEnum::Pool2D(_) => false,
            LayerEnum::Conv2D(_) => true,
        }
    }

    /// Number of values the wrapped layer emits.
    pub fn size(&self) -> (result: usize)
        requires
            self.wf(),
        ensures
            result == self.spec_size(),
    {
        match self {
            LayerEnum::Input(layer) => layer.size(),
            LayerEnum::FullyConnected(layer) => layer.size(),
            LayerEnum::Pool2D(layer) => layer.size(),
            LayerEnum::Conv2D(layer) => layer.size(),
        }
    }

    /// Whether the wrapped layer carries trainable parameters.
    pub fn trainable(&self) -> (result: bool)
        ensures
            result == self.spec_trainable(),
    {
        match self {
            LayerEnum::Input(_) => false,
            LayerEnum::FullyConnected(_) => true,
            LayerEnum::Pool2D(_) => false,
            LayerEnum::Conv2D(_) => true,
        }
    }
}

/// The filter grids at position `i` of the two lists have the same shape.
pub open spec fn spec_filter_shapes_match_at(deltas: Seq<Filter>, filters: Seq<Filter>, i: int) -> bool {
    &&& deltas[i].rows == filters[i].rows
    &&& deltas[i].cols == filters[i].cols
    &&& deltas[i].values.len() == filters[i].values.len()
}

/// The two filter lists match grid for grid in shape.
pub open spec fn spec_filter_shapes_match(deltas: Seq<Filter>, filters: Seq<Filter>) -> bool {
    deltas.len() == filters.len() && forall|i: int|
        0 <= i < deltas.len() ==> #[trigger] spec_filter_shapes_match_at(deltas, filters, i)
}

/// Whether the two filter lists match grid for grid in shape.
fn filter_shapes_match(deltas: &Vec<Filter>, filters: &Vec<Filter>) -> (result: bool)
    ensures
        result == spec_filter_shapes_match(deltas@, filters@),
{
    if deltas.len() != filters.len() {
        return false;
    }
    let mut i: usize = 0;
    while i < deltas.len()
        invariant
            deltas.len() == filters.len(),
            i <= deltas.len(),
            forall|k: int| 0 <= k < i ==> #[trigger] spec_filter_shapes_match_at(
                deltas@,
                filters@,
                k,
            ),
        decreases deltas.len() - i,
    {
        let delta = &deltas[i];
        let filter = &filters[i];
        if delta.rows != filter.rows || delta.cols != filter.cols || delta.values.len()
            != filter.values.len() {
            proof {
                assert(!spec_filter_shapes_match_at(deltas@, filters@, i as int));
            }
            return false;
        }
        i = i + 1;
    }
    true
}

/// A per-layer, per-sample gradient contribution.  Each trainable layer
/// kind has a gradient shape of its own; non-trainable layers contribute
/// `Empty`.  Pairing a gradient with a layer of another kind is a caller
/// fault, detectable with [`BackpropagationResult::matches_layer`].
#[derive(Clone, Debug, PartialEq, Eq)]
pub enum BackpropagationResult {
    Empty,
    FullyConnected { delta_weights: Vec<u64>, delta_biases: Vec<u64> },
    Conv2D { delta_filters: Vec<Filter> },
}

impl BackpropagationResult {
    /// The gradient fits the layer: it is of the layer's kind and every
    /// component has the shape of the parameter it updates.
    pub open spec fn spec_matches_layer(self, layer: LayerEnum) -> bool {
        match (self, layer) {
            (BackpropagationResult::Empty, LayerEnum::Input(_)) => true,
            (BackpropagationResult::Empty, LayerEnum::Pool2D(_)) => true,
            (
                BackpropagationResult::FullyConnected { delta_weights, delta_biases },
                LayerEnum::FullyConnected(inner),
            ) => delta_weights.len() == inner.weights.len() && delta_biases.len()
                == inner.biases.len(),
            (BackpropagationResult::Conv2D { delta_filters }, LayerEnum::Conv2D(inner)) => {
                spec_filter_shapes_match(delta_filters@, inner.filters@)
            },
            _ => false,
        }
    }

    /// Whether this gradient fits `layer`; applying one that does not is a
    /// caller fault.
    pub fn matches_layer(&self, layer: &LayerEnum) -> (result: bool)
        ensures
            result == self.spec_matches_layer(*layer),
    {
        match (self, layer) {
            (BackpropagationResult::Empty, LayerEnum::Input(_)) => true,
            (BackpropagationResult::Empty, LayerEnum::Pool2D(_)) => true,
            (
                BackpropagationResult::FullyConnected { delta_weights, delta_biases },
                LayerEnum::FullyConnected(inner),
            ) => delta_weights.len() == inner.weights.len() && delta_biases.len()
                == inner.biases.len(),
            (BackpropagationResult::Conv2D { delta_filters }, LayerEnum::Conv2D(inner)) => {
                filter_shapes_match(delta_filters, &inner.filters)
            },
            _ => false,
        }
    }
}

} // verus!
