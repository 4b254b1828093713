use vstd::prelude::*;
use crate::cost::CostFunction;
use crate::layer::LayerEnum;

verus! {

/// A feed-forward network: an ordered chain of layers (index 0 is the input
/// layer) and the cost function it trains against.
///
/// Chaining is the constructing caller's responsibility: each layer must
/// emit exactly as many values as the next one expects.
#[derive(Clone, Debug, PartialEq, Eq)]
pub struct Network {
    pub layers: Vec<LayerEnum>,
    pub cost_function: CostFunction,
}

impl Network {
    /// Every layer's shape invariant holds.
    pub open spec fn wf(self) -> bool {
        forall|i: int| 0 <= i < self.layers.len() ==> (#[trigger] self.layers[i]).wf()
    }

    /// Builds an empty network over the given cost function.
    pub fn new(cost_function: CostFunction) -> (result: Network)
        ensures
            result.layers.len() == 0,
            result.cost_function == cost_function,
            result.wf(),
    {
        Network { layers: Vec::new(), cost_function }
    }

    /// Appends a layer to the end of the chain.
    pub fn add_layer(&mut self, layer: LayerEnum)
        ensures
            final(self).layers@ == old(self).layers@.push(layer),
            final(self).cost_function == old(self).cost_function,
            old(self).wf() && layer.wf() ==> final(self).wf(),
    {
        self.layers.push(layer);
    }

    /// The ordered layer sizes, for shape validation by callers.
    pub fn shape(&self) -> (result: Vec<usize>)
        requires
            self.wf(),
        ensures
            result.len() == self.layers.len(),
            forall|i: int|
                0 <= i < self.layers.len() ==> result[i] == (#[trigger] self.layers[i]).spec_size(),
    {
        let mut result: Vec<usize> = Vec::new();
        let mut i: usize = 0;
        while i < self.layers.len()
            invariant
                self.wf(),
                i <= self.layers.len(),
                result.len() == i,
                forall|k: int|
                    0 <= k < i ==> result[k] == (#[trigger] self.layers@[k]).spec_size(),
            decreases self.layers.len() - i,
        {
            result.push(self.layers[i].size());
            i = i + 1;
        }
        result
    }
}

} // verus!
