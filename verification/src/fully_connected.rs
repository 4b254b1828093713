use vstd::prelude::*;
use crate::activation::ActivationFunction;

verus! {

/// Fully connected layer: a weight matrix, a bias vector and an activation
/// function.  All scalars are binary64 bit patterns.
///
/// The weight matrix has one row per output (`biases.len()` rows) and one
/// column per input (`previous_layer_size` columns), flattened column-major:
/// the weight of input `c` toward output `r` sits at `c * biases.len() + r`.
#[derive(Clone, Debug, PartialEq, Eq)]
pub struct FullyConnected {
    pub previous_layer_size: usize,
    pub weights: Vec<u64>,
    pub biases: Vec<u64>,
    pub activation_function: ActivationFunction,
}

impl FullyConnected {
    /// Shape invariant: the weight matrix is exactly `biases.len()` by
    /// `previous_layer_size`.
    pub open spec fn wf(self) -> bool {
        self.weights.len() == self.biases.len() * self.previous_layer_size
    }

    /// Number of values the layer emits.
    pub open spec fn spec_size(self) -> int {
        self.biases.len() as int
    }

    /// Index of the weight of input `c` toward output `r`.
    pub open spec fn spec_weight_index(self, r: int, c: int) -> int {
        c * self.biases.len() + r
    }

    /// Builds a fully connected layer from its dimensions, its activation
    /// function and the initial weight values (drawn by the caller, one per
    /// matrix entry, in the matrix's column-major order).  Biases start at
    /// the encoding of zero.
    pub fn new(
        previous_layer_size: usize,
        layer_size: usize,
        activation_function: ActivationFunction,
        initial_weights: Vec<u64>,
    ) -> (result: FullyConnected)
        requires
            initial_weights.len() == layer_size * previous_layer_size,
        ensures
            result.previous_layer_size == previous_layer_size,
            result.activation_function == activation_function,
            result.weights == initial_weights,
            result.biases.len() == layer_size,
            forall|i: int| 0 <= i < layer_size ==> result.biases[i] == 0u64,
            result.wf(),
    {
        let mut biases: Vec<u64> = Vec::new();
        let mut i: usize = 0;
        while i < layer_size
            invariant
                i <= layer_size,
                biases.len() == i,
                forall|k: int| 0 <= k < i ==> biases[k] == 0u64,
            decreases layer_size - i,
        {
            biases.push(0u64);
            i = i + 1;
        }
        FullyConnected { previous_layer_size, weights: initial_weights, biases, activation_function }
    }

    /// A fully connected layer is trainable.
    pub fn trainable(&self) -> (result: bool)
        ensures
            result == true,
    {
        true
    }

    /// Number of values the layer emits.
    pub fn size(&self) -> (result: usize)
        ensures
            result == self.spec_size(),
    {
        self.biases.len()
    }
}

} // verus!
