use vstd::prelude::*;

verus! {

/// Input layer: holds the network's input dimensionality and passes values
/// through unchanged.  It is not trainable.
#[derive(Clone, Copy, Debug, PartialEq, Eq, Structural)]
pub struct Input {
    pub size: usize,
}

impl Input {
    /// Builds an input layer of the given dimensionality.
    pub fn new(size: usize) -> (result: Input)
        ensures
            result == (Input { size }),
    {
        Input { size }
    }

    /// An input layer carries no trainable parameters.
    pub fn trainable(&self) -> (result: bool)
        ensures
            result == false,
    {
        false
    }

    /// The layer's dimensionality.
    pub fn size(&self) -> (result: usize)
        ensures
            result == self.size,
    {
        self.size
    }

    /// The identity transform: the input comes back unchanged.
    pub fn feed_forward(&self, input: &Vec<u64>) -> (result: Vec<u64>)
        ensures
            result@ == input@,
    {
        input.clone()
    }
}

} // verus!
