use vstd::prelude::*;

verus! {

/// The cost function a network trains against.
///
/// `MeanAbsoluteError` has derivative `sign(output - expected)` per
/// component; `MeanSquaredError` has derivative `output - expected`.
#[derive(Clone, Copy, Debug, PartialEq, Eq, Structural)]
pub enum CostFunction {
    MeanAbsoluteError,
    MeanSquaredError,
}

/// The cost function denoted by a textual name, if any.
pub open spec fn spec_cost_from(s: Seq<char>) -> Option<CostFunction> {
    if s == "mae"@ || s == "mean-absolute-error"@ {
        Some(CostFunction::MeanAbsoluteError)
    } else if s == "mse"@ || s == "mean-squared-error"@ {
        Some(CostFunction::MeanSquaredError)
    } else {
        None
    }
}

impl CostFunction {
    /// Parses a cost-function name: `"mae"` / `"mean-absolute-error"` or
    /// `"mse"` / `"mean-squared-error"`; any other name is rejected.
    pub fn from(string: &str) -> (result: Option<CostFunction>)
        ensures
            result == spec_cost_from(string@),
    {
        let owned = string.to_owned();
        if owned == "mae".to_owned() || owned == "mean-absolute-error".to_owned() {
            Some(CostFunction::MeanAbsoluteError)
        } else if owned == "mse".to_owned() || owned == "mean-squared-error".to_owned() {
            Some(CostFunction::MeanSquaredError)
        } else {
            None
        }
    }
}

} // verus!
