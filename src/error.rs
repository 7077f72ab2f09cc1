use vstd::prelude::*;

verus! {

/// Why an input was refused, or why a set of run tables cannot be reduced together.
#[derive(Debug, Clone, Copy, PartialEq, Eq, Structural)]
pub enum SimError {
    /// A survival probability lies outside `[0, 1]`, or the curve is too long.
    InvalidProbability,
    /// A survival curve is empty although more than one step is asked for.
    EmptyCurve,
    /// The step count is not positive, or too large for the curve and the machine.
    InvalidStepCount,
    /// An initial age is negative, or too large for the step count.
    InvalidAge,
    /// The cost vector does not have one entry per asset.
    CostLengthMismatch,
    /// The budget schedule does not have one entry per step.
    BudgetLengthMismatch,
    /// A cost per asset is needed (for a budget or a cost sum) but none is attached.
    MissingCost,
    /// The rows of a table, or two tables of one reduction, differ in their step count.
    StepCountMismatch,
}

} // verus!
