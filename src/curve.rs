use vstd::prelude::*;
use crate::error::SimError;

verus! {

/// Fixed-point unit of probability: a survival probability `p` is held as `p * SCALE`.
pub const SCALE: u64 = 4294967296;

/// Survival probability, in units of `1 / SCALE`, of reaching age `candidate`;
/// an age outside the curve has probability zero.
pub open spec fn survival(curve: Seq<u64>, candidate: int) -> int {
    if 0 <= candidate < curve.len() {
        curve[candidate] as int
    } else {
        0
    }
}

/// Probabilities indexed by age: entry `a` is the chance, in units of `1 / SCALE`,
/// that an asset reaching age `a` survives rather than being renewed.
pub struct SurvivalCurve {
    pub parts: Vec<u64>,
}

impl SurvivalCurve {
    pub open spec fn wf(&self) -> bool {
        &&& self.parts@.len() <= i64::MAX
        &&& forall|i: int| 0 <= i < self.parts@.len() ==> self.parts@[i] <= SCALE
    }

    /// Builds a curve from fixed-point probabilities; each must be at most `SCALE`.
    pub fn new(parts: Vec<u64>) -> (r: Result<SurvivalCurve, SimError>)
        ensures
            match r {
                Ok(c) => c.parts@ == parts@ && c.wf(),
                Err(e) => e == SimError::InvalidProbability,
            },
            r.is_ok() <==> (parts@.len() <= i64::MAX && forall|i: int|
                0 <= i < parts@.len() ==> parts@[i] <= SCALE),
    {
        if parts.len() as u64 > i64::MAX as u64 {
            return Err(SimError::InvalidProbability);
        }
        let mut i: usize = 0;
        while i < parts.len()
            invariant
                i <= parts@.len(),
                forall|k: int| 0 <= k < i ==> parts@[k] <= SCALE,
            decreases parts@.len() - i,
        {
            if parts[i] > SCALE {
                return Err(SimError::InvalidProbability);
            }
            i = i + 1;
        }
        Ok(SurvivalCurve { parts })
    }

    pub fn len(&self) -> (r: usize)
        ensures
            r == self.parts@.len(),
    {
        self.parts.len()
    }

    /// The survival probability of reaching age `candidate`; zero off the curve.
    pub fn survival_at(&self, candidate: i64) -> (r: u64)
        requires
            self.wf(),
        ensures
            r as int == survival(self.parts@, candidate as int),
    {
        if candidate >= 0 && (candidate as u64) < self.parts.len() as u64 {
            self.parts[candidate as usize]
        } else {
            0
        }
    }
}

} // verus!
