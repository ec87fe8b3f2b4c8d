use vstd::prelude::*;

use crate::opt_traits::{OptData, TerminationCond};

verus! {

/// Stops a search after a fixed number of iterations, regardless of the
/// improvement signal.
pub struct MaxIterTerminationCond {
    pub n_iters: usize,
}

impl<T: OptData> TerminationCond<T> for MaxIterTerminationCond {
    open spec fn should_stop(&self, iter: int, diff: int) -> bool {
        iter >= self.n_iters
    }

    open spec fn max_iters(&self) -> usize {
        self.n_iters
    }

    proof fn stops(&self, iter: int, diff: int) {
    }

    fn eval(&self, iter: usize, _diff: i64) -> (r: bool) {
        iter >= self.n_iters
    }
}

} // verus!
